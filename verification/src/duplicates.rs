//! Finding duplicates: items are grouped by a key (a file's size, then its
//! checksum), and only the groups that hold more than one item are kept.

use vstd::prelude::*;
use crate::checksum::{be_bytes, blake3_of, blake3_digest, to_be_bytes, feed, lemma_be_bytes_injective};

verus! {

/// Whether `g` is a group of `keys`: at least two positions, increasing,
/// all with the same key, and every position with that key among them.
pub open spec fn is_group(keys: Seq<Seq<u8>>, g: Seq<usize>) -> bool {
    &&& g.len() >= 2
    &&& forall|j: int| 0 <= j < g.len() ==> #[trigger] g[j] < keys.len()
    &&& forall|a: int, b: int| 0 <= a < b < g.len() ==> #[trigger] g[a] < #[trigger] g[b]
    &&& forall|j: int| 0 <= j < g.len() ==> keys[#[trigger] g[j] as int] == keys[g[0] as int]
    &&& forall|i: int| 0 <= i < keys.len() && keys[i] == keys[g[0] as int] ==> #[trigger] g.contains(i as usize)
}

/// Whether some other position of `keys` holds the key at position `i`.
pub open spec fn has_twin(keys: Seq<Seq<u8>>, i: int) -> bool {
    exists|j: int| 0 <= j < keys.len() && j != i && keys[j] == #[trigger] keys[i]
}

/// Whether `groups` are the groups of `keys`, ordered by their first
/// position: every position whose key occurs more than once is in one.
pub open spec fn grouped(keys: Seq<Seq<u8>>, groups: Seq<Seq<usize>>) -> bool {
    &&& forall|k: int| 0 <= k < groups.len() ==> is_group(keys, #[trigger] groups[k])
    &&& forall|k1: int, k2: int| 0 <= k1 < k2 < groups.len() ==> #[trigger] groups[k1][0] < #[trigger] groups[k2][0]
    &&& forall|i: int| 0 <= i < keys.len() && has_twin(keys, i) ==>
        exists|k: int| 0 <= k < groups.len() && #[trigger] groups[k].contains(i as usize)
}

/// Whether two byte strings are equal.
fn same_bytes(a: &Vec<u8>, b: &Vec<u8>) -> (r: bool)
    ensures
        r == (a@ == b@),
{
    if a.len() != b.len() {
        return false;
    }
    let mut i: usize = 0;
    while i < a.len()
        invariant
            0 <= i <= a@.len(),
            a@.len() == b@.len(),
            forall|k: int| 0 <= k < i ==> a@[k] == b@[k],
        decreases a@.len() - i,
    {
        if a[i] != b[i] {
            return false;
        }
        i = i + 1;
    }
    assert(a@ =~= b@);
    true
}

/// The positions of `keys` grouped by equal key, keeping only the keys that
/// occur more than once; groups come in the order of their first position.
pub fn duplicate_groups(keys: &Vec<Vec<u8>>) -> (groups: Vec<Vec<usize>>)
    ensures
        grouped(keys@.map_values(|k: Vec<u8>| k@), groups@.map_values(|g: Vec<usize>| g@)),
{
    let ghost ks = keys@.map_values(|k: Vec<u8>| k@);
    let n = keys.len();
    let mut groups: Vec<Vec<usize>> = Vec::new();
    let mut i: usize = 0;
    while i < n
        invariant
            0 <= i <= n,
            n == keys@.len(),
            ks == keys@.map_values(|k: Vec<u8>| k@),
            forall|k: int| 0 <= k < groups@.len() ==> is_group(ks, #[trigger] groups@[k]@),
            forall|k: int| 0 <= k < groups@.len() ==> #[trigger] groups@[k]@[0] < i,
            forall|k1: int, k2: int| 0 <= k1 < k2 < groups@.len() ==> #[trigger] groups@[k1]@[0] < #[trigger] groups@[k2]@[0],
            forall|p: int| 0 <= p < i && has_twin(ks, p) ==>
                exists|k: int| 0 <= k < groups@.len() && #[trigger] groups@[k]@.contains(p as usize),
        decreases n - i,
    {
        let mut seen = false;
        let mut j: usize = 0;
        while j < i
            invariant
                0 <= j <= i < n,
                n == keys@.len(),
                ks == keys@.map_values(|k: Vec<u8>| k@),
                seen ==> exists|q: int| 0 <= q < i && ks[q] == ks[i as int],
                !seen ==> forall|q: int| 0 <= q < j ==> ks[q] != ks[i as int],
            decreases i - j,
        {
            if !seen {
                let eq = same_bytes(&keys[j], &keys[i]);
                if eq {
                    seen = true;
                    assert(ks[j as int] == ks[i as int]);
                }
            }
            j = j + 1;
        }
        if !seen {
            let mut g: Vec<usize> = Vec::new();
            g.push(i);
            let mut m: usize = i + 1;
            assert(g@ =~= seq![i]);
            assert(g@[0] == i);
            assert(g@.contains(i));
            while m < n
                invariant
                    i < m <= n,
                    n == keys@.len(),
                    ks == keys@.map_values(|k: Vec<u8>| k@),
                    g@.len() >= 1,
                    g@[0] == i,
                    forall|a: int| 0 <= a < g@.len() ==> #[trigger] g@[a] < m,
                    forall|a: int, b: int| 0 <= a < b < g@.len() ==> #[trigger] g@[a] < #[trigger] g@[b],
                    forall|a: int| 0 <= a < g@.len() ==> ks[#[trigger] g@[a] as int] == ks[i as int],
                    forall|p: int| i <= p < m && ks[p] == ks[i as int] ==> #[trigger] g@.contains(p as usize),
                decreases n - m,
            {
                if same_bytes(&keys[m], &keys[i]) {
                    let ghost before = g@;
                    g.push(m);
                    proof {
                        assert forall|p: int| i <= p < m + 1 && ks[p] == ks[i as int] implies #[trigger] g@.contains(p as usize) by {
                            if p < m {
                                assert(before.contains(p as usize));
                                let w = choose|w: int| 0 <= w < before.len() && before[w] == p as usize;
                                assert(g@[w] == p as usize);
                            } else {
                                assert(g@[g@.len() - 1] == p as usize);
                            }
                        }
                    }
                }
                m = m + 1;
            }
            proof {
                assert forall|p: int| 0 <= p < keys@.len() && ks[p] == ks[i as int] implies #[trigger] g@.contains(p as usize) by {
                    if p < i {
                        assert(ks[p] != ks[i as int]);
                    }
                }
            }
            if g.len() >= 2 {
                let ghost before = groups@;
                groups.push(g);
                proof {
                    assert(groups@[groups@.len() - 1]@ == g@);
                    assert forall|k: int| 0 <= k < groups@.len() implies is_group(ks, #[trigger] groups@[k]@) by {
                        if k < before.len() {
                            assert(groups@[k] == before[k]);
                        }
                    }
                    assert forall|p: int| 0 <= p < i + 1 && has_twin(ks, p) implies
                        exists|k: int| 0 <= k < groups@.len() && #[trigger] groups@[k]@.contains(p as usize) by {
                        if p < i {
                            let k = choose|k: int| 0 <= k < before.len() && #[trigger] before[k]@.contains(p as usize);
                            assert(groups@[k] == before[k]);
                        } else {
                            assert(groups@[groups@.len() - 1]@.contains(p as usize));
                        }
                    }
                }
            } else {
                proof {
                    assert forall|p: int| 0 <= p < i + 1 && has_twin(ks, p) implies
                        exists|k: int| 0 <= k < groups@.len() && #[trigger] groups@[k]@.contains(p as usize) by {
                        if p == i {
                            let q = choose|q: int| 0 <= q < ks.len() && q != i && ks[q] == #[trigger] ks[i as int];
                            assert(g@.contains(q as usize));
                            assert(g@.contains(i as usize)) by {
                                assert(g@[0] == i);
                            }
                            let w = choose|w: int| 0 <= w < g@.len() && g@[w] == q as usize;
                            assert(w != 0);
                        }
                    }
                }
            }
        } else {
            proof {
                assert forall|p: int| 0 <= p < i + 1 && has_twin(ks, p) implies
                    exists|k: int| 0 <= k < groups@.len() && #[trigger] groups@[k]@.contains(p as usize) by {
                    if p == i {
                        let q = choose|q: int| 0 <= q < i && ks[q] == ks[i as int];
                        assert(has_twin(ks, q)) by {
                            assert(ks[i as int] == ks[q]);
                        }
                        let k = choose|k: int| 0 <= k < groups@.len() && #[trigger] groups@[k]@.contains(q as usize);
                        let gk = groups@[k]@;
                        assert(is_group(ks, gk));
                        let w = choose|w: int| 0 <= w < gk.len() && gk[w] == q as usize;
                        assert(ks[gk[w] as int] == ks[gk[0] as int]);
                        assert(gk.contains(i as usize));
                    }
                }
            }
        }
        i = i + 1;
    }
    proof {
        let gv = groups@.map_values(|g: Vec<usize>| g@);
        assert forall|k: int| 0 <= k < gv.len() implies is_group(ks, #[trigger] gv[k]) by {
            assert(gv[k] == groups@[k]@);
        }
        assert forall|k1: int, k2: int| 0 <= k1 < k2 < gv.len() implies #[trigger] gv[k1][0] < #[trigger] gv[k2][0] by {
            assert(gv[k1] == groups@[k1]@);
            assert(gv[k2] == groups@[k2]@);
        }
        assert forall|p: int| 0 <= p < ks.len() && has_twin(ks, p) implies
            exists|k: int| 0 <= k < gv.len() && #[trigger] gv[k].contains(p as usize) by {
            let k = choose|k: int| 0 <= k < groups@.len() && #[trigger] groups@[k]@.contains(p as usize);
            assert(gv[k] == groups@[k]@);
        }
    }
    groups
}

/// The first sixteen bytes of `c` (all of it when shorter): what the first
/// comparison of two files reads.
pub open spec fn head_of(c: Seq<u8>) -> Seq<u8> {
    if c.len() <= 16 { c } else { c.take(16) }
}

/// The key a file is compared by: the eight bytes of its size, then the
/// BLAKE3 digest of its first sixteen bytes, then that of its contents.
pub open spec fn file_key(c: Seq<u8>) -> Seq<u8> {
    be_bytes(c.len() as u64) + blake3_of(head_of(c)) + blake3_of(c)
}

/// The keys of files with the contents `contents`.
pub open spec fn file_keys(contents: Seq<Seq<u8>>) -> Seq<Seq<u8>> {
    contents.map_values(|c: Seq<u8>| file_key(c))
}

/// Whether both digests in the key of `c` are 32 bytes long.
pub open spec fn digests_sized(c: Seq<u8>) -> bool {
    blake3_of(head_of(c)).len() == 32 && blake3_of(c).len() == 32
}

/// The key of the file holding `c`.
fn file_key_of(c: &Vec<u8>) -> (k: Vec<u8>)
    ensures
        k@ == file_key(c@),
        digests_sized(c@),
{
    let mut k = to_be_bytes(c.len() as u64);
    let n: usize = if c.len() <= 16 { c.len() } else { 16 };
    let head = vstd::slice::slice_subrange(c.as_slice(), 0, n);
    proof {
        assert(head@ =~= head_of(c@));
    }
    let h = blake3_digest(head);
    feed(&mut k, h.as_slice());
    let d = blake3_digest(c.as_slice());
    feed(&mut k, d.as_slice());
    k
}

/// The positions of each group.
pub open spec fn positions(groups: Seq<(Vec<u8>, Vec<usize>)>) -> Seq<Seq<usize>> {
    groups.map_values(|g: (Vec<u8>, Vec<usize>)| g.1@)
}

/// Groups files by their contents, as the duplicate finder does: by size,
/// then by the BLAKE3 digest of the first sixteen bytes, then by that of
/// the whole contents; only groups of two or more are kept, in the order
/// of their first position, each with the BLAKE3 checksum of its files.
pub fn duplicate_files(contents: &Vec<Vec<u8>>) -> (groups: Vec<(Vec<u8>, Vec<usize>)>)
    ensures
        grouped(file_keys(contents@.map_values(|c: Vec<u8>| c@)), positions(groups@)),
        forall|k: int, j: int| 0 <= k < groups@.len() && 0 <= j < groups@[k].1@.len() ==>
            groups@[k].0@ == blake3_of(contents@[#[trigger] groups@[k].1@[j] as int]@),
        forall|i: int| 0 <= i < contents@.len() ==> digests_sized(#[trigger] contents@[i]@),
{
    let ghost cs = contents@.map_values(|c: Vec<u8>| c@);
    let mut keys: Vec<Vec<u8>> = Vec::new();
    let mut i: usize = 0;
    while i < contents.len()
        invariant
            0 <= i <= contents@.len(),
            cs == contents@.map_values(|c: Vec<u8>| c@),
            keys@.len() == i,
            forall|k: int| 0 <= k < i ==> #[trigger] keys@[k]@ == file_key(cs[k]),
            forall|k: int| 0 <= k < i ==> digests_sized(#[trigger] contents@[k]@),
        decreases contents@.len() - i,
    {
        let k = file_key_of(&contents[i]);
        keys.push(k);
        i = i + 1;
    }
    let ghost ks = keys@.map_values(|k: Vec<u8>| k@);
    assert(ks =~= file_keys(cs));
    let found = duplicate_groups(&keys);
    let ghost fs = found@.map_values(|g: Vec<usize>| g@);
    let mut out: Vec<(Vec<u8>, Vec<usize>)> = Vec::new();
    let mut k: usize = 0;
    while k < found.len()
        invariant
            0 <= k <= found@.len(),
            cs == contents@.map_values(|c: Vec<u8>| c@),
            ks == keys@.map_values(|k: Vec<u8>| k@),
            ks == file_keys(cs),
            keys@.len() == contents@.len(),
            forall|x: int| 0 <= x < contents@.len() ==> digests_sized(#[trigger] contents@[x]@),
            fs == found@.map_values(|g: Vec<usize>| g@),
            grouped(ks, fs),
            out@.len() == k,
            forall|m: int| 0 <= m < k ==> #[trigger] out@[m].1@ == fs[m],
            forall|m: int, j: int| 0 <= m < k && 0 <= j < out@[m].1@.len() ==>
                out@[m].0@ == blake3_of(contents@[#[trigger] out@[m].1@[j] as int]@),
        decreases found@.len() - k,
    {
        let g = &found[k];
        proof {
            assert(fs[k as int] == g@);
            assert(is_group(ks, g@));
        }
        let first = g[0];
        let key = &keys[first];
        proof {
            let c = cs[first as int];
            assert(g@[0] < ks.len());
            assert(ks[first as int] == keys@[first as int]@);
            assert(ks[first as int] == file_key(c));
            assert(digests_sized(contents@[first as int]@));
            assert(key@ == file_key(c));
            assert(key@.len() == 72);
        }
        let digest = vstd::slice::slice_to_vec(vstd::slice::slice_subrange(key.as_slice(), 40, 72));
        let members = vstd::slice::slice_to_vec(g.as_slice());
        proof {
            assert forall|j: int| 0 <= j < members@.len() implies
                digest@ == blake3_of(contents@[#[trigger] members@[j] as int]@) by {
                let x = members@[j] as int;
                assert(ks[x] == ks[first as int]);
                let c = cs[x];
                assert(digests_sized(contents@[x]@));
                assert(ks[x].subrange(40, 72) =~= blake3_of(c));
                assert(key@.subrange(40, 72) =~= digest@);
            }
        }
        out.push((digest, members));
        k = k + 1;
    }
    assert(positions(out@) =~= fs);
    out
}

/// Files land in one group exactly when their keys agree: the same size,
/// the same digest of the first sixteen bytes and the same digest of the
/// contents. So files with equal contents always share a group (that
/// different contents never do rests on BLAKE3 having no collisions).
pub proof fn law_duplicates_by_contents(contents: Seq<Seq<u8>>, groups: Seq<Seq<usize>>, i: int, j: int)
    requires
        grouped(file_keys(contents), groups),
        forall|k: int| 0 <= k < contents.len() ==> digests_sized(#[trigger] contents[k]),
        forall|k: int| 0 <= k < contents.len() ==> #[trigger] contents[k].len() <= usize::MAX,
        contents.len() <= usize::MAX,
        0 <= i < contents.len(),
        0 <= j < contents.len(),
        i != j,
    ensures
        (exists|k: int| 0 <= k < groups.len() && #[trigger] groups[k].contains(i as usize) && groups[k].contains(j as usize))
            <==> {
                &&& contents[i].len() == contents[j].len()
                &&& blake3_of(head_of(contents[i])) == blake3_of(head_of(contents[j]))
                &&& blake3_of(contents[i]) == blake3_of(contents[j])
            },
        contents[i] == contents[j] ==>
            exists|k: int| 0 <= k < groups.len() && #[trigger] groups[k].contains(i as usize) && groups[k].contains(j as usize),
{
    let keys = file_keys(contents);
    let ci = contents[i];
    let cj = contents[j];
    assert(keys[i] == file_key(ci));
    assert(keys[j] == file_key(cj));
    assert(digests_sized(ci));
    assert(digests_sized(cj));
    // The key splits into its three parts, each of fixed length.
    let ki = keys[i];
    let kj = keys[j];
    assert(ki.subrange(0, 8) =~= be_bytes(ci.len() as u64));
    assert(kj.subrange(0, 8) =~= be_bytes(cj.len() as u64));
    assert(ki.subrange(8, 40) =~= blake3_of(head_of(ci)));
    assert(kj.subrange(8, 40) =~= blake3_of(head_of(cj)));
    assert(ki.subrange(40, 72) =~= blake3_of(ci));
    assert(kj.subrange(40, 72) =~= blake3_of(cj));
    assert(ci.len() <= usize::MAX && cj.len() <= usize::MAX);
    if ki == kj {
        lemma_be_bytes_injective(ci.len() as u64, cj.len() as u64);
    }
    let same = ci.len() == cj.len() && blake3_of(head_of(ci)) == blake3_of(head_of(cj)) && blake3_of(ci) == blake3_of(cj);
    if same {
        assert(ki =~= kj);
    }
    if exists|k: int| 0 <= k < groups.len() && #[trigger] groups[k].contains(i as usize) && groups[k].contains(j as usize) {
        let k = choose|k: int| 0 <= k < groups.len() && #[trigger] groups[k].contains(i as usize) && groups[k].contains(j as usize);
        let g = groups[k];
        assert(is_group(keys, g));
        let a = choose|a: int| 0 <= a < g.len() && g[a] == i as usize;
        let b = choose|b: int| 0 <= b < g.len() && g[b] == j as usize;
        assert(keys[g[a] as int] == keys[g[0] as int]);
        assert(keys[g[b] as int] == keys[g[0] as int]);
    }
    if ki == kj {
        assert(has_twin(keys, i));
        let k = choose|k: int| 0 <= k < groups.len() && #[trigger] groups[k].contains(i as usize);
        let g = groups[k];
        assert(is_group(keys, g));
        let a = choose|a: int| 0 <= a < g.len() && g[a] == i as usize;
        assert(keys[g[a] as int] == keys[g[0] as int]);
        assert(keys[j] == keys[g[0] as int]);
        assert(g.contains(j as usize));
    }
}

} // verus!
