//! The steps of a walk that counts the entries below a directory of the
//! in-memory file system: listing one directory tells how many entries it
//! counts and which directories are still to list. The worker threads that
//! share the directories out run outside the library.

use vstd::prelude::*;
use crate::dir::entry_type;
use crate::error::FsError;
use crate::fs::InMemoryFs;
use crate::model::{check, read_dir};
use crate::node::{Entries, NodeId};
use crate::path::{path_names, normalized, unix_joined};
use crate::store::StoreView;
use crate::vfs::VfsNodeType;

verus! {

/// The configuration of a walk: its root and how many worker threads share
/// the directories out.
#[derive(Debug)]
pub struct WalkConfig {
    pub num_threads: usize,
    pub root: String,
}

impl WalkConfig {
    /// A walk of `root` with `num_threads` worker threads.
    pub fn new(root: String, num_threads: usize) -> (c: Self)
        ensures
            c.root@ == root@,
            c.num_threads == num_threads,
    {
        WalkConfig { num_threads, root }
    }
}

/// The outcome of a walk.
#[derive(Debug)]
pub struct WalkResult {
    /// How many entries (files and directories) were found.
    pub entries_scanned: usize,
}

/// What listing one directory contributes to a walk.
#[derive(Debug)]
pub struct DirListing {
    /// How many of its entries could be read.
    pub entries: usize,
    /// The paths of its readable entries that are directories, in order.
    pub directories: Vec<String>,
}

/// How many of the first `k` entries are readable.
pub open spec fn readable_count(s: StoreView, entries: Entries, k: nat) -> nat
    decreases k,
{
    if k == 0 {
        0
    } else {
        readable_count(s, entries, (k - 1) as nat) + if check(s, entries[k - 1].1, false) is Ok { 1nat } else { 0nat }
    }
}

/// A listing counts exactly the entries whose effective permissions grant
/// reading, among the first `k`: an entry that cannot be read adds nothing,
/// so the count is below `k` as soon as one of them is unreadable.
pub proof fn law_listing_counts_readable_entries(s: StoreView, entries: Entries, k: nat)
    requires
        k <= entries.len(),
    ensures
        readable_count(s, entries, k) == entries.take(k as int).filter(|e: (Seq<char>, NodeId)|
            crate::model::effective_permissions(s, e.1) matches Ok(p) && p.spec_can_read()).len(),
        readable_count(s, entries, k) <= k,
        (exists|j: int| 0 <= j < k && !(crate::model::effective_permissions(s, #[trigger] entries[j].1) matches Ok(p) && p.spec_can_read()))
            ==> readable_count(s, entries, k) < k,
    decreases k,
{
    let f = |e: (Seq<char>, NodeId)| crate::model::effective_permissions(s, e.1) matches Ok(p) && p.spec_can_read();
    if k > 0 {
        law_listing_counts_readable_entries(s, entries, (k - 1) as nat);
        let t = entries.take(k as int);
        assert(t.drop_last() =~= entries.take(k - 1));
        assert(t.last() == entries[k - 1]);
        assert(check(s, entries[k - 1].1, false) is Ok <==> f(entries[k - 1]));
        assert(t.len() > 0);
        reveal(Seq::filter);
        assert(t.filter(f) == (if f(t.last()) { t.drop_last().filter(f).push(t.last()) } else { t.drop_last().filter(f) }));
        assert(t.filter(f).len() == entries.take(k - 1).filter(f).len() + if f(entries[k - 1]) { 1int } else { 0int });
        if exists|j: int| 0 <= j < k && !(crate::model::effective_permissions(s, #[trigger] entries[j].1) matches Ok(p) && p.spec_can_read()) {
            let j = choose|j: int| 0 <= j < k && !(crate::model::effective_permissions(s, #[trigger] entries[j].1) matches Ok(p) && p.spec_can_read());
            if j < k - 1 {
                assert(!(crate::model::effective_permissions(s, entries[j].1) matches Ok(p) && p.spec_can_read()));
            }
        }
    } else {
        assert(entries.take(0) =~= Seq::<(Seq<char>, NodeId)>::empty());
    }
}

/// The paths, below `dir`, of the first `k` entries that are readable
/// directories.
pub open spec fn subdirectories(s: StoreView, root: NodeId, dir: Seq<char>, entries: Entries, k: nat) -> Seq<Seq<char>>
    decreases k,
{
    if k == 0 {
        Seq::empty()
    } else {
        let prev = subdirectories(s, root, dir, entries, (k - 1) as nat);
        let p = unix_joined(dir, entries[k - 1].0);
        if check(s, entries[k - 1].1, false) is Ok && entry_type(s, root, p) == Ok::<VfsNodeType, FsError>(VfsNodeType::Directory) {
            prev.push(p)
        } else {
            prev
        }
    }
}

/// The directories a listing hands on are exactly its entries, among the
/// first `k`, that can be read and are directories, in order, each joined
/// to the listed path.
pub proof fn law_listing_hands_on_readable_directories(s: StoreView, root: NodeId, dir: Seq<char>, entries: Entries, k: nat)
    requires
        k <= entries.len(),
    ensures
        subdirectories(s, root, dir, entries, k) == entries.take(k as int).filter(|e: (Seq<char>, NodeId)|
            (crate::model::effective_permissions(s, e.1) matches Ok(p) && p.spec_can_read())
                && entry_type(s, root, unix_joined(dir, e.0)) == Ok::<VfsNodeType, FsError>(VfsNodeType::Directory))
            .map_values(|e: (Seq<char>, NodeId)| unix_joined(dir, e.0)),
    decreases k,
{
    let f = |e: (Seq<char>, NodeId)|
        (crate::model::effective_permissions(s, e.1) matches Ok(p) && p.spec_can_read())
            && entry_type(s, root, unix_joined(dir, e.0)) == Ok::<VfsNodeType, FsError>(VfsNodeType::Directory);
    let g = |e: (Seq<char>, NodeId)| unix_joined(dir, e.0);
    if k > 0 {
        law_listing_hands_on_readable_directories(s, root, dir, entries, (k - 1) as nat);
        let t = entries.take(k as int);
        assert(t.drop_last() =~= entries.take(k - 1));
        assert(t.last() == entries[k - 1]);
        assert(t.len() > 0);
        reveal(Seq::filter);
        assert(t.filter(f) == (if f(t.last()) { t.drop_last().filter(f).push(t.last()) } else { t.drop_last().filter(f) }));
        let prev = entries.take(k - 1).filter(f);
        assert(check(s, entries[k - 1].1, false) is Ok <==> (crate::model::effective_permissions(s, entries[k - 1].1) matches Ok(p) && p.spec_can_read()));
        if f(entries[k - 1]) {
            assert(prev.push(entries[k - 1]).map_values(g) =~= prev.map_values(g).push(g(entries[k - 1])));
        }
    } else {
        assert(entries.take(0) =~= Seq::<(Seq<char>, NodeId)>::empty());
        reveal(Seq::filter);
        assert(entries.take(0).filter(f) =~= Seq::<(Seq<char>, NodeId)>::empty());
        assert(entries.take(0).filter(f).map_values(g) =~= Seq::<Seq<char>>::empty());
    }
}

/// Lists the readable directory at `path`: the number of its readable
/// entries, and the paths of those that are directories.
pub fn list_dir(fs: &InMemoryFs, path: &str) -> (r: Result<DirListing, FsError>)
    requires
        fs.wf(),
    ensures
        match path_names(path@) {
            Err(e) => r matches Err(e2) && e2 == e,
            Ok(ns) => match read_dir(fs@.store, fs@.root, ns) {
                Err(e) => r matches Err(e2) && e2 == e,
                Ok(entries) => r matches Ok(l) && {
                    &&& l.entries == readable_count(fs@.store, entries, entries.len())
                    &&& l.directories@.map_values(|d: String| d@)
                        == subdirectories(fs@.store, fs@.root, normalized(path@)->Ok_0, entries, entries.len())
                },
            },
        },
{
    let list = fs.read_dir(path)?;
    let ghost s = fs@.store;
    let ghost root = fs@.root;
    let ghost entries = read_dir(s, root, path_names(path@)->Ok_0)->Ok_0;
    let ghost dir = normalized(path@)->Ok_0;
    let mut count: usize = 0;
    let mut dirs: Vec<String> = Vec::new();
    let mut k: usize = 0;
    while k < list.len()
        invariant
            0 <= k <= list@.len(),
            list@.len() == entries.len(),
            count <= k,
            fs.wf(),
            s == fs@.store,
            root == fs@.root,
            forall|j: int| 0 <= j < entries.len() ==>
                match check(s, entries[j].1, false) {
                    Err(e) => #[trigger] list@[j] matches Err(e2) && e2 == e,
                    Ok(_) => list@[j] matches Ok(d) && d.depth == 0 && d.path@ == unix_joined(dir, entries[j].0),
                },
            count == readable_count(s, entries, k as nat),
            dirs@.map_values(|d: String| d@) == subdirectories(s, root, dir, entries, k as nat),
        decreases list@.len() - k,
    {
        match &list[k] {
            Err(_) => {},
            Ok(entry) => {
                count = count + 1;
                let is_dir = match entry.node_type(fs) {
                    Ok(VfsNodeType::Directory) => true,
                    _ => false,
                };
                if is_dir {
                    let ghost before = dirs@;
                    dirs.push(entry.path.clone());
                    assert(dirs@.map_values(|d: String| d@) =~= before.map_values(|d: String| d@).push(entry.path@));
                }
            },
        }
        k = k + 1;
    }
    Ok(DirListing { entries: count, directories: dirs })
}

/// What listing the directory at `p` gives a walk: the number of its
/// readable entries and the paths of those that are directories.
pub open spec fn listing_of(s: StoreView, root: NodeId, p: Seq<char>) -> Result<(nat, Seq<Seq<char>>), FsError> {
    match path_names(p) {
        Err(e) => Err(e),
        Ok(ns) => match read_dir(s, root, ns) {
            Err(e) => Err(e),
            Ok(entries) => Ok((
                readable_count(s, entries, entries.len()),
                subdirectories(s, root, normalized(p)->Ok_0, entries, entries.len()),
            )),
        },
    }
}

/// The count a walk reaches from `count` by listing, at most `fuel` times,
/// the last directory still queued: its readable entries are counted (the
/// count wraps around as an atomic counter's does) and its directories
/// queued; a directory that cannot be listed adds nothing.
pub open spec fn walk_from(s: StoreView, root: NodeId, queue: Seq<Seq<char>>, count: usize, fuel: nat) -> usize
    decreases fuel,
{
    if fuel == 0 || queue.len() == 0 {
        count
    } else {
        match listing_of(s, root, queue.last()) {
            Ok((n, dirs)) => walk_from(
                s,
                root,
                queue.drop_last() + dirs,
                vstd::wrapping::usize_specs::wrapping_add(count, n as usize),
                (fuel - 1) as nat,
            ),
            Err(_) => walk_from(s, root, queue.drop_last(), count, (fuel - 1) as nat),
        }
    }
}

/// The number of entries a walk of `start` finds: the directories below
/// `start` are listed in turn and every readable entry they hold is
/// counted; the entries of `start` itself are not counted, and a `start`
/// that cannot be listed gives 0.
pub open spec fn walk_count(s: StoreView, root: NodeId, start: Seq<char>) -> usize {
    match listing_of(s, root, start) {
        Err(_) => 0,
        Ok((_, dirs)) => walk_from(s, root, dirs, 0, usize::MAX as nat),
    }
}

/// Walks `config.root` on one thread, one directory at a time, counting
/// what the worker threads of a parallel walk count.
pub fn walk_in_order(fs: &InMemoryFs, config: &WalkConfig) -> (r: WalkResult)
    requires
        fs.wf(),
    ensures
        r.entries_scanned == walk_count(fs@.store, fs@.root, config.root@),
{
    let ghost s = fs@.store;
    let ghost root = fs@.root;
    let mut queue = match list_dir(fs, config.root.as_str()) {
        Ok(listing) => listing.directories,
        Err(_) => {
            return WalkResult { entries_scanned: 0 };
        },
    };
    let mut count: usize = 0;
    let mut fuel: usize = usize::MAX;
    while fuel > 0 && queue.len() > 0
        invariant
            fs.wf(),
            s == fs@.store,
            root == fs@.root,
            walk_from(s, root, queue@.map_values(|d: String| d@), count, fuel as nat) == walk_count(s, root, config.root@),
        decreases fuel,
    {
        let ghost q = queue@.map_values(|d: String| d@);
        let p = queue.pop().unwrap();
        proof {
            assert(queue@.map_values(|d: String| d@) =~= q.drop_last());
            assert(p@ == q.last());
        }
        match list_dir(fs, p.as_str()) {
            Ok(listing) => {
                count = count.wrapping_add(listing.entries);
                let mut dirs = listing.directories;
                let ghost qd = queue@.map_values(|d: String| d@);
                let ghost dv = dirs@.map_values(|d: String| d@);
                queue.append(&mut dirs);
                proof {
                    assert(queue@.map_values(|d: String| d@) =~= qd + dv);
                }
            },
            Err(_) => {},
        }
        fuel = fuel - 1;
    }
    WalkResult { entries_scanned: count }
}

/// The entries a walk finds at and below the directory at `p`, looking
/// `depth` levels down: the readable entries `p` holds, and again those
/// at and below each directory among them.
pub open spec fn entries_from(s: StoreView, root: NodeId, p: Seq<char>, depth: nat) -> nat
    decreases depth, 0int, 0int,
{
    if depth == 0 {
        0
    } else {
        match listing_of(s, root, p) {
            Err(_) => 0,
            Ok((n, dirs)) => n + entries_in(s, root, dirs, (depth - 1) as nat),
        }
    }
}

/// The entries a walk finds at and below each of the directories `dirs`.
pub open spec fn entries_in(s: StoreView, root: NodeId, dirs: Seq<Seq<char>>, depth: nat) -> nat
    decreases depth, 1int, dirs.len(),
{
    if dirs.len() == 0 {
        0
    } else {
        entries_in(s, root, dirs.drop_last(), depth) + entries_from(s, root, dirs.last(), depth)
    }
}

/// The directories a walk lists at and below the directory at `p`: `p`
/// itself and those at and below each directory it holds.
pub open spec fn listings_from(s: StoreView, root: NodeId, p: Seq<char>, depth: nat) -> nat
    decreases depth, 0int, 0int,
{
    if depth == 0 {
        1
    } else {
        match listing_of(s, root, p) {
            Err(_) => 1,
            Ok((_, dirs)) => 1 + listings_in(s, root, dirs, (depth - 1) as nat),
        }
    }
}

/// The directories a walk lists at and below each of the directories `dirs`.
pub open spec fn listings_in(s: StoreView, root: NodeId, dirs: Seq<Seq<char>>, depth: nat) -> nat
    decreases depth, 1int, dirs.len(),
{
    if dirs.len() == 0 {
        0
    } else {
        listings_in(s, root, dirs.drop_last(), depth) + listings_from(s, root, dirs.last(), depth)
    }
}

/// Whether the directories below `p` end within `depth` levels: no
/// directory found on the way lies `depth` or more levels down.
pub open spec fn ends_within(s: StoreView, root: NodeId, p: Seq<char>, depth: nat) -> bool
    decreases depth,
{
    &&& depth > 0
    &&& match listing_of(s, root, p) {
        Err(_) => true,
        Ok((_, dirs)) => forall|i: int| 0 <= i < dirs.len() ==> ends_within(s, root, #[trigger] dirs[i], (depth - 1) as nat),
    }
}

/// The entries of the directories strictly below `start`, counted to
/// `depth` levels below its own directories: what a walk of `start`
/// counts (its own entries are not counted).
pub open spec fn descendant_entries(s: StoreView, root: NodeId, start: Seq<char>, depth: nat) -> nat {
    match listing_of(s, root, start) {
        Err(_) => 0,
        Ok((_, dirs)) => entries_in(s, root, dirs, depth),
    }
}

/// The directories strictly below `start` that a walk of it lists.
pub open spec fn descendant_listings(s: StoreView, root: NodeId, start: Seq<char>, depth: nat) -> nat {
    match listing_of(s, root, start) {
        Err(_) => 0,
        Ok((_, dirs)) => listings_in(s, root, dirs, depth),
    }
}

/// A tree that ends within `depth` levels ends within more, and gives the
/// same counts there.
proof fn lemma_from_deeper(s: StoreView, root: NodeId, p: Seq<char>, depth: nat)
    requires
        ends_within(s, root, p, depth),
    ensures
        ends_within(s, root, p, depth + 1),
        entries_from(s, root, p, depth + 1) == entries_from(s, root, p, depth),
        listings_from(s, root, p, depth + 1) == listings_from(s, root, p, depth),
    decreases depth, 0int, 0int,
{
    match listing_of(s, root, p) {
        Err(_) => {},
        Ok((n, dirs)) => {
            lemma_in_deeper(s, root, dirs, (depth - 1) as nat);
            assert((depth + 1 - 1) as nat == ((depth - 1) as nat) + 1);
        },
    }
}

/// Directories whose trees end within `depth` levels end within more, and
/// give the same counts there.
proof fn lemma_in_deeper(s: StoreView, root: NodeId, dirs: Seq<Seq<char>>, depth: nat)
    requires
        forall|i: int| 0 <= i < dirs.len() ==> ends_within(s, root, #[trigger] dirs[i], depth),
    ensures
        forall|i: int| 0 <= i < dirs.len() ==> ends_within(s, root, #[trigger] dirs[i], depth + 1),
        entries_in(s, root, dirs, depth + 1) == entries_in(s, root, dirs, depth),
        listings_in(s, root, dirs, depth + 1) == listings_in(s, root, dirs, depth),
    decreases depth, 1int, dirs.len(),
{
    if dirs.len() > 0 {
        let r = dirs.drop_last();
        assert forall|i: int| 0 <= i < r.len() implies ends_within(s, root, #[trigger] r[i], depth) by {
            assert(r[i] == dirs[i]);
        }
        lemma_in_deeper(s, root, r, depth);
        assert(dirs.last() == dirs[dirs.len() - 1]);
        lemma_from_deeper(s, root, dirs.last(), depth);
        assert forall|i: int| 0 <= i < dirs.len() implies ends_within(s, root, #[trigger] dirs[i], depth + 1) by {
            if i < r.len() {
                assert(r[i] == dirs[i]);
            }
        }
    }
}

/// Counting two runs of directories one after the other adds their counts.
proof fn lemma_in_concat(s: StoreView, root: NodeId, a: Seq<Seq<char>>, b: Seq<Seq<char>>, depth: nat)
    ensures
        entries_in(s, root, a + b, depth) == entries_in(s, root, a, depth) + entries_in(s, root, b, depth),
        listings_in(s, root, a + b, depth) == listings_in(s, root, a, depth) + listings_in(s, root, b, depth),
    decreases b.len(),
{
    if b.len() == 0 {
        assert(a + b =~= a);
    } else {
        lemma_in_concat(s, root, a, b.drop_last(), depth);
        assert((a + b).drop_last() =~= a + b.drop_last());
        assert((a + b).last() == b.last());
    }
}

/// A walk whose queued directories end within `depth` levels, with enough
/// steps and no overflow, adds the entries at and below each of them.
proof fn lemma_walk_from_counts(s: StoreView, root: NodeId, queue: Seq<Seq<char>>, count: usize, fuel: nat, depth: nat)
    requires
        forall|i: int| 0 <= i < queue.len() ==> ends_within(s, root, #[trigger] queue[i], depth),
        fuel >= listings_in(s, root, queue, depth),
        count + entries_in(s, root, queue, depth) <= usize::MAX,
    ensures
        walk_from(s, root, queue, count, fuel) == count + entries_in(s, root, queue, depth),
    decreases fuel,
{
    if queue.len() > 0 {
        let p = queue.last();
        let r = queue.drop_last();
        assert(p == queue[queue.len() - 1]);
        assert(ends_within(s, root, p, depth));
        assert forall|i: int| 0 <= i < r.len() implies ends_within(s, root, #[trigger] r[i], depth) by {
            assert(r[i] == queue[i]);
        }
        assert(listings_in(s, root, queue, depth) == listings_in(s, root, r, depth) + listings_from(s, root, p, depth));
        assert(entries_in(s, root, queue, depth) == entries_in(s, root, r, depth) + entries_from(s, root, p, depth));
        assert(listings_from(s, root, p, depth) >= 1);
        assert(fuel > 0);
        match listing_of(s, root, p) {
            Err(_) => {
                lemma_walk_from_counts(s, root, r, count, (fuel - 1) as nat, depth);
            },
            Ok((n, dirs)) => {
                let d1 = (depth - 1) as nat;
                lemma_in_deeper(s, root, dirs, d1);
                assert(d1 + 1 == depth);
                let q2 = r + dirs;
                lemma_in_concat(s, root, r, dirs, depth);
                assert forall|i: int| 0 <= i < q2.len() implies ends_within(s, root, #[trigger] q2[i], depth) by {
                    if i < r.len() {
                        assert(q2[i] == r[i]);
                    } else {
                        assert(q2[i] == dirs[i - r.len()]);
                    }
                }
                assert(entries_from(s, root, p, depth) == n + entries_in(s, root, dirs, d1));
                assert(listings_from(s, root, p, depth) == 1 + listings_in(s, root, dirs, d1));
                assert(n <= usize::MAX);
                let c2 = vstd::wrapping::usize_specs::wrapping_add(count, n as usize);
                assert(c2 == count + n);
                lemma_walk_from_counts(s, root, q2, c2, (fuel - 1) as nat, depth);
            },
        }
    }
}

/// A walk counts the entries of the directories strictly below its start
/// (not the start's own), when the tree below ends within `depth + 1`
/// levels, has no more directories to list than a counter can count and
/// holds no more entries than the count can hold.
pub proof fn law_walk_counts_descendant_entries(s: StoreView, root: NodeId, start: Seq<char>, depth: nat)
    requires
        ends_within(s, root, start, depth + 1),
        descendant_listings(s, root, start, depth) <= usize::MAX,
        descendant_entries(s, root, start, depth) <= usize::MAX,
    ensures
        walk_count(s, root, start) == descendant_entries(s, root, start, depth),
{
    match listing_of(s, root, start) {
        Err(_) => {},
        Ok((_, dirs)) => {
            assert((depth + 1 - 1) as nat == depth);
            lemma_walk_from_counts(s, root, dirs, 0, usize::MAX as nat, depth);
        },
    }
}

} // verus!
