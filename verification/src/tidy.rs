//! What every operation keeps: the root stays a live directory with no
//! directory above it, and no directory holds the root or a name twice.

use vstd::prelude::*;
use crate::error::FsError;
use crate::model::{resolve, find, add_node, child_ids};
use crate::node::{Entries, NodeId, NodeView, child_of, first_named, position_of, entries_insert, entries_remove, lemma_first_named_unique};
use crate::store::StoreView;
use crate::laws::{law_insert_then_lookup, lemma_add_node_wf, distinct_names};

verus! {

/// Whether no entry of `e` holds `root`.
pub open spec fn avoids(e: Entries, root: NodeId) -> bool {
    forall|j: int| 0 <= j < e.len() ==> #[trigger] e[j].1 != root
}

/// Whether the entries `e` hold neither `root` nor any name twice.
pub open spec fn sound_entries(e: Entries, root: NodeId) -> bool {
    avoids(e, root) && distinct_names(e)
}

/// Whether `s` is tidy around `root`: the root is a live directory with no
/// directory above it, every live directory holds neither the root nor a
/// name twice, and the store's slots can be counted.
pub open spec fn tidy(s: StoreView, root: NodeId) -> bool {
    &&& s.live(root)
    &&& s.node(root).is_dir()
    &&& s.node(root).parent is None
    &&& s.slots.len() <= usize::MAX
    &&& forall|x: NodeId| s.live(x) ==> sound_entries(#[trigger] s.node(x).entries(), root)
}

/// A node found by a path of at least one name is never the root.
pub proof fn lemma_resolve_not_root(s: StoreView, root: NodeId, names: Seq<Seq<char>>)
    requires
        tidy(s, root),
        names.len() > 0,
        resolve(s, root, names) is Ok,
    ensures
        resolve(s, root, names)->Ok_0 != root,
{
    let cur = resolve(s, root, names.drop_last())->Ok_0;
    let n = s.lookup(cur)->Ok_0;
    assert(s.live(cur));
    let i = choose|i: int| first_named(n.entries(), names.last(), i);
    lemma_first_named_unique(n.entries(), names.last(), i);
    assert(avoids(s.node(cur).entries(), root));
    assert(n.entries()[i].1 != root);
}

/// Mapping a name to a node other than the root keeps the root out and
/// every name once.
proof fn lemma_insert_sound(e: Entries, x: Seq<char>, id: NodeId, root: NodeId)
    requires
        sound_entries(e, root),
        id != root,
    ensures
        sound_entries(entries_insert(e, x, id), root),
{
    let e2 = entries_insert(e, x, id);
    match position_of(e, x) {
        Some(i) => {
            let w = choose|w: int| first_named(e, x, w);
            lemma_first_named_unique(e, x, w);
            assert forall|a: int, b: int| 0 <= a < b < e2.len() implies #[trigger] e2[a].0 != #[trigger] e2[b].0 by {
                assert(e2[a].0 == e[a].0);
                assert(e2[b].0 == e[b].0);
            }
        },
        None => {
            assert forall|j: int| 0 <= j < e.len() implies e[j].0 != x by {
                if e[j].0 == x {
                    crate::laws::lemma_first_named_exists(e, x, j);
                }
            }
            assert forall|a: int, b: int| 0 <= a < b < e2.len() implies #[trigger] e2[a].0 != #[trigger] e2[b].0 by {
                assert(e2[a] == e[a]);
                if b < e.len() {
                    assert(e2[b] == e[b]);
                }
            }
        },
    }
    assert forall|j: int| 0 <= j < e2.len() implies #[trigger] e2[j].1 != root by {
        match position_of(e, x) {
            Some(i) => {
                if j != i {
                    assert(e2[j] == e[j]);
                }
            },
            None => {
                if j < e.len() {
                    assert(e2[j] == e[j]);
                }
            },
        }
    }
}

/// Removing a name keeps the root out and every name once.
proof fn lemma_remove_sound(e: Entries, x: Seq<char>, root: NodeId)
    requires
        sound_entries(e, root),
    ensures
        sound_entries(entries_remove(e, x), root),
{
    let e2 = entries_remove(e, x);
    match position_of(e, x) {
        Some(i) => {
            let w = choose|w: int| first_named(e, x, w);
            lemma_first_named_unique(e, x, w);
            assert forall|j: int| 0 <= j < e2.len() implies #[trigger] e2[j].1 != root by {
                if j < i {
                    assert(e2[j] == e[j]);
                } else {
                    assert(e2[j] == e[j + 1]);
                }
            }
            assert forall|a: int, b: int| 0 <= a < b < e2.len() implies #[trigger] e2[a].0 != #[trigger] e2[b].0 by {
                let a2 = if a < i { a } else { a + 1 };
                let b2 = if b < i { b } else { b + 1 };
                assert(e2[a] == e[a2]);
                assert(e2[b] == e[b2]);
            }
        },
        None => {},
    }
}

/// Replacing a live node by one of the same kind, with the same parent
/// and entries holding neither the root nor a name twice, keeps the store
/// tidy.
pub proof fn lemma_with_node_tidy(s: StoreView, root: NodeId, id: NodeId, n2: NodeView)
    requires
        tidy(s, root),
        s.live(id),
        n2.is_dir() == s.node(id).is_dir(),
        n2.parent == s.node(id).parent,
        sound_entries(n2.entries(), root),
    ensures
        tidy(s.with_node(id.index as int, n2), root),
{
    let s2 = s.with_node(id.index as int, n2);
    if id.index == root.index {
        assert(id == root);
    }
    assert forall|x: NodeId| s2.live(x) implies sound_entries(#[trigger] s2.node(x).entries(), root) by {
        if x.index == id.index {
            assert(x == id);
        } else {
            assert(s.live(x));
            assert(s2.node(x) == s.node(x));
        }
    }
}

/// Inserting a node whose entries hold neither the root nor a name twice
/// keeps the store tidy, and the new node is not the root.
pub proof fn lemma_after_insert_tidy(s: StoreView, root: NodeId, n: NodeView)
    requires
        s.wf(),
        tidy(s, root),
        sound_entries(n.entries(), root),
    ensures
        tidy(s.after_insert(n).0, root),
        s.after_insert(n).1 matches Ok(id) ==> id != root && id.index != root.index,
{
    let (s2, r) = s.after_insert(n);
    law_insert_then_lookup(s, n, root);
    if s.free.len() > 0 {
        assert(s.slots[s.free[0] as int].node is None);
    }
    if r is Ok {
        let id = r->Ok_0;
        assert forall|x: NodeId| s2.live(x) implies sound_entries(#[trigger] s2.node(x).entries(), root) by {
            if x.index == id.index {
                assert(s2.node(x) == n);
            } else {
                assert(s.live(x));
                law_insert_then_lookup(s, n, x);
                assert(avoids(s.node(x).entries(), root));
                assert(s2.node(x) == s.node(x));
            }
        }
    }
}

/// Removing a node other than the root keeps the store tidy.
pub proof fn lemma_after_remove_tidy(s: StoreView, root: NodeId, x: NodeId)
    requires
        tidy(s, root),
        x != root,
    ensures
        tidy(s.after_remove(x).0, root),
{
    let s2 = s.after_remove(x).0;
    if s.live(x) {
        assert(x.index != root.index);
        assert forall|y: NodeId| s2.live(y) implies sound_entries(#[trigger] s2.node(y).entries(), root) by {
            assert(y.index != x.index);
            assert(s.live(y));
            assert(avoids(s.node(y).entries(), root));
            assert(s2.node(y) == s.node(y));
        }
    }
}

/// Adding a new empty node into a live directory keeps the store tidy
/// and well-formed.
pub proof fn lemma_add_node_tidy(s: StoreView, root: NodeId, pid: NodeId, name: Seq<char>, n: NodeView)
    requires
        s.wf(),
        tidy(s, root),
        s.live(pid),
        s.node(pid).is_dir(),
        n.entries().len() == 0,
    ensures
        tidy(add_node(s, pid, name, n).0, root),
        add_node(s, pid, name, n).0.wf(),
{
    let nn = NodeView { parent: Some(pid), ..n };
    let (si, r) = s.after_insert(nn);
    lemma_add_node_wf(s, pid, name, n);
    lemma_after_insert_tidy(s, root, nn);
    law_insert_then_lookup(s, nn, pid);
    if r is Ok {
        let id = r->Ok_0;
        let p = si.node(pid);
        assert(si.live(pid));
        assert(avoids(p.entries(), root));
        lemma_insert_sound(p.entries(), name, id, root);
        lemma_with_node_tidy(si, root, pid, p.with_entries(entries_insert(p.entries(), name, id)));
    }
}

/// Adding a node into a live directory keeps every live node live, of
/// the same kind.
proof fn lemma_add_node_keeps_live(s: StoreView, pid: NodeId, name: Seq<char>, n: NodeView, x: NodeId)
    requires
        s.wf(),
        s.live(pid),
        s.node(pid).is_dir(),
        s.live(x),
    ensures
        add_node(s, pid, name, n).0.live(x),
        add_node(s, pid, name, n).0.node(x).is_dir() == s.node(x).is_dir(),
        x != pid ==> add_node(s, pid, name, n).0.node(x) == s.node(x),
{
    let nn = NodeView { parent: Some(pid), ..n };
    law_insert_then_lookup(s, nn, pid);
    law_insert_then_lookup(s, nn, x);
    if x.index == pid.index {
        assert(x == pid);
    }
}

/// `create_dir` keeps the store tidy.
pub proof fn law_create_dir_keeps_tidy(s: StoreView, root: NodeId, names: Seq<Seq<char>>)
    requires
        s.wf(),
        tidy(s, root),
    ensures
        tidy(crate::model::create_dir(s, root, names).0, root),
        crate::model::create_dir(s, root, names).0.wf(),
{
    if names.len() > 0 {
        match find(s, root, names.drop_last()) {
            Ok((p, pid)) => if p.is_dir() {
                lemma_add_node_tidy(s, root, pid, names.last(), NodeView::new_dir(None));
            },
            Err(_) => {},
        }
    }
}

/// `create_dir_all` keeps the store tidy, whether it succeeds or not.
pub proof fn law_create_dir_all_keeps_tidy(s: StoreView, root: NodeId, names: Seq<Seq<char>>, k: nat)
    requires
        s.wf(),
        tidy(s, root),
    ensures
        tidy(crate::model::create_dir_all(s, root, names, k).0, root),
        crate::model::create_dir_all(s, root, names, k).0.wf(),
    decreases k,
{
    if k > 0 {
        law_create_dir_all_keeps_tidy(s, root, names, (k - 1) as nat);
        let (s1, r) = crate::model::create_dir_all(s, root, names, (k - 1) as nat);
        match r {
            Ok(cur) => match s1.lookup(cur) {
                Ok(n) => if n.is_dir() {
                    lemma_add_node_tidy(s1, root, cur, names[k - 1], NodeView::new_dir(None));
                },
                Err(_) => {},
            },
            Err(_) => {},
        }
    }
}

/// `write` keeps the store tidy, whether it succeeds or not.
pub proof fn law_write_keeps_tidy(s: StoreView, root: NodeId, names: Seq<Seq<char>>, data: Seq<u8>)
    requires
        s.wf(),
        tidy(s, root),
    ensures
        tidy(crate::model::write(s, root, names, data).0, root),
        crate::model::write(s, root, names, data).0.wf(),
{
    if names.len() > 0 {
        match find(s, root, names.drop_last()) {
            Ok((p, pid)) => if p.is_dir() {
                let n = NodeView::new_file(Seq::empty(), None);
                lemma_add_node_tidy(s, root, pid, names.last(), n);
                let (s1, t) = match child_of(p.entries(), names.last()) {
                    Some(c) => (s, Ok::<NodeId, FsError>(c)),
                    None => add_node(s, pid, names.last(), n),
                };
                match t {
                    Ok(tid) => match s1.lookup(tid) {
                        Ok(tn) => if tn.is_file() {
                            lemma_with_node_tidy(s1, root, tid, tn.with_data(data));
                            crate::store::lemma_with_node_wf(s1, tid.index as int, tn.with_data(data));
                        },
                        Err(_) => {},
                    },
                    Err(_) => {},
                }
            },
            Err(_) => {},
        }
    }
}

/// `remove_file` keeps the store tidy.
pub proof fn law_remove_file_keeps_tidy(s: StoreView, root: NodeId, names: Seq<Seq<char>>)
    requires
        tidy(s, root),
    ensures
        tidy(crate::model::remove_file(s, root, names).0, root),
{
    if names.len() > 0 {
        match find(s, root, names.drop_last()) {
            Ok((p, pid)) => if p.is_dir() {
                match find(s, root, names) {
                    Ok((t, tid)) => if t.is_file() {
                        assert(avoids(s.node(pid).entries(), root));
                        lemma_remove_sound(p.entries(), names.last(), root);
                        let s1 = s.with_node(pid.index as int, p.with_entries(entries_remove(p.entries(), names.last())));
                        lemma_with_node_tidy(s, root, pid, p.with_entries(entries_remove(p.entries(), names.last())));
                        lemma_after_remove_tidy(s1, root, tid);
                    },
                    Err(_) => {},
                }
            },
            Err(_) => {},
        }
    }
}

/// The nodes a walk for removal visits are never the root.
proof fn lemma_walk_avoids_root(s: StoreView, root: NodeId, to_visit: Seq<NodeId>, visited: Seq<NodeId>, fuel: nat)
    requires
        tidy(s, root),
        forall|i: int| 0 <= i < to_visit.len() ==> #[trigger] to_visit[i] != root,
        forall|i: int| 0 <= i < visited.len() ==> #[trigger] visited[i] != root,
    ensures
        crate::model::descendants_walk(s, to_visit, visited, fuel) matches Ok(v)
            ==> forall|i: int| 0 <= i < v.len() ==> #[trigger] v[i] != root,
    decreases fuel,
{
    if to_visit.len() > 0 && fuel > 0 {
        let cur = to_visit.last();
        let rest = to_visit.drop_last();
        let v2 = visited.push(cur);
        assert(cur == to_visit[to_visit.len() - 1]);
        assert forall|i: int| 0 <= i < v2.len() implies #[trigger] v2[i] != root by {
            if i < visited.len() {
                assert(v2[i] == visited[i]);
            }
        }
        match s.lookup(cur) {
            Err(_) => {
                lemma_walk_avoids_root(s, root, rest, v2, (fuel - 1) as nat);
            },
            Ok(n) => {
                assert(avoids(s.node(cur).entries(), root));
                let q = rest + child_ids(n);
                assert forall|i: int| 0 <= i < q.len() implies #[trigger] q[i] != root by {
                    if i < rest.len() {
                        assert(q[i] == to_visit[i]);
                    } else {
                        assert(q[i] == n.entries()[i - rest.len()].1);
                    }
                }
                lemma_walk_avoids_root(s, root, q, v2, (fuel - 1) as nat);
            },
        }
    }
}

/// Removing nodes other than the root, one by one, keeps the store tidy.
proof fn lemma_remove_each_keeps_tidy(s: StoreView, root: NodeId, ids: Seq<NodeId>)
    requires
        tidy(s, root),
        forall|i: int| 0 <= i < ids.len() ==> #[trigger] ids[i] != root,
    ensures
        tidy(crate::model::remove_each(s, ids).0, root),
    decreases ids.len(),
{
    if ids.len() > 0 {
        assert(ids.last() == ids[ids.len() - 1]);
        lemma_after_remove_tidy(s, root, ids.last());
        let s1 = s.after_remove(ids.last()).0;
        let d = ids.drop_last();
        assert forall|i: int| 0 <= i < d.len() implies #[trigger] d[i] != root by {
            assert(d[i] == ids[i]);
        }
        lemma_remove_each_keeps_tidy(s1, root, d);
    }
}

/// `remove_dir` (of a directory and everything below it) keeps the store
/// tidy.
pub proof fn law_remove_dir_keeps_tidy(s: StoreView, root: NodeId, names: Seq<Seq<char>>)
    requires
        tidy(s, root),
    ensures
        tidy(crate::model::remove_dir(s, root, names).0, root),
{
    if names.len() > 0 {
        match find(s, root, names.drop_last()) {
            Ok((p, pid)) => if p.is_dir() {
                match find(s, root, names) {
                    Ok((t, tid)) => if t.is_dir() {
                        assert(avoids(s.node(pid).entries(), root));
                        lemma_remove_sound(p.entries(), names.last(), root);
                        let p2 = p.with_entries(entries_remove(p.entries(), names.last()));
                        let s1 = s.with_node(pid.index as int, p2);
                        lemma_with_node_tidy(s, root, pid, p2);
                        lemma_resolve_not_root(s, root, names);
                        match s1.lookup(tid) {
                            Ok(n) => if n.is_dir() {
                                assert(avoids(s1.node(tid).entries(), root));
                                let q = child_ids(n);
                                assert forall|i: int| 0 <= i < q.len() implies #[trigger] q[i] != root by {
                                    assert(q[i] == n.entries()[i].1);
                                }
                                lemma_walk_avoids_root(s1, root, q, Seq::empty(), usize::MAX as nat);
                                match crate::model::descendants_walk(s1, q, Seq::empty(), usize::MAX as nat) {
                                    Ok(del) => lemma_remove_each_keeps_tidy(s1, root, del),
                                    Err(_) => {},
                                }
                            },
                            Err(_) => {},
                        }
                    },
                    Err(_) => {},
                }
            },
            Err(_) => {},
        }
    }
}

/// `remove_dir` of an empty directory keeps the store tidy.
pub proof fn law_remove_empty_dir_keeps_tidy(s: StoreView, root: NodeId, names: Seq<Seq<char>>)
    requires
        tidy(s, root),
    ensures
        tidy(crate::model::remove_empty_dir(s, root, names).0, root),
{
    law_remove_dir_keeps_tidy(s, root, names);
}

/// A node that a path of at least one name leads to is found in a live
/// directory, so the root holds at least one entry.
proof fn lemma_root_not_empty(s: StoreView, root: NodeId, names: Seq<Seq<char>>)
    requires
        names.len() > 0,
        resolve(s, root, names) is Ok,
    ensures
        s.lookup(root) matches Ok(n) && n.entries().len() > 0,
{
    crate::laws::lemma_resolve_steps(s, root, names, 0);
    assert(names.take(0) =~= Seq::<Seq<char>>::empty());
    let n = s.lookup(root)->Ok_0;
    let w = choose|i: int| first_named(n.entries(), names[0], i);
    assert(0 <= w < n.entries().len());
}

/// `rename_file` keeps the store tidy.
pub proof fn law_rename_file_keeps_tidy(s: StoreView, root: NodeId, from: Seq<Seq<char>>, to: Seq<Seq<char>>)
    requires
        s.wf(),
        tidy(s, root),
    ensures
        tidy(crate::model::rename_file(s, root, from, to).0, root),
{
    if from != to {
        match find(s, root, from) {
            Ok((fnode, fid)) => if fnode.is_file() {
                assert(fid != root);
                match find(s, root, to) {
                    Ok((tnode, tid)) => if tnode.is_file() {
                        let n2 = tnode.with_data(fnode.data());
                        lemma_with_node_tidy(s, root, tid, n2);
                        law_remove_file_keeps_tidy(s.with_node(tid.index as int, n2), root, from);
                    },
                    Err(e) => if from.len() > 0 && to.len() > 0 {
                        match find(s, root, from.drop_last()) {
                            Ok((fp, fpid)) => match find(s, root, to.drop_last()) {
                                Ok((tp, tpid)) => if fp.is_dir() && tp.is_dir() {
                                    let n = NodeView::new_file(fnode.data(), None);
                                    let (s1, r) = add_node(s, tpid, to.last(), n);
                                    lemma_add_node_tidy(s, root, tpid, to.last(), n);
                                    if r is Ok {
                                        lemma_add_node_keeps_live(s, tpid, to.last(), n, fpid);
                                        lemma_add_node_keeps_live(s, tpid, to.last(), n, fid);
                                        let fp1 = s1.node(fpid);
                                        assert(avoids(fp1.entries(), root));
                                        lemma_remove_sound(fp1.entries(), from.last(), root);
                                        let fp2 = fp1.with_entries(entries_remove(fp1.entries(), from.last()));
                                        lemma_with_node_tidy(s1, root, fpid, fp2);
                                        lemma_after_remove_tidy(s1.with_node(fpid.index as int, fp2), root, fid);
                                    }
                                },
                                Err(_) => {},
                            },
                            Err(_) => {},
                        }
                    },
                }
            },
            Err(_) => {},
        }
    }
}

/// `rename` keeps the store tidy.
#[verifier::rlimit(40)]
pub proof fn law_rename_keeps_tidy(
    s: StoreView,
    root: NodeId,
    from_path: Seq<char>,
    from: Seq<Seq<char>>,
    to_path: Seq<char>,
    to: Seq<Seq<char>>,
)
    requires
        s.wf(),
        tidy(s, root),
    ensures
        tidy(crate::model::rename(s, root, from_path, from, to_path, to).0, root),
{
    if from_path != to_path && from.len() > 0 {
        match find(s, root, from) {
            Ok((fnode, fid)) => if fnode.is_file() {
                law_rename_file_keeps_tidy(s, root, from, to);
            } else {
                lemma_resolve_not_root(s, root, from);
                lemma_root_not_empty(s, root, from);
                let (s1, t) = match find(s, root, to) {
                    Ok(found) => (s, Ok::<(NodeView, NodeId), FsError>(found)),
                    Err(e) => if !crate::model::is_not_found(e) {
                        (s, Err::<(NodeView, NodeId), FsError>(e))
                    } else if to.len() == 0 {
                        (s, Err::<(NodeView, NodeId), FsError>(FsError::NoFileName))
                    } else {
                        match find(s, root, to.drop_last()) {
                            Err(e2) => (s, Err::<(NodeView, NodeId), FsError>(e2)),
                            Ok((tp, tpid)) => if !tp.is_dir() {
                                (s, Err::<(NodeView, NodeId), FsError>(FsError::NotADirectory))
                            } else {
                                let (s2, r) = add_node(s, tpid, to.last(), NodeView::new_dir(None));
                                match r {
                                    Err(e3) => (s2, Err::<(NodeView, NodeId), FsError>(e3)),
                                    Ok(_) => (s2, find(s2, root, to)),
                                }
                            },
                        }
                    },
                };
                // The store the target is looked for in is tidy.
                match find(s, root, to) {
                    Ok(_) => {},
                    Err(e) => if crate::model::is_not_found(e) && to.len() > 0 {
                        match find(s, root, to.drop_last()) {
                            Ok((tp, tpid)) => if tp.is_dir() {
                                lemma_add_node_tidy(s, root, tpid, to.last(), NodeView::new_dir(None));
                            },
                            Err(_) => {},
                        }
                    },
                }
                assert(tidy(s1, root));
                match t {
                    Ok((tn, tid)) => if tn.is_dir() && tn.entries().len() == 0 {
                        if to.len() == 0 {
                            assert(tid == root);
                        } else {
                            lemma_resolve_not_root(s1, root, to);
                        }
                        assert(tid != root);
                        lemma_after_remove_tidy(s1, root, tid);
                        let s2 = s1.after_remove(tid).0;
                        match find(s2, root, from.drop_last()) {
                            Ok((fp, fpid)) => if fp.is_dir() {
                                assert(avoids(s2.node(fpid).entries(), root));
                                lemma_remove_sound(fp.entries(), from.last(), root);
                                let fp2 = fp.with_entries(entries_remove(fp.entries(), from.last()));
                                lemma_with_node_tidy(s2, root, fpid, fp2);
                                let s3 = s2.with_node(fpid.index as int, fp2);
                                if to.len() > 0 {
                                    match find(s3, root, to.drop_last()) {
                                        Ok((tp, tpid)) => if tp.is_dir() {
                                            assert(avoids(s3.node(tpid).entries(), root));
                                            lemma_insert_sound(tp.entries(), to.last(), fid, root);
                                            lemma_with_node_tidy(s3, root, tpid, tp.with_entries(entries_insert(tp.entries(), to.last(), fid)));
                                        },
                                        Err(_) => {},
                                    }
                                }
                            },
                            Err(_) => {},
                        }
                    },
                    Err(_) => {},
                }
            },
            Err(_) => {},
        }
    }
}

/// `set_permissions` keeps the store tidy.
pub proof fn law_set_permissions_keeps_tidy(s: StoreView, root: NodeId, names: Seq<Seq<char>>, perms: crate::vfs::Permissions)
    requires
        tidy(s, root),
    ensures
        tidy(crate::model::set_permissions(s, root, names, perms).0, root),
{
    match find(s, root, names) {
        Ok((n, id)) => {
            assert(avoids(s.node(id).entries(), root));
            lemma_with_node_tidy(s, root, id, n.with_permissions(crate::node::NodePermissions::Explicit(perms)));
        },
        Err(_) => {},
    }
}

/// The walk that resets permissions keeps the store tidy.
proof fn lemma_inherit_walk_keeps_tidy(s: StoreView, root: NodeId, target: NodeId, queue: Seq<NodeId>, fuel: nat)
    requires
        tidy(s, root),
    ensures
        tidy(crate::model::inherit_walk(s, target, queue, fuel).0, root),
    decreases fuel,
{
    if queue.len() > 0 && fuel > 0 {
        let nid = queue[0];
        let rest = queue.drop_first();
        match s.lookup(nid) {
            Err(_) => lemma_inherit_walk_keeps_tidy(s, root, target, rest, (fuel - 1) as nat),
            Ok(n) => {
                let q2 = rest + child_ids(n);
                if nid == target {
                    lemma_inherit_walk_keeps_tidy(s, root, target, q2, (fuel - 1) as nat);
                } else {
                    assert(avoids(s.node(nid).entries(), root));
                    let n2 = n.with_permissions(crate::node::NodePermissions::Inherited);
                    lemma_with_node_tidy(s, root, nid, n2);
                    lemma_inherit_walk_keeps_tidy(s.with_node(nid.index as int, n2), root, target, q2, (fuel - 1) as nat);
                }
            },
        }
    }
}

/// `set_permissions_recursive` keeps the store tidy, whether it
/// succeeds or not.
pub proof fn law_set_permissions_recursive_keeps_tidy(s: StoreView, root: NodeId, names: Seq<Seq<char>>, perms: crate::vfs::Permissions)
    requires
        tidy(s, root),
    ensures
        tidy(crate::model::set_permissions_recursive(s, root, names, perms).0, root),
{
    let t = if names.len() == 0 {
        match crate::model::effective_permissions(s, root) {
            Err(e) => Err(e),
            Ok(p) => if !p.spec_can_write() { Err(FsError::ReadOnlyDirectory) } else { Ok(root) },
        }
    } else {
        resolve(s, root, names)
    };
    match t {
        Ok(tid) => {
            lemma_inherit_walk_keeps_tidy(s, root, tid, seq![tid], usize::MAX as nat);
            let s1 = crate::model::inherit_walk(s, tid, seq![tid], usize::MAX as nat).0;
            match s1.lookup(tid) {
                Ok(tn) => {
                    assert(avoids(s1.node(tid).entries(), root));
                    lemma_with_node_tidy(s1, root, tid, tn.with_permissions(crate::node::NodePermissions::Explicit(perms)));
                },
                Err(_) => {},
            }
        },
        Err(_) => {},
    }
}

/// `wipe` keeps the store tidy.
pub proof fn law_wipe_keeps_tidy(s: StoreView, root: NodeId)
    requires
        s.wf(),
        tidy(s, root),
    ensures
        tidy(crate::model::wipe(s, root).0, root),
        crate::model::wipe(s, root).0.wf(),
{
    let c = s.after_clear(root);
    crate::store::lemma_after_clear_wf(s, root);
    assert(c.lookup(root) == s.lookup(root));
    assert forall|x: NodeId| c.live(x) implies sound_entries(#[trigger] c.node(x).entries(), root) by {
        assert(x.index == root.index);
        assert(x == root);
        assert(avoids(s.node(root).entries(), root));
    }
    assert(tidy(c, root));
    let n = c.node(root);
    lemma_with_node_tidy(c, root, root, n.with_entries(Seq::empty()));
    crate::store::lemma_with_node_wf(c, root.index as int, n.with_entries(Seq::empty()));
}

/// Giving a live node a permission setting keeps the store tidy and
/// well-formed.
proof fn lemma_finish_permissions_keeps_tidy(s: StoreView, root: NodeId, id: NodeId, p: crate::vfs::Permissions)
    requires
        s.wf(),
        tidy(s, root),
    ensures
        tidy(crate::model::finish_permissions(s, id, p).0, root),
        crate::model::finish_permissions(s, id, p).0.wf(),
{
    match s.lookup(id) {
        Ok(n) => {
            assert(avoids(s.node(id).entries(), root));
            let n2 = n.with_permissions(crate::node::NodePermissions::Explicit(p));
            lemma_with_node_tidy(s, root, id, n2);
            crate::store::lemma_with_node_wf(s, id.index as int, n2);
        },
        Err(_) => {},
    }
}

/// Adding a snapshot node keeps the store tidy, whether it succeeds or not.
pub(crate) proof fn lemma_apply_node_keeps_tidy(s: StoreView, root: NodeId, parent: NodeId, name: Seq<char>, node: crate::snapshot::VfsSnapshotNode, depth: int)
    requires
        s.wf(),
        tidy(s, root),
    ensures
        tidy(crate::model::apply_node(s, parent, name, node, depth).0, root),
        crate::model::apply_node(s, parent, name, node, depth).0.wf(),
    decreases node, 0int,
{
    if depth <= crate::model::max_snapshot_depth() {
        match s.lookup(parent) {
            Ok(p) => if p.is_dir() {
                match node {
                    crate::snapshot::VfsSnapshotNode::File { data, permissions } => {
                        let n = NodeView::new_file(data@, None);
                        lemma_add_node_tidy(s, root, parent, name, n);
                        let (s1, r) = add_node(s, parent, name, n);
                        if r is Ok {
                            lemma_finish_permissions_keeps_tidy(s1, root, r->Ok_0, permissions);
                        }
                    },
                    crate::snapshot::VfsSnapshotNode::Directory { children, permissions } => {
                        let n = NodeView::new_dir(None);
                        lemma_add_node_tidy(s, root, parent, name, n);
                        let (s1, r) = add_node(s, parent, name, n);
                        if r is Ok {
                            let id = r->Ok_0;
                            assert(decreases_to!(node => children));
                            assert(decreases_to!(children => children@));
                            lemma_apply_entries_keeps_tidy(s1, root, id, children@, children@.len(), depth + 1);
                            let s2 = crate::model::apply_entries(s1, id, children@, children@.len(), depth + 1).0;
                            lemma_finish_permissions_keeps_tidy(s2, root, id, permissions);
                        }
                    },
                }
            },
            Err(_) => {},
        }
    }
}

/// Adding snapshot entries keeps the store tidy, whether it succeeds or not.
proof fn lemma_apply_entries_keeps_tidy(
    s: StoreView,
    root: NodeId,
    parent: NodeId,
    entries: Seq<crate::snapshot::SnapshotEntry>,
    k: nat,
    depth: int,
)
    requires
        s.wf(),
        tidy(s, root),
    ensures
        tidy(crate::model::apply_entries(s, parent, entries, k, depth).0, root),
        crate::model::apply_entries(s, parent, entries, k, depth).0.wf(),
    decreases entries, k,
{
    if k > 0 && k <= entries.len() {
        lemma_apply_entries_keeps_tidy(s, root, parent, entries, (k - 1) as nat, depth);
        let (s1, r) = crate::model::apply_entries(s, parent, entries, (k - 1) as nat, depth);
        if r is Ok {
            let e = entries[k - 1];
            assert(decreases_to!(entries => e));
            assert(decreases_to!(e => e.node));
            lemma_apply_node_keeps_tidy(s1, root, parent, e.name@, e.node, depth);
        }
    }
}

/// `apply_from_snapshot` keeps the store tidy, whether it succeeds or not.
pub proof fn law_apply_snapshot_keeps_tidy(s: StoreView, root: NodeId, snapshot: crate::snapshot::VfsSnapshotNode)
    requires
        s.wf(),
        tidy(s, root),
    ensures
        tidy(crate::model::apply_snapshot(s, root, snapshot).0, root),
        crate::model::apply_snapshot(s, root, snapshot).0.wf(),
{
    match snapshot {
        crate::snapshot::VfsSnapshotNode::File { .. } => {},
        crate::snapshot::VfsSnapshotNode::Directory { children, permissions } => {
            law_wipe_keeps_tidy(s, root);
            let s1 = crate::model::wipe(s, root).0;
            lemma_apply_entries_keeps_tidy(s1, root, root, children@, children@.len(), 0);
            let s2 = crate::model::apply_entries(s1, root, children@, children@.len(), 0).0;
            lemma_finish_permissions_keeps_tidy(s2, root, root, permissions);
        },
    }
}

/// `open` keeps the store tidy, whether it succeeds or not.
pub proof fn law_open_keeps_tidy(s: StoreView, root: NodeId, names: Seq<Seq<char>>, o: crate::vfs::VfsOpenOptions)
    requires
        s.wf(),
        tidy(s, root),
    ensures
        tidy(crate::model::open(s, root, names, o).0, root),
        crate::model::open(s, root, names, o).0.wf(),
{
    if names.len() > 0 {
        match find(s, root, names.drop_last()) {
            Ok((p, pid)) => if p.is_dir() {
                lemma_add_node_tidy(s, root, pid, names.last(), NodeView::new_file(Seq::empty(), None));
            },
            Err(_) => {},
        }
    }
}

/// Storing new contents in a live file keeps the store tidy.
pub proof fn law_replace_file_keeps_tidy(s: StoreView, root: NodeId, id: NodeId, data: Seq<u8>)
    requires
        tidy(s, root),
        s.lookup(id) matches Ok(n) && n.is_file(),
    ensures
        tidy(s.with_node(id.index as int, s.node(id).with_data(data)), root),
{
    lemma_with_node_tidy(s, root, id, s.node(id).with_data(data));
}

} // verus!
