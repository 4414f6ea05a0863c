//! Properties that span several operations of the node store, the file
//! system and open files.

use vstd::prelude::*;
use crate::error::FsError;
use crate::model::{resolve, find, add_node, check, permissions_from, effective_permissions, grants, rw};
use crate::node::{Entries, NodeId, NodeView, NodePermissions, child_of, position_of, first_named, entries_insert, entries_remove, lemma_first_named_unique};
use crate::store::{StoreView, next_generation};
use crate::snapshot::{SnapshotEntry, VfsSnapshotNode};
use crate::vfs::Permissions;

verus! {

/// A node inserted into the store is found under the handle the insertion
/// returns, and every node already in the store stays where it was.
pub proof fn law_insert_then_lookup(s: StoreView, n: NodeView, other: NodeId)
    requires
        s.wf(),
    ensures
        s.after_insert(n).1 matches Ok(id) ==> s.after_insert(n).0.lookup(id) == Ok::<NodeView, FsError>(n),
        s.live(other) ==> s.after_insert(n).0.lookup(other) == s.lookup(other),
{
    if s.live(other) && s.free.len() > 0 {
        assert(s.slots[s.free[0] as int].node is None);
    }
}

/// Removing a node makes its handle stale: looking it up and removing it
/// again fail, while every node in another slot stays where it was.
pub proof fn law_remove_makes_stale(s: StoreView, id: NodeId, other: NodeId)
    requires
        s.wf(),
        s.live(id),
    ensures
        s.after_remove(id).1 == Ok::<(), FsError>(()),
        s.after_remove(id).0.lookup(id) == Err::<NodeView, FsError>(FsError::StaleNode),
        s.after_remove(id).0.after_remove(id).1 == Err::<(), FsError>(FsError::StaleNode),
        other.index != id.index ==> s.after_remove(id).0.lookup(other) == s.lookup(other),
{
}

/// With no other slot waiting to be recycled, the slot a removed node
/// leaves is the one the next insertion takes, in the next generation, so
/// the new handle differs from the stale one.
pub proof fn law_reuse_after_remove(s: StoreView, id: NodeId, n: NodeView)
    requires
        s.wf(),
        s.live(id),
        s.free.len() == 0,
    ensures
        s.after_remove(id).0.after_insert(n).1
            == Ok::<NodeId, FsError>(NodeId { index: id.index, generation: next_generation(id.generation) }),
        next_generation(id.generation) != id.generation,
{
}

/// Clearing the store around a live root keeps the root and leaves no
/// other handle live.
pub proof fn law_clear_keeps_only_root(s: StoreView, root: NodeId, other: NodeId)
    requires
        s.wf(),
        s.live(root),
    ensures
        s.after_clear(root).lookup(root) == s.lookup(root),
        other != root ==> !s.after_clear(root).live(other),
{
}

/// Some position of `e` carrying `x` makes a first such position exist.
pub(crate) proof fn lemma_first_named_exists(e: Entries, x: Seq<char>, j: int)
    requires
        0 <= j < e.len(),
        e[j].0 == x,
    ensures
        exists|i: int| first_named(e, x, i),
    decreases j,
{
    if exists|k: int| 0 <= k < j && e[k].0 == x {
        let k = choose|k: int| 0 <= k < j && e[k].0 == x;
        lemma_first_named_exists(e, x, k);
    } else {
        assert(first_named(e, x, j));
    }
}

/// Mapping a new name leaves the other names' nodes alone.
proof fn lemma_child_of_insert(e: Entries, x: Seq<char>, id: NodeId, y: Seq<char>)
    requires
        child_of(e, x) is None,
    ensures
        child_of(entries_insert(e, x, id), x) == Some(id),
        y != x ==> child_of(entries_insert(e, x, id), y) == child_of(e, y),
{
    let e2 = entries_insert(e, x, id);
    assert(position_of(e, x) is None);
    assert(e2 == e.push((x, id)));
    assert forall|j: int| 0 <= j < e.len() implies e[j].0 != x by {
        if e[j].0 == x {
            lemma_first_named_exists(e, x, j);
        }
    }
    assert(first_named(e2, x, e.len() as int));
    lemma_first_named_unique(e2, x, e.len() as int);
    if y != x {
        if exists|i: int| first_named(e, y, i) {
            let i = choose|i: int| first_named(e, y, i);
            lemma_first_named_unique(e, y, i);
            assert(first_named(e2, y, i));
            lemma_first_named_unique(e2, y, i);
        } else {
            if exists|i: int| first_named(e2, y, i) {
                let i = choose|i: int| first_named(e2, y, i);
                if i < e.len() {
                    assert(e2[i] == e[i]);
                    assert forall|j: int| 0 <= j < i implies e[j].0 != y by {
                        assert(e2[j] == e[j]);
                    }
                    assert(first_named(e, y, i));
                }
            }
        }
    }
}

/// Whether `s2` takes a step of a resolution from `id` by the entry
/// `name` as `s` does.
spec fn same_step(s: StoreView, s2: StoreView, id: NodeId, name: Seq<char>) -> bool {
    match s.lookup(id) {
        Err(_) => true,
        Ok(n) => s2.lookup(id) matches Ok(n2) && n2.is_dir() == n.is_dir() && child_of(n2.entries(), name) == child_of(n.entries(), name),
    }
}

/// What a successful resolution shows of each of its steps.
pub(crate) proof fn lemma_resolve_steps(s: StoreView, root: NodeId, names: Seq<Seq<char>>, k: int)
    requires
        resolve(s, root, names) is Ok,
        0 <= k < names.len(),
    ensures
        resolve(s, root, names.take(k)) is Ok,
        s.lookup(resolve(s, root, names.take(k))->Ok_0) is Ok,
        s.lookup(resolve(s, root, names.take(k))->Ok_0)->Ok_0.is_dir(),
        resolve(s, root, names.take(k + 1)) is Ok,
        child_of(s.lookup(resolve(s, root, names.take(k))->Ok_0)->Ok_0.entries(), names[k])
            == Some(resolve(s, root, names.take(k + 1))->Ok_0),
    decreases names.len(),
{
    if k == names.len() - 1 {
        assert(names.take(k) =~= names.drop_last());
        assert(names.take(k + 1) =~= names);
    } else {
        lemma_resolve_steps(s, root, names.drop_last(), k);
        assert(names.drop_last().take(k) =~= names.take(k));
        assert(names.drop_last().take(k + 1) =~= names.take(k + 1));
    }
}

/// A resolution that `s2` answers step by step as `s` does ends where it
/// ends in `s`.
proof fn lemma_resolve_agree(s: StoreView, s2: StoreView, root: NodeId, names: Seq<Seq<char>>)
    requires
        resolve(s, root, names) is Ok,
        forall|k: int| 0 <= k < names.len() ==> same_step(s, s2, #[trigger] resolve(s, root, names.take(k))->Ok_0, names[k]),
    ensures
        resolve(s2, root, names) == resolve(s, root, names),
    decreases names.len(),
{
    if names.len() > 0 {
        let d = names.drop_last();
        assert forall|k: int| 0 <= k < d.len() implies same_step(s, s2, #[trigger] resolve(s, root, d.take(k))->Ok_0, d[k]) by {
            assert(d.take(k) =~= names.take(k));
            assert(same_step(s, s2, resolve(s, root, names.take(k))->Ok_0, names[k]));
        }
        lemma_resolve_agree(s, s2, root, d);
        let k = names.len() - 1;
        assert(names.take(k) =~= d);
        assert(same_step(s, s2, resolve(s, root, names.take(k))->Ok_0, names[k]));
    }
}

/// Replacing a node by one of the same kind with the same entries leaves
/// every resolution as it was.
proof fn lemma_same_shape_keeps_resolve(s: StoreView, tid: NodeId, tn: NodeView, n2: NodeView, root: NodeId, names: Seq<Seq<char>>)
    requires
        s.lookup(tid) == Ok::<NodeView, FsError>(tn),
        n2.is_dir() == tn.is_dir(),
        n2.entries() == tn.entries(),
        resolve(s, root, names) is Ok,
    ensures
        resolve(s.with_node(tid.index as int, n2), root, names) == resolve(s, root, names),
{
    let s2 = s.with_node(tid.index as int, n2);
    assert forall|k: int| 0 <= k < names.len() implies same_step(s, s2, #[trigger] resolve(s, root, names.take(k))->Ok_0, names[k]) by {
        lemma_resolve_steps(s, root, names, k);
    }
    lemma_resolve_agree(s, s2, root, names);
}

/// Adding a node for a name that the directory `names.drop_last()` leads
/// to lacks makes the whole path lead to the new node.
proof fn lemma_add_node_resolves(s: StoreView, root: NodeId, names: Seq<Seq<char>>, pid: NodeId, p: NodeView, n: NodeView)
    requires
        s.wf(),
        names.len() > 0,
        find(s, root, names.drop_last()) == Ok::<(NodeView, NodeId), FsError>((p, pid)),
        p.is_dir(),
        child_of(p.entries(), names.last()) is None,
        add_node(s, pid, names.last(), n).1 is Ok,
    ensures
        resolve(add_node(s, pid, names.last(), n).0, root, names) == add_node(s, pid, names.last(), n).1,
        add_node(s, pid, names.last(), n).0.lookup(add_node(s, pid, names.last(), n).1->Ok_0)
            == Ok::<NodeView, FsError>(NodeView { parent: Some(pid), ..n }),
        resolve(add_node(s, pid, names.last(), n).0, root, names.drop_last()) == Ok::<NodeId, FsError>(pid),
        add_node(s, pid, names.last(), n).0.lookup(pid) == Ok::<NodeView, FsError>(
            p.with_entries(entries_insert(p.entries(), names.last(), add_node(s, pid, names.last(), n).1->Ok_0))),
{
    let d = names.drop_last();
    let last = names.last();
    let nn = NodeView { parent: Some(pid), ..n };
    let (si, r) = s.after_insert(nn);
    let tid = r->Ok_0;
    let s2 = add_node(s, pid, last, n).0;
    let e = p.entries();
    if s.free.len() > 0 {
        assert(s.slots[s.free[0] as int].node is None);
    }
    assert(si.lookup(pid) == s.lookup(pid));
    assert(si.node(pid) == p);
    assert(s2 == si.with_node(pid.index as int, p.with_entries(entries_insert(e, last, tid))));
    assert forall|k: int| 0 <= k < d.len() implies same_step(s, s2, #[trigger] resolve(s, root, d.take(k))->Ok_0, d[k]) by {
        lemma_resolve_steps(s, root, d, k);
        let c = resolve(s, root, d.take(k))->Ok_0;
        if c.index == pid.index {
            assert(c == pid);
            lemma_child_of_insert(e, last, tid, d[k]);
        }
    }
    lemma_resolve_agree(s, s2, root, d);
    lemma_child_of_insert(e, last, tid, last);
}

/// After a successful `write`, the path leads to a file holding exactly
/// the written bytes.
pub proof fn law_write_then_find(s: StoreView, root: NodeId, names: Seq<Seq<char>>, data: Seq<u8>)
    requires
        s.wf(),
        crate::model::write(s, root, names, data).1 == Ok::<(), FsError>(()),
    ensures
        find(crate::model::write(s, root, names, data).0, root, names) matches Ok((n, _)) && n.is_file() && n.data() == data,
{
    let last = names.last();
    let (p, pid) = find(s, root, names.drop_last())->Ok_0;
    match child_of(p.entries(), last) {
        Some(c) => {
            assert(resolve(s, root, names) == Ok::<NodeId, FsError>(c));
            let tn = s.lookup(c)->Ok_0;
            lemma_same_shape_keeps_resolve(s, c, tn, tn.with_data(data), root, names);
        },
        None => {
            let n = NodeView::new_file(Seq::empty(), None);
            lemma_add_node_resolves(s, root, names, pid, p, n);
            let (s1, t) = add_node(s, pid, last, n);
            let tid = t->Ok_0;
            let tn = s1.lookup(tid)->Ok_0;
            lemma_same_shape_keeps_resolve(s1, tid, tn, tn.with_data(data), root, names);
        },
    }
}

/// Whether every node live in `s` is still there in `s2`, with the same
/// permission setting and the same parent.
pub open spec fn keeps_settings(s: StoreView, s2: StoreView) -> bool {
    forall|x: NodeId| s.live(x) ==> (#[trigger] s2.lookup(x) matches Ok(n2)
        && n2.permissions == s.node(x).permissions && n2.parent == s.node(x).parent)
}

/// A walk up that succeeds finds the same permissions after a change that
/// keeps every node's setting and parent.
proof fn lemma_permissions_kept(s: StoreView, s2: StoreView, id: NodeId, acc: Permissions, fuel: nat)
    requires
        keeps_settings(s, s2),
        permissions_from(s, id, acc, fuel) is Ok,
    ensures
        permissions_from(s2, id, acc, fuel) == permissions_from(s, id, acc, fuel),
    decreases fuel,
{
    let n = s.lookup(id)->Ok_0;
    assert(s.live(id));
    assert(s2.lookup(id) is Ok);
    let acc2 = match n.permissions {
        NodePermissions::Explicit(v) => Permissions { bits: acc.bits & v.bits },
        NodePermissions::Inherited => acc,
    };
    match n.parent {
        None => {},
        Some(q) => {
            if fuel > 0 {
                lemma_permissions_kept(s, s2, q, acc2, (fuel - 1) as nat);
            }
        },
    }
}

/// Adding a node into a live directory keeps every node's setting and parent.
proof fn lemma_add_node_keeps_settings(s: StoreView, pid: NodeId, name: Seq<char>, n: NodeView)
    requires
        s.wf(),
        s.live(pid),
        add_node(s, pid, name, n).1 is Ok,
    ensures
        keeps_settings(s, add_node(s, pid, name, n).0),
{
    let nn = NodeView { parent: Some(pid), ..n };
    let s2 = add_node(s, pid, name, n).0;
    assert forall|x: NodeId| s.live(x) implies (#[trigger] s2.lookup(x) matches Ok(n2)
        && n2.permissions == s.node(x).permissions && n2.parent == s.node(x).parent) by {
        law_insert_then_lookup(s, nn, x);
        law_insert_then_lookup(s, nn, pid);
        if x.index == pid.index {
            assert(x == pid);
        }
    }
}

/// Creating a directory where one was just created fails: the name is taken.
pub proof fn law_create_dir_twice(s: StoreView, root: NodeId, names: Seq<Seq<char>>)
    requires
        s.wf(),
        crate::model::create_dir(s, root, names).1 == Ok::<(), FsError>(()),
    ensures
        crate::model::create_dir(crate::model::create_dir(s, root, names).0, root, names).1
            == Err::<(), FsError>(FsError::AlreadyExists),
{
    let (p, pid) = find(s, root, names.drop_last())->Ok_0;
    let n = NodeView::new_dir(None);
    lemma_add_node_resolves(s, root, names, pid, p, n);
    let (s1, r) = add_node(s, pid, names.last(), n);
    let tid = r->Ok_0;
    lemma_child_of_insert(p.entries(), names.last(), tid, names.last());
    lemma_add_node_keeps_settings(s, pid, names.last(), n);
    lemma_permissions_kept(s, s1, pid, crate::model::rw(), usize::MAX as nat);
    assert(s1.node(pid).ty() == s.node(pid).ty());
}

/// After a successful `create_dir`, the path leads to an empty directory.
pub proof fn law_create_dir_then_find(s: StoreView, root: NodeId, names: Seq<Seq<char>>)
    requires
        s.wf(),
        crate::model::create_dir(s, root, names).1 == Ok::<(), FsError>(()),
    ensures
        find(crate::model::create_dir(s, root, names).0, root, names) matches Ok((n, _)) && n.is_dir() && n.entries().len() == 0,
{
    let (p, pid) = find(s, root, names.drop_last())->Ok_0;
    lemma_add_node_resolves(s, root, names, pid, p, NodeView::new_dir(None));
}

/// After a successful `write`, reading the path gives back the written
/// bytes, unless the file's permissions refuse reading.
pub proof fn law_write_then_read(s: StoreView, root: NodeId, names: Seq<Seq<char>>, data: Seq<u8>)
    requires
        s.wf(),
        crate::model::write(s, root, names, data).1 == Ok::<(), FsError>(()),
    ensures
        ({
            let s1 = crate::model::write(s, root, names, data).0;
            &&& find(s1, root, names) is Ok
            &&& crate::model::read(s1, root, names) == match check(s1, find(s1, root, names)->Ok_0.1, false) {
                Ok(_) => Ok::<Seq<u8>, FsError>(data),
                Err(e) => Err(e),
            }
        }),
{
    law_write_then_find(s, root, names, data);
}

/// Whether no two entries carry the same name.
pub open spec fn distinct_names(e: Entries) -> bool {
    forall|i: int, j: int| 0 <= i < j < e.len() ==> #[trigger] e[i].0 != #[trigger] e[j].0
}

/// With distinct names, removing a name removes it for good and leaves the
/// other names' nodes alone.
proof fn lemma_child_of_remove(e: Entries, x: Seq<char>, y: Seq<char>)
    requires
        distinct_names(e),
        child_of(e, x) is Some,
    ensures
        child_of(entries_remove(e, x), x) is None,
        y != x ==> child_of(entries_remove(e, x), y) == child_of(e, y),
{
    let px = position_of(e, x)->Some_0;
    let pi = choose|i: int| first_named(e, x, i);
    assert(first_named(e, x, pi));
    lemma_first_named_unique(e, x, pi);
    let e2 = entries_remove(e, x);
    assert(e2 == e.remove(px));
    if exists|i: int| first_named(e2, x, i) {
        let i = choose|i: int| first_named(e2, x, i);
        if i < px {
            assert(e2[i] == e[i]);
        } else {
            assert(e2[i] == e[i + 1]);
        }
    }
    if y != x {
        if exists|i: int| first_named(e, y, i) {
            let i = choose|i: int| first_named(e, y, i);
            lemma_first_named_unique(e, y, i);
            let j = if i < px { i } else { i - 1 };
            assert(e2[j] == e[i]);
            assert forall|k: int| 0 <= k < j implies e2[k].0 != y by {
                if k < px {
                    assert(e2[k] == e[k]);
                } else {
                    assert(e2[k] == e[k + 1]);
                }
            }
            assert(first_named(e2, y, j));
            lemma_first_named_unique(e2, y, j);
        } else {
            if exists|i: int| first_named(e2, y, i) {
                let i = choose|i: int| first_named(e2, y, i);
                let j = if i < px { i } else { i + 1 };
                assert(e2[i] == e[j]);
                lemma_first_named_exists(e, y, j);
            }
        }
    }
}

/// After a successful `remove_file` from a directory whose names are
/// distinct, the path leads nowhere.
pub proof fn law_remove_file_then_not_found(s: StoreView, root: NodeId, names: Seq<Seq<char>>)
    requires
        s.wf(),
        crate::model::remove_file(s, root, names).1 == Ok::<(), FsError>(()),
        find(s, root, names.drop_last()) matches Ok((p, _)) ==> distinct_names(p.entries()),
    ensures
        find(crate::model::remove_file(s, root, names).0, root, names) == Err::<(NodeView, NodeId), FsError>(FsError::PathNotFound),
{
    let d = names.drop_last();
    let last = names.last();
    let (p, pid) = find(s, root, d)->Ok_0;
    let (t, tid) = find(s, root, names)->Ok_0;
    let e = p.entries();
    let e2 = entries_remove(e, last);
    let s1 = s.with_node(pid.index as int, p.with_entries(e2));
    let s2 = crate::model::remove_file(s, root, names).0;
    assert(s2 == s1.after_remove(tid).0);
    assert(names.take(names.len() - 1) =~= d);
    assert(child_of(e, last) == Some(tid));
    assert forall|k: int| 0 <= k < d.len() implies same_step(s, s2, #[trigger] resolve(s, root, d.take(k))->Ok_0, d[k]) by {
        lemma_resolve_steps(s, root, d, k);
        let c = resolve(s, root, d.take(k))->Ok_0;
        if c.index == pid.index {
            assert(c == pid);
            if d[k] == last {
                if k + 1 < d.len() {
                    lemma_resolve_steps(s, root, d, k + 1);
                } else {
                    assert(d.take(k + 1) =~= d);
                }
            }
            lemma_child_of_remove(e, last, d[k]);
        }
    }
    lemma_resolve_agree(s, s2, root, d);
    lemma_child_of_remove(e, last, last);
}

/// After a successful `remove_dir` of an empty directory from a parent
/// whose names are distinct, the path leads nowhere: the parent no longer
/// holds an entry under the directory's name.
pub proof fn law_remove_empty_dir_then_not_found(s: StoreView, root: NodeId, names: Seq<Seq<char>>)
    requires
        s.wf(),
        crate::model::remove_empty_dir(s, root, names).1 == Ok::<(), FsError>(()),
        find(s, root, names.drop_last()) matches Ok((p, _)) ==> distinct_names(p.entries()),
    ensures
        find(crate::model::remove_empty_dir(s, root, names).0, root, names) == Err::<(NodeView, NodeId), FsError>(FsError::PathNotFound),
        child_of(crate::model::remove_empty_dir(s, root, names).0.node(resolve(s, root, names.drop_last())->Ok_0).entries(), names.last()) is None,
{
    let d = names.drop_last();
    let last = names.last();
    let (t, tid) = find(s, root, names)->Ok_0;
    let (p, pid) = find(s, root, d)->Ok_0;
    let e = p.entries();
    let e2 = entries_remove(e, last);
    let s1 = s.with_node(pid.index as int, p.with_entries(e2));
    assert(names.take(names.len() - 1) =~= d);
    assert(child_of(e, last) == Some(tid));
    // The directory is empty, so it is not its own parent, and nothing
    // below it is freed: the store is the parent's unlinking alone.
    assert(t.entries().len() == 0);
    if tid == pid {
        let i = choose|i: int| first_named(e, last, i);
        assert(e[i].0 == last);
    }
    assert(tid != pid);
    if tid.index == pid.index {
        lemma_same_slot(s, tid, pid);
    }
    assert(s1.lookup(tid) == Ok::<NodeView, FsError>(t));
    assert(crate::model::remove_dir(s, root, names).0 == crate::model::remove_all_descendants(s1, tid).0);
    assert(crate::model::child_ids(t) =~= Seq::<NodeId>::empty());
    let s2 = crate::model::remove_empty_dir(s, root, names).0;
    assert(s2 == s1);
    assert forall|k: int| 0 <= k < d.len() implies same_step(s, s1, #[trigger] resolve(s, root, d.take(k))->Ok_0, d[k]) by {
        lemma_resolve_steps(s, root, d, k);
        let c = resolve(s, root, d.take(k))->Ok_0;
        if c.index == pid.index {
            assert(c == pid);
            if d[k] == last {
                if k + 1 < d.len() {
                    lemma_resolve_steps(s, root, d, k + 1);
                } else {
                    assert(d.take(k + 1) =~= d);
                }
            }
            lemma_child_of_remove(e, last, d[k]);
        }
    }
    lemma_resolve_agree(s, s1, root, d);
    lemma_child_of_remove(e, last, last);
}

/// Whether `x` is reached from `from` by `k` steps down directory entries.
pub open spec fn reached(s: StoreView, from: NodeId, x: NodeId, k: nat) -> bool
    decreases k,
{
    if k == 0 {
        x == from
    } else {
        &&& s.lookup(from) is Ok
        &&& exists|j: int| 0 <= j < s.node(from).entries().len() && reached(s, #[trigger] s.node(from).entries()[j].1, x, (k - 1) as nat)
    }
}

/// Whether `s2` keeps every live node of `s` live, with its entries.
spec fn keeps_shape(s: StoreView, s2: StoreView) -> bool {
    forall|id: NodeId| #[trigger] s.lookup(id) is Ok ==> s2.lookup(id) is Ok && s2.node(id).entries() == s.node(id).entries()
}

/// What is reached in a store is reached in any store of the same shape.
proof fn lemma_reached_kept(s: StoreView, s2: StoreView, from: NodeId, x: NodeId, k: nat)
    requires
        keeps_shape(s, s2),
        reached(s, from, x, k),
    ensures
        reached(s2, from, x, k),
    decreases k,
{
    if k > 0 {
        let e = s.node(from).entries();
        let j = choose|j: int| 0 <= j < e.len() && reached(s, #[trigger] e[j].1, x, (k - 1) as nat);
        lemma_reached_kept(s, s2, e[j].1, x, (k - 1) as nat);
        assert(s.lookup(from) is Ok);
        assert(s2.node(from).entries()[j].1 == e[j].1);
    }
}

/// The walk of `set_permissions_recursive`, when it succeeds, keeps every
/// live node with its entries, keeps every inherited setting, and leaves
/// every live node reached from a queued handle, other than the target,
/// inheriting.
proof fn lemma_inherit_walk_resets(s: StoreView, target: NodeId, queue: Seq<NodeId>, fuel: nat)
    requires
        crate::model::inherit_walk(s, target, queue, fuel).1 is Ok,
    ensures
        keeps_shape(s, crate::model::inherit_walk(s, target, queue, fuel).0),
        forall|id: NodeId| #[trigger] s.lookup(id) is Ok && s.node(id).permissions == NodePermissions::Inherited
            ==> crate::model::inherit_walk(s, target, queue, fuel).0.node(id).permissions == NodePermissions::Inherited,
        forall|i: int, x: NodeId, k: nat| 0 <= i < queue.len() && #[trigger] reached(s, queue[i], x, k) && s.live(x) && x != target
            ==> crate::model::inherit_walk(s, target, queue, fuel).0.node(x).permissions == NodePermissions::Inherited,
    decreases fuel,
{
    let s2 = crate::model::inherit_walk(s, target, queue, fuel).0;
    if queue.len() > 0 {
        let nid = queue[0];
        let rest = queue.drop_first();
        match s.lookup(nid) {
            Err(_) => {
                lemma_inherit_walk_resets(s, target, rest, (fuel - 1) as nat);
                assert forall|i: int, x: NodeId, k: nat| 0 <= i < queue.len() && #[trigger] reached(s, queue[i], x, k) && s.live(x) && x != target
                    implies s2.node(x).permissions == NodePermissions::Inherited by {
                    if i > 0 {
                        assert(queue[i] == rest[i - 1]);
                        assert(reached(s, rest[i - 1], x, k));
                    }
                }
            },
            Ok(n) => {
                let q2 = rest + crate::model::child_ids(n);
                let s1 = if nid == target { s } else { s.with_node(nid.index as int, n.with_permissions(NodePermissions::Inherited)) };
                assert(crate::model::check(s, nid, true) is Ok || nid == target);
                assert(s2 == crate::model::inherit_walk(s1, target, q2, (fuel - 1) as nat).0);
                lemma_inherit_walk_resets(s1, target, q2, (fuel - 1) as nat);
                assert forall|id: NodeId| #[trigger] s.lookup(id) is Ok implies s1.lookup(id) is Ok && s1.node(id).entries() == s.node(id).entries()
                    && (s.node(id).permissions == NodePermissions::Inherited ==> s1.node(id).permissions == NodePermissions::Inherited) by {
                    if id.index == nid.index {
                        lemma_same_slot(s, id, nid);
                    }
                }
                assert(keeps_shape(s, s1));
                assert forall|id: NodeId| #[trigger] s.lookup(id) is Ok implies s2.lookup(id) is Ok && s2.node(id).entries() == s.node(id).entries() by {
                    assert(s1.lookup(id) is Ok);
                }
                assert forall|i: int, x: NodeId, k: nat| 0 <= i < queue.len() && #[trigger] reached(s, queue[i], x, k) && s.live(x) && x != target
                    implies s2.node(x).permissions == NodePermissions::Inherited by {
                    assert(s1.lookup(x) is Ok);
                    if i > 0 {
                        assert(queue[i] == q2[i - 1]);
                        lemma_reached_kept(s, s1, q2[i - 1], x, k);
                    } else if k == 0 {
                        assert(x == nid);
                        assert(s1.node(nid).permissions == NodePermissions::Inherited);
                    } else {
                        let e = n.entries();
                        let j = choose|j: int| 0 <= j < e.len() && reached(s, #[trigger] e[j].1, x, (k - 1) as nat);
                        assert(q2[rest.len() + j] == e[j].1);
                        lemma_reached_kept(s, s1, e[j].1, x, (k - 1) as nat);
                        assert(reached(s1, q2[rest.len() + j], x, (k - 1) as nat));
                    }
                }
            },
        }
    }
}

/// After a successful `set_permissions_recursive`, the target holds the
/// new setting and every live node reached from it down directory entries,
/// at any depth, inherits again: its effective permissions come from the
/// target and the settings above it.
pub proof fn law_set_permissions_recursive_resets_descendants(
    s: StoreView,
    root: NodeId,
    names: Seq<Seq<char>>,
    perms: Permissions,
    x: NodeId,
    k: nat,
)
    requires
        crate::model::set_permissions_recursive(s, root, names, perms).1 is Ok,
    ensures
        ({
            let t = if names.len() == 0 { root } else { resolve(s, root, names)->Ok_0 };
            let s2 = crate::model::set_permissions_recursive(s, root, names, perms).0;
            &&& s2.lookup(t) is Ok
            &&& s2.node(t).permissions == NodePermissions::Explicit(perms)
            &&& (reached(s, t, x, k) && s.live(x) && x != t ==> s2.lookup(x) is Ok && s2.node(x).permissions == NodePermissions::Inherited)
        }),
{
    let t = if names.len() == 0 { root } else { resolve(s, root, names)->Ok_0 };
    let w = crate::model::inherit_walk(s, t, seq![t], usize::MAX as nat);
    lemma_inherit_walk_resets(s, t, seq![t], usize::MAX as nat);
    let s1 = w.0;
    let tn = s1.lookup(t)->Ok_0;
    let s2 = crate::model::set_permissions_recursive(s, root, names, perms).0;
    assert(s2 == s1.with_node(t.index as int, tn.with_permissions(NodePermissions::Explicit(perms))));
    if reached(s, t, x, k) && s.live(x) && x != t {
        assert(seq![t][0] == t);
        assert(reached(s, seq![t][0], x, k));
        assert(s1.lookup(x) is Ok);
        if x.index == t.index {
            lemma_same_slot(s1, x, t);
        }
    }
}

/// After wiping, the root is an empty directory and no other handle is
/// live.
pub proof fn law_wipe_leaves_empty_root(s: StoreView, root: NodeId, other: NodeId)
    requires
        s.wf(),
        s.live(root),
        crate::model::wipe(s, root).1 == Ok::<(), FsError>(()),
    ensures
        crate::model::wipe(s, root).0.lookup(root) matches Ok(n) && n.is_dir() && n.entries().len() == 0,
        other != root ==> !crate::model::wipe(s, root).0.live(other),
{
}

/// Storing new contents into the file a path leads to (as flushing an
/// open file does) keeps the path leading to that file, which now holds
/// the new contents.
pub proof fn law_flush_then_find(s: StoreView, root: NodeId, names: Seq<Seq<char>>, data: Seq<u8>)
    requires
        find(s, root, names) matches Ok((n, _)) && n.is_file(),
    ensures
        ({
            let (n, id) = find(s, root, names)->Ok_0;
            find(s.with_node(id.index as int, n.with_data(data)), root, names)
                == Ok::<(NodeView, NodeId), FsError>((n.with_data(data), id))
        }),
{
    let (n, id) = find(s, root, names)->Ok_0;
    lemma_same_shape_keeps_resolve(s, id, n, n.with_data(data), root, names);
}

/// Reading back, at the position a write started, as many bytes as were
/// written gives the written bytes.
pub proof fn law_cursor_write_then_read(data: Seq<u8>, pos: int, buf: Seq<u8>)
    requires
        0 <= pos,
    ensures
        crate::handle::cursor_read(crate::handle::cursor_write(data, pos, buf), pos, buf.len() as int) == buf,
{
    let w = crate::handle::cursor_write(data, pos, buf);
    assert(crate::handle::cursor_read(w, pos, buf.len() as int) =~= buf);
}

/// The permissions a walk up from a node finds never exceed the ones it
/// started with.
proof fn lemma_permissions_within(s: StoreView, id: NodeId, acc: Permissions, fuel: nat)
    requires
        permissions_from(s, id, acc, fuel) is Ok,
    ensures
        acc.spec_contains(permissions_from(s, id, acc, fuel)->Ok_0),
    decreases fuel,
{
    let n = s.lookup(id)->Ok_0;
    let acc2 = match n.permissions {
        NodePermissions::Explicit(v) => Permissions { bits: acc.bits & v.bits },
        NodePermissions::Inherited => acc,
    };
    let a = acc.bits;
    let b = acc2.bits;
    match n.permissions {
        NodePermissions::Explicit(v) => {
            let vb = v.bits;
            assert(a & (a & vb) == (a & vb)) by (bit_vector);
        },
        NodePermissions::Inherited => {
            assert(a & a == a) by (bit_vector);
        },
    }
    match n.parent {
        None => {},
        Some(q) => {
            lemma_permissions_within(s, q, acc2, (fuel - 1) as nat);
            let c = permissions_from(s, q, acc2, (fuel - 1) as nat)->Ok_0.bits;
            assert((a & b) == b && (b & c) == c ==> (a & c) == c) by (bit_vector);
        },
    }
}

/// A node never grants more than its own explicit permission setting: what
/// the setting refuses, the node refuses.
pub proof fn law_effective_within_setting(s: StoreView, id: NodeId, v: Permissions, write: bool)
    requires
        s.lookup(id) matches Ok(n) && n.permissions == NodePermissions::Explicit(v),
    ensures
        effective_permissions(s, id) matches Ok(p) ==> v.spec_contains(p) && (grants(p, write) ==> grants(v, write)),
{
    if effective_permissions(s, id) is Ok {
        let n = s.lookup(id)->Ok_0;
        let r = rw().bits;
        let vb = v.bits;
        let b = r & vb;
        let acc2 = Permissions { bits: b };
        let p = effective_permissions(s, id)->Ok_0.bits;
        assert(vb & (r & vb) == (r & vb)) by (bit_vector);
        match n.parent {
            None => {},
            Some(q) => {
                lemma_permissions_within(s, q, acc2, (usize::MAX - 1) as nat);
                assert((vb & b) == b && (b & p) == p ==> (vb & p) == p) by (bit_vector);
            },
        }
        assert((vb & p) == p && (p & 2u16) == 2u16 ==> (vb & 2u16) == 2u16) by (bit_vector);
        assert((vb & p) == p && (p & 1u16) == 1u16 ==> (vb & 1u16) == 1u16) by (bit_vector);
    }
}

/// Walking up with fewer permissions in hand succeeds alike and finds no more.
proof fn lemma_walk_monotone(s: StoreView, id: NodeId, a: Permissions, b: Permissions, fuel: nat)
    requires
        permissions_from(s, id, a, fuel) is Ok,
        a.spec_contains(b),
    ensures
        permissions_from(s, id, b, fuel) is Ok,
        permissions_from(s, id, a, fuel)->Ok_0.spec_contains(permissions_from(s, id, b, fuel)->Ok_0),
    decreases fuel,
{
    let n = s.lookup(id)->Ok_0;
    let ab = a.bits;
    let bb = b.bits;
    let (a2, b2) = match n.permissions {
        NodePermissions::Explicit(v) => {
            let vb = v.bits;
            assert((ab & bb) == bb ==> ((ab & vb) & (bb & vb)) == (bb & vb)) by (bit_vector);
            (Permissions { bits: ab & vb }, Permissions { bits: bb & vb })
        },
        NodePermissions::Inherited => (a, b),
    };
    match n.parent {
        None => {},
        Some(q) => {
            lemma_walk_monotone(s, q, a2, b2, (fuel - 1) as nat);
        },
    }
}

/// A walk up that succeeds finds the same with more steps allowed.
proof fn lemma_walk_more_fuel(s: StoreView, id: NodeId, a: Permissions, fuel: nat)
    requires
        permissions_from(s, id, a, fuel) is Ok,
    ensures
        permissions_from(s, id, a, fuel + 1) == permissions_from(s, id, a, fuel),
    decreases fuel,
{
    let n = s.lookup(id)->Ok_0;
    let a2 = match n.permissions {
        NodePermissions::Explicit(v) => Permissions { bits: a.bits & v.bits },
        NodePermissions::Inherited => a,
    };
    match n.parent {
        None => {},
        Some(q) => {
            lemma_walk_more_fuel(s, q, a2, (fuel - 1) as nat);
        },
    }
}

/// A directory's restrictions reach everything below it: a node's
/// effective permissions never exceed those of the directory holding it.
pub proof fn law_effective_within_parent(s: StoreView, c: NodeId)
    requires
        s.lookup(c) matches Ok(n) && n.parent is Some,
        effective_permissions(s, c) is Ok,
    ensures
        ({
            let p = s.node(c).parent->Some_0;
            &&& effective_permissions(s, p) is Ok
            &&& effective_permissions(s, p)->Ok_0.spec_contains(effective_permissions(s, c)->Ok_0)
        }),
{
    let n = s.lookup(c)->Ok_0;
    let p = n.parent->Some_0;
    let r = rw();
    let rb = r.bits;
    let acc2 = match n.permissions {
        NodePermissions::Explicit(v) => {
            let vb = v.bits;
            assert((rb & (rb & vb)) == (rb & vb)) by (bit_vector);
            Permissions { bits: rb & vb }
        },
        NodePermissions::Inherited => {
            assert((rb & rb) == rb) by (bit_vector);
            r
        },
    };
    let f = (usize::MAX - 1) as nat;
    assert(permissions_from(s, p, acc2, f) is Ok);
    lemma_walk_more_fuel(s, p, acc2, f);
    assert(permissions_from(s, p, acc2, f + 1) is Ok);
    assert(f + 1 == usize::MAX as nat);
    // The walk's success does not depend on what it carries.
    lemma_walk_ok_any(s, p, acc2, r, f + 1);
    lemma_walk_monotone(s, p, r, acc2, f + 1);
}

/// Whether a walk up succeeds does not depend on the permissions it carries.
proof fn lemma_walk_ok_any(s: StoreView, id: NodeId, a: Permissions, b: Permissions, fuel: nat)
    requires
        permissions_from(s, id, a, fuel) is Ok,
    ensures
        permissions_from(s, id, b, fuel) is Ok,
    decreases fuel,
{
    let n = s.lookup(id)->Ok_0;
    let (a2, b2) = match n.permissions {
        NodePermissions::Explicit(v) => (Permissions { bits: a.bits & v.bits }, Permissions { bits: b.bits & v.bits }),
        NodePermissions::Inherited => (a, b),
    };
    match n.parent {
        None => {},
        Some(q) => {
            lemma_walk_ok_any(s, q, a2, b2, (fuel - 1) as nat);
        },
    }
}

/// After a successful `set_permissions`, the metadata of the path never
/// shows more than the permissions that were set.
pub proof fn law_set_permissions_bounds_metadata(s: StoreView, root: NodeId, names: Seq<Seq<char>>, perms: Permissions)
    requires
        crate::model::set_permissions(s, root, names, perms).1 == Ok::<(), FsError>(()),
    ensures
        crate::model::metadata(crate::model::set_permissions(s, root, names, perms).0, root, names) matches Ok(m)
            ==> perms.spec_contains(m.mode),
{
    let (n, id) = find(s, root, names)->Ok_0;
    let n2 = n.with_permissions(NodePermissions::Explicit(perms));
    let s1 = s.with_node(id.index as int, n2);
    lemma_same_shape_keeps_resolve(s, id, n, n2, root, names);
    law_effective_within_setting(s1, id, perms, false);
}

/// A setting that refuses reading makes reading the node fail: after a
/// successful `set_permissions` without the read bit, `read` of the path
/// is refused, for a file with `FileAccessDenied` once its permissions
/// resolve.
pub proof fn law_unreadable_refuses_read(s: StoreView, root: NodeId, names: Seq<Seq<char>>, perms: Permissions)
    requires
        crate::model::set_permissions(s, root, names, perms).1 == Ok::<(), FsError>(()),
        !perms.spec_can_read(),
    ensures
        ({
            let s1 = crate::model::set_permissions(s, root, names, perms).0;
            &&& crate::model::read(s1, root, names) is Err
            &&& (find(s1, root, names) matches Ok((n, id))
                && n.is_file() && effective_permissions(s1, id) is Ok)
                ==> crate::model::read(s1, root, names) == Err::<Seq<u8>, FsError>(FsError::FileAccessDenied)
        }),
{
    let (n, id) = find(s, root, names)->Ok_0;
    let n2 = n.with_permissions(NodePermissions::Explicit(perms));
    let s1 = s.with_node(id.index as int, n2);
    lemma_same_shape_keeps_resolve(s, id, n, n2, root, names);
    law_effective_within_setting(s1, id, perms, false);
}

/// A setting that refuses writing makes writing the file fail: after a
/// successful `set_permissions` without the write bit, `write` to the path
/// is refused.
pub proof fn law_unwritable_refuses_write(s: StoreView, root: NodeId, names: Seq<Seq<char>>, perms: Permissions, data: Seq<u8>)
    requires
        crate::model::set_permissions(s, root, names, perms).1 == Ok::<(), FsError>(()),
        !perms.spec_can_write(),
    ensures
        crate::model::write(crate::model::set_permissions(s, root, names, perms).0, root, names, data).1 is Err,
{
    let (n, id) = find(s, root, names)->Ok_0;
    let n2 = n.with_permissions(NodePermissions::Explicit(perms));
    let s1 = s.with_node(id.index as int, n2);
    lemma_same_shape_keeps_resolve(s, id, n, n2, root, names);
    law_effective_within_setting(s1, id, perms, true);
    if names.len() > 0 {
        let d = names.drop_last();
        assert(resolve(s, root, d) is Ok);
        lemma_same_shape_keeps_resolve(s, id, n, n2, root, d);
    }
}

/// A checksum's hexadecimal form has two digits per byte, each a
/// lowercase hexadecimal digit.
pub proof fn law_hex_encoding_shape(bytes: Seq<u8>)
    ensures
        crate::checksum::hex_of(bytes).len() == 2 * bytes.len(),
        forall|i: int| 0 <= i < crate::checksum::hex_of(bytes).len() ==>
            ('0' <= #[trigger] crate::checksum::hex_of(bytes)[i] <= '9') || ('a' <= crate::checksum::hex_of(bytes)[i] <= 'f'),
    decreases bytes.len(),
{
    if bytes.len() > 0 {
        law_hex_encoding_shape(bytes.drop_last());
        let prev = crate::checksum::hex_of(bytes.drop_last());
        let b = bytes.last() as int;
        let tail = seq![crate::checksum::hex_digit(b / 16), crate::checksum::hex_digit(b % 16)];
        assert(crate::checksum::hex_of(bytes) == prev + tail);
        assert forall|i: int| 0 <= i < crate::checksum::hex_of(bytes).len() implies
            ('0' <= #[trigger] crate::checksum::hex_of(bytes)[i] <= '9') || ('a' <= crate::checksum::hex_of(bytes)[i] <= 'f') by {
            if i >= prev.len() {
                assert(0 <= b / 16 < 16 && 0 <= b % 16 < 16);
            }
        }
    }
}

/// Inserting into a well-formed store keeps it well-formed.
pub(crate) proof fn lemma_after_insert_wf(s: StoreView, n: NodeView)
    requires
        s.wf(),
        s.slots.len() <= usize::MAX,
    ensures
        s.after_insert(n).0.wf(),
        s.after_insert(n).0.slots.len() <= usize::MAX,
{
    let a = s.after_insert(n).0;
    if s.free.len() > 0 {
        let index = s.free[0];
        assert forall|k: int| 0 <= k < a.free.len() implies a.slots[#[trigger] a.free[k] as int].node is None by {
            assert(a.free[k] == s.free[k + 1]);
            assert(s.free[0] != s.free[k + 1]);
        }
        assert forall|i: int| 0 <= i < a.slots.len() && a.slots[i].node is None implies #[trigger] a.free.contains(i as usize) by {
            assert(i != index as int);
            assert(s.slots[i].node is None);
            assert(s.free.contains(i as usize));
            let k = choose|k: int| 0 <= k < s.free.len() && s.free[k] == i as usize;
            assert(k != 0);
            assert(a.free[k - 1] == i as usize);
        }
        assert forall|k1: int, k2: int| 0 <= k1 < k2 < a.free.len() implies a.free[k1] != a.free[k2] by {
            assert(a.free[k1] == s.free[k1 + 1] && a.free[k2] == s.free[k2 + 1]);
        }
    } else if s.slots.len() < usize::MAX {
        assert forall|k: int| 0 <= k < a.free.len() implies a.slots[#[trigger] a.free[k] as int].node is None by {
            assert(s.free[k] < s.slots.len());
        }
        assert forall|i: int| 0 <= i < a.slots.len() && a.slots[i].node is None implies #[trigger] a.free.contains(i as usize) by {
            assert(i < s.slots.len());
            assert(s.slots[i].node is None);
        }
    }
}

/// Adding a node into a live directory keeps the store well-formed.
pub(crate) proof fn lemma_add_node_wf(s: StoreView, pid: NodeId, name: Seq<char>, n: NodeView)
    requires
        s.wf(),
        s.slots.len() <= usize::MAX,
        s.live(pid),
    ensures
        add_node(s, pid, name, n).0.wf(),
        add_node(s, pid, name, n).0.slots.len() <= usize::MAX,
{
    let nn = NodeView { parent: Some(pid), ..n };
    let (si, r) = s.after_insert(nn);
    lemma_after_insert_wf(s, nn);
    law_insert_then_lookup(s, nn, pid);
    if r is Ok {
        crate::store::lemma_with_node_wf(si, pid.index as int, si.node(pid).with_entries(entries_insert(si.node(pid).entries(), name, r->Ok_0)));
    }
}

/// What the first `k` steps of `create_dir_all` leave: a well-formed store
/// in which the first `k` names lead to the directory reached.
proof fn lemma_create_dir_all_prefix(s: StoreView, root: NodeId, names: Seq<Seq<char>>, k: nat)
    requires
        s.wf(),
        s.slots.len() <= usize::MAX,
        k <= names.len(),
        crate::model::create_dir_all(s, root, names, k).1 is Ok,
    ensures
        crate::model::create_dir_all(s, root, names, k).0.wf(),
        crate::model::create_dir_all(s, root, names, k).0.slots.len() <= usize::MAX,
        resolve(crate::model::create_dir_all(s, root, names, k).0, root, names.take(k as int))
            == crate::model::create_dir_all(s, root, names, k).1,
    decreases k,
{
    if k == 0 {
        assert(names.take(0) =~= Seq::<Seq<char>>::empty());
    } else {
        let (s1, r) = crate::model::create_dir_all(s, root, names, (k - 1) as nat);
        lemma_create_dir_all_prefix(s, root, names, (k - 1) as nat);
        let cur = r->Ok_0;
        let name = names[k - 1];
        let n = s1.lookup(cur)->Ok_0;
        let t = names.take(k as int);
        assert(t.drop_last() =~= names.take(k - 1));
        assert(t.last() == name);
        match child_of(n.entries(), name) {
            Some(c) => {},
            None => {
                lemma_add_node_resolves(s1, root, t, cur, n, NodeView::new_dir(None));
                lemma_add_node_wf(s1, cur, name, NodeView::new_dir(None));
            },
        }
    }
}

/// After a successful `create_dir_all`, the path leads to a node, which is
/// a directory unless it was there before; every directory on the way
/// exists.
pub proof fn law_create_dir_all_then_resolve(s: StoreView, root: NodeId, names: Seq<Seq<char>>)
    requires
        s.wf(),
        s.slots.len() <= usize::MAX,
        crate::model::create_dir_all(s, root, names, names.len()).1 is Ok,
    ensures
        resolve(crate::model::create_dir_all(s, root, names, names.len()).0, root, names) is Ok,
        forall|k: int| 0 <= k < names.len() ==>
            (#[trigger] resolve(crate::model::create_dir_all(s, root, names, names.len()).0, root, names.take(k)) is Ok),
{
    lemma_create_dir_all_prefix(s, root, names, names.len());
    assert(names.take(names.len() as int) =~= names);
    let s2 = crate::model::create_dir_all(s, root, names, names.len()).0;
    assert forall|k: int| 0 <= k < names.len() implies (#[trigger] resolve(s2, root, names.take(k)) is Ok) by {
        lemma_resolve_steps(s2, root, names, k);
    }
}

/// The names of entries, in order.
pub open spec fn entry_names(e: Entries) -> Seq<Seq<char>> {
    e.map_values(|p: (Seq<char>, NodeId)| p.0)
}

/// The names after mapping `x`: unchanged when `x` is among them, else
/// with `x` added at the end.
pub(crate) open spec fn names_after_insert(ns: Seq<Seq<char>>, x: Seq<char>) -> Seq<Seq<char>> {
    if ns.contains(x) { ns } else { ns.push(x) }
}

/// The names after mapping the names of the first `k` snapshot entries in turn.
pub(crate) open spec fn names_after_entries(ns: Seq<Seq<char>>, entries: Seq<SnapshotEntry>, k: nat) -> Seq<Seq<char>>
    decreases k,
{
    if k == 0 || k > entries.len() {
        ns
    } else {
        names_after_insert(names_after_entries(ns, entries, (k - 1) as nat), entries[k - 1].name@)
    }
}

pub(crate) proof fn lemma_entry_names_insert(e: Entries, x: Seq<char>, id: NodeId)
    ensures
        entry_names(entries_insert(e, x, id)) == names_after_insert(entry_names(e), x),
{
    match position_of(e, x) {
        Some(i) => {
            let w = choose|w: int| first_named(e, x, w);
            assert(first_named(e, x, w));
            lemma_first_named_unique(e, x, w);
            assert(entry_names(e)[i] == x);
            assert(entry_names(e).contains(x));
            assert(entry_names(e.update(i, (x, id))) =~= entry_names(e));
        },
        None => {
            if entry_names(e).contains(x) {
                let j = choose|j: int| 0 <= j < entry_names(e).len() && entry_names(e)[j] == x;
                lemma_first_named_exists(e, x, j);
            }
            assert(entry_names(e.push((x, id))) =~= entry_names(e).push(x));
        },
    }
}

/// Whether `s2` keeps the generation of every slot of `s`, and every node
/// live in `s` outside the slot of `parent`.
pub(crate) open spec fn keeps(s: StoreView, s2: StoreView, parent: NodeId) -> bool {
    &&& s2.slots.len() >= s.slots.len()
    &&& forall|j: int| 0 <= j < s.slots.len() ==> #[trigger] s2.slots[j].generation == s.slots[j].generation
    &&& forall|x: NodeId| s.live(x) && x.index != parent.index ==> #[trigger] s2.lookup(x) == s.lookup(x)
}

/// Applying a snapshot node below `parent` keeps the store well-formed,
/// keeps every other node, and maps the name in `parent`.
pub(crate) proof fn lemma_apply_node_frame(s: StoreView, parent: NodeId, name: Seq<char>, node: VfsSnapshotNode, depth: int)
    requires
        s.wf(),
        s.slots.len() <= usize::MAX,
        s.live(parent),
        crate::model::apply_node(s, parent, name, node, depth).1 is Ok,
    ensures
        ({
            let s2 = crate::model::apply_node(s, parent, name, node, depth).0;
            &&& s2.wf()
            &&& s2.slots.len() <= usize::MAX
            &&& keeps(s, s2, parent)
            &&& exists|id: NodeId| s2.lookup(parent)
                == Ok::<NodeView, FsError>(s.node(parent).with_entries(entries_insert(s.node(parent).entries(), name, id)))
        }),
    decreases node, 0int,
{
    let p = s.node(parent);
    let n = match node {
        VfsSnapshotNode::File { data, permissions } => NodeView::new_file(data@, None),
        VfsSnapshotNode::Directory { children, permissions } => NodeView::new_dir(None),
    };
    let perms = match node {
        VfsSnapshotNode::File { data, permissions } => permissions,
        VfsSnapshotNode::Directory { children, permissions } => permissions,
    };
    let nn = NodeView { parent: Some(parent), ..n };
    let (si, r) = s.after_insert(nn);
    let (s1, r1) = add_node(s, parent, name, n);
    let id = r1->Ok_0;
    lemma_add_node_wf(s, parent, name, n);
    lemma_after_insert_wf(s, nn);
    law_insert_then_lookup(s, nn, parent);
    if s.free.len() > 0 {
        assert(s.slots[s.free[0] as int].node is None);
    }
    assert(si.lookup(id) == Ok::<NodeView, FsError>(nn));
    assert(s1.lookup(parent) == Ok::<NodeView, FsError>(p.with_entries(entries_insert(p.entries(), name, id))));
    assert(keeps(s, s1, parent)) by {
        assert forall|x: NodeId| s.live(x) && x.index != parent.index implies #[trigger] s1.lookup(x) == s.lookup(x) by {
            law_insert_then_lookup(s, nn, x);
        }
    }
    assert(s1.lookup(id) == Ok::<NodeView, FsError>(nn));
    let s2 = match node {
        VfsSnapshotNode::File { .. } => s1,
        VfsSnapshotNode::Directory { children, .. } => crate::model::apply_entries(s1, id, children@, children@.len(), depth + 1).0,
    };
    match node {
        VfsSnapshotNode::File { .. } => {},
        VfsSnapshotNode::Directory { children, permissions } => {
            let cs = children;
            assert(decreases_to!(node => cs));
            assert(decreases_to!(cs => cs@));
            lemma_apply_entries_frame(s1, id, cs@, cs@.len(), depth + 1);
            assert forall|x: NodeId| s.live(x) && x.index != parent.index implies #[trigger] s2.lookup(x) == s.lookup(x) by {
                assert(s1.lookup(x) == s.lookup(x));
                assert(x.index != id.index);
            }
            assert(s2.lookup(parent) == s1.lookup(parent));
        },
    }
    let s3 = crate::model::apply_node(s, parent, name, node, depth).0;
    let nid = s2.lookup(id)->Ok_0;
    assert(s3 == s2.with_node(id.index as int, nid.with_permissions(NodePermissions::Explicit(perms))));
    crate::store::lemma_with_node_wf(s2, id.index as int, nid.with_permissions(NodePermissions::Explicit(perms)));
    assert(keeps(s, s3, parent)) by {
        assert forall|x: NodeId| s.live(x) && x.index != parent.index implies #[trigger] s3.lookup(x) == s.lookup(x) by {
            assert(s2.lookup(x) == s.lookup(x));
            assert(x.index != id.index);
        }
    }
    assert(s3.lookup(parent) == Ok::<NodeView, FsError>(p.with_entries(entries_insert(p.entries(), name, id))));
}

/// Applying the first `k` snapshot entries below `parent` keeps the store
/// well-formed, keeps every other node, and maps their names in `parent`.
pub(crate) proof fn lemma_apply_entries_frame(s: StoreView, parent: NodeId, entries: Seq<SnapshotEntry>, k: nat, depth: int)
    requires
        s.wf(),
        s.slots.len() <= usize::MAX,
        s.live(parent),
        s.node(parent).is_dir(),
        crate::model::apply_entries(s, parent, entries, k, depth).1 is Ok,
    ensures
        ({
            let s2 = crate::model::apply_entries(s, parent, entries, k, depth).0;
            &&& s2.wf()
            &&& s2.slots.len() <= usize::MAX
            &&& keeps(s, s2, parent)
            &&& s2.lookup(parent) is Ok
            &&& s2.node(parent) == s.node(parent).with_entries(s2.node(parent).entries())
            &&& entry_names(s2.node(parent).entries()) == names_after_entries(entry_names(s.node(parent).entries()), entries, k)
        }),
    decreases entries, k,
{
    if k == 0 || k > entries.len() {
        assert(s.node(parent).with_entries(s.node(parent).entries()) == s.node(parent));
    } else {
        let (s1, r) = crate::model::apply_entries(s, parent, entries, (k - 1) as nat, depth);
        lemma_apply_entries_frame(s, parent, entries, (k - 1) as nat, depth);
        let e = entries[k - 1];
        assert(decreases_to!(entries => e));
        assert(decreases_to!(e => e.node));
        lemma_apply_node_frame(s1, parent, e.name@, e.node, depth);
        let s2 = crate::model::apply_entries(s, parent, entries, k, depth).0;
        let id = choose|id: NodeId| s2.lookup(parent)
            == Ok::<NodeView, FsError>(s1.node(parent).with_entries(entries_insert(s1.node(parent).entries(), e.name@, id)));
        lemma_entry_names_insert(s1.node(parent).entries(), e.name@, id);
        assert forall|x: NodeId| s.live(x) && x.index != parent.index implies #[trigger] s2.lookup(x) == s.lookup(x) by {
            assert(s1.lookup(x) == s.lookup(x));
        }
        assert forall|j: int| 0 <= j < s.slots.len() implies #[trigger] s2.slots[j].generation == s.slots[j].generation by {
            assert(s1.slots[j].generation == s.slots[j].generation);
        }
    }
}

/// With distinct names, mapping them in turn into no names gives them in order.
proof fn lemma_names_after_distinct_entries(entries: Seq<SnapshotEntry>, k: nat)
    requires
        k <= entries.len(),
        crate::snapshot::distinct_names(entries),
    ensures
        names_after_entries(Seq::empty(), entries, k) == entries.take(k as int).map_values(|c: SnapshotEntry| c.name@),
    decreases k,
{
    if k > 0 {
        lemma_names_after_distinct_entries(entries, (k - 1) as nat);
        let prev = entries.take(k - 1).map_values(|c: SnapshotEntry| c.name@);
        let x = entries[k - 1].name@;
        if prev.contains(x) {
            let j = choose|j: int| 0 <= j < prev.len() && prev[j] == x;
            assert(entries[j].name@ != entries[k - 1].name@);
        }
        assert(entries.take(k as int).map_values(|c: SnapshotEntry| c.name@) =~= prev.push(x));
    }
}

/// Applying a snapshot replaces the contents of the file system: afterwards
/// the root holds exactly the snapshot's top-level entries, in order, with
/// the snapshot's permission setting, and no node that was there before
/// but the root is left.
pub proof fn law_apply_snapshot_replaces_contents(s: StoreView, root: NodeId, snapshot: VfsSnapshotNode, x: NodeId)
    requires
        s.wf(),
        s.slots.len() <= usize::MAX,
        crate::model::apply_snapshot(s, root, snapshot).1 == Ok::<(), FsError>(()),
        snapshot matches VfsSnapshotNode::Directory { children, .. } ==> crate::snapshot::distinct_names(children@),
    ensures
        ({
            let s2 = crate::model::apply_snapshot(s, root, snapshot).0;
            &&& snapshot matches VfsSnapshotNode::Directory { children, permissions }
            &&& s2.lookup(root) matches Ok(n)
            &&& n.is_dir()
            &&& n.permissions == NodePermissions::Explicit(permissions)
            &&& entry_names(n.entries()) == children@.map_values(|c: SnapshotEntry| c.name@)
            &&& (s.live(x) && x != root ==> !s2.live(x))
        }),
{
    match snapshot {
        VfsSnapshotNode::File { .. } => {},
        VfsSnapshotNode::Directory { children, permissions } => {
            let c = s.after_clear(root);
            crate::store::lemma_after_clear_wf(s, root);
            let n0 = c.lookup(root)->Ok_0;
            let s1 = crate::model::wipe(s, root).0;
            assert(s1 == c.with_node(root.index as int, n0.with_entries(Seq::empty())));
            crate::store::lemma_with_node_wf(c, root.index as int, n0.with_entries(Seq::empty()));
            assert(s1.node(root).entries() =~= Seq::<(Seq<char>, NodeId)>::empty());
            let k = children@.len();
            lemma_apply_entries_frame(s1, root, children@, k, 0);
            let s2 = crate::model::apply_entries(s1, root, children@, k, 0).0;
            assert(entry_names(s1.node(root).entries()) =~= Seq::<Seq<char>>::empty());
            lemma_names_after_distinct_entries(children@, k);
            assert(children@.take(k as int) =~= children@);
            let n2 = s2.lookup(root)->Ok_0;
            let s3 = crate::model::apply_snapshot(s, root, snapshot).0;
            assert(s3 == s2.with_node(root.index as int, n2.with_permissions(NodePermissions::Explicit(permissions))));
            if s.live(x) && x != root {
                assert(x.index != root.index);
                assert(s1.slots[x.index as int].generation == next_generation(x.generation));
                assert(s2.slots[x.index as int].generation == s1.slots[x.index as int].generation);
            }
        },
    }
}

/// Removing a name leaves the nodes of the other names alone.
proof fn lemma_child_of_remove_other(e: Entries, x: Seq<char>, y: Seq<char>)
    requires
        y != x,
    ensures
        child_of(entries_remove(e, x), y) == child_of(e, y),
{
    let e2 = entries_remove(e, x);
    if exists|i: int| first_named(e, x, i) {
        let px = choose|i: int| first_named(e, x, i);
        lemma_first_named_unique(e, x, px);
        assert(e2 == e.remove(px));
        if exists|i: int| first_named(e, y, i) {
            let i = choose|i: int| first_named(e, y, i);
            lemma_first_named_unique(e, y, i);
            let j = if i < px { i } else { i - 1 };
            assert(e2[j] == e[i]);
            assert forall|k: int| 0 <= k < j implies e2[k].0 != y by {
                if k < px {
                    assert(e2[k] == e[k]);
                } else {
                    assert(e2[k] == e[k + 1]);
                }
            }
            assert(first_named(e2, y, j));
            lemma_first_named_unique(e2, y, j);
        } else {
            if exists|i: int| first_named(e2, y, i) {
                let i = choose|i: int| first_named(e2, y, i);
                let j = if i < px { i } else { i + 1 };
                assert(e2[i] == e[j]);
                lemma_first_named_exists(e, y, j);
            }
        }
    }
}

/// Two live handles to the same slot are the same handle.
proof fn lemma_same_slot(s: StoreView, a: NodeId, b: NodeId)
    requires
        s.live(a),
        s.live(b),
        a.index == b.index,
    ensures
        a == b,
{
}

/// Adding a node for a name its directory lacks leaves every resolution
/// that succeeded where it was.
proof fn lemma_add_node_keeps_resolve(
    s: StoreView,
    root: NodeId,
    d: Seq<Seq<char>>,
    last: Seq<char>,
    pid: NodeId,
    p: NodeView,
    n: NodeView,
    other: Seq<Seq<char>>,
)
    requires
        s.wf(),
        find(s, root, d) == Ok::<(NodeView, NodeId), FsError>((p, pid)),
        p.is_dir(),
        child_of(p.entries(), last) is None,
        add_node(s, pid, last, n).1 is Ok,
        resolve(s, root, other) is Ok,
    ensures
        resolve(add_node(s, pid, last, n).0, root, other) == resolve(s, root, other),
{
    let nn = NodeView { parent: Some(pid), ..n };
    let (si, r) = s.after_insert(nn);
    let tid = r->Ok_0;
    let s2 = add_node(s, pid, last, n).0;
    let e = p.entries();
    law_insert_then_lookup(s, nn, pid);
    assert(s2 == si.with_node(pid.index as int, p.with_entries(entries_insert(e, last, tid))));
    assert forall|k: int| 0 <= k < other.len() implies same_step(s, s2, #[trigger] resolve(s, root, other.take(k))->Ok_0, other[k]) by {
        lemma_resolve_steps(s, root, other, k);
        let c = resolve(s, root, other.take(k))->Ok_0;
        law_insert_then_lookup(s, nn, c);
        if c.index == pid.index {
            lemma_same_slot(s, c, pid);
            lemma_child_of_insert(e, last, tid, other[k]);
        }
    }
    lemma_resolve_agree(s, s2, root, other);
}

/// Unlinking the file `from` from its directory and freeing its node
/// leaves every other path that leads to a live node where it was.
proof fn lemma_unlink_keeps_resolve(
    s1: StoreView,
    root: NodeId,
    from: Seq<Seq<char>>,
    fp: NodeView,
    fpid: NodeId,
    fid: NodeId,
    to: Seq<Seq<char>>,
)
    requires
        from.len() > 0,
        find(s1, root, from.drop_last()) == Ok::<(NodeView, NodeId), FsError>((fp, fpid)),
        fp.is_dir(),
        resolve(s1, root, from) == Ok::<NodeId, FsError>(fid),
        s1.lookup(fid) matches Ok(f) && f.is_file(),
        resolve(s1, root, to) matches Ok(t) && t != fid && s1.live(t),
    ensures
        ({
            let s2 = s1.with_node(fpid.index as int, fp.with_entries(entries_remove(fp.entries(), from.last())));
            let s3 = s2.after_remove(fid).0;
            let t = resolve(s1, root, to)->Ok_0;
            &&& resolve(s3, root, to) == resolve(s1, root, to)
            &&& (s1.node(t).is_file() ==> s3.lookup(t) == s1.lookup(t))
        }),
{
    let x = from.last();
    let e1 = fp.entries();
    let s2 = s1.with_node(fpid.index as int, fp.with_entries(entries_remove(e1, x)));
    let s3 = s2.after_remove(fid).0;
    let t = resolve(s1, root, to)->Ok_0;
    assert(from.drop_last().len() < from.len());
    assert(child_of(e1, x) == Some(fid));
    assert(fid.index != fpid.index);
    assert(s2.lookup(fid) == s1.lookup(fid));
    assert forall|k: int| 0 <= k < to.len() implies same_step(s1, s3, #[trigger] resolve(s1, root, to.take(k))->Ok_0, to[k]) by {
        lemma_resolve_steps(s1, root, to, k);
        let c = resolve(s1, root, to.take(k))->Ok_0;
        if c.index == fid.index {
            lemma_same_slot(s1, c, fid);
        }
        if c.index == fpid.index {
            lemma_same_slot(s1, c, fpid);
            if to[k] == x {
                let c2 = resolve(s1, root, to.take(k + 1))->Ok_0;
                assert(c2 == fid);
                if k + 1 < to.len() {
                    lemma_resolve_steps(s1, root, to, k + 1);
                } else {
                    assert(to.take(k + 1) =~= to);
                }
            } else {
                lemma_child_of_remove_other(e1, x, to[k]);
            }
        }
    }
    lemma_resolve_agree(s1, s3, root, to);
    if s1.node(t).is_file() {
        if t.index == fid.index {
            lemma_same_slot(s1, t, fid);
        }
        if t.index == fpid.index {
            lemma_same_slot(s1, t, fpid);
        }
    }
}

/// What a successful `rename_file` between two different paths does: in
/// a store `s1` where `to` leads to a file holding `from`'s contents (its
/// own node refilled, or a new one), it unlinks `from` from its directory
/// and frees `from`'s node.
proof fn lemma_rename_file_unlinks(s: StoreView, root: NodeId, from: Seq<Seq<char>>, to: Seq<Seq<char>>)
    -> (r: (StoreView, NodeView, NodeId, NodeId))
    requires
        s.wf(),
        crate::model::rename_file(s, root, from, to).1 == Ok::<(), FsError>(()),
        from != to,
        resolve(s, root, to) matches Ok(t) ==> s.live(t) && resolve(s, root, from) != Ok::<NodeId, FsError>(t),
    ensures
        ({
            let (s1, fp, fpid, fid) = r;
            let fdata = find(s, root, from)->Ok_0.0.data();
            &&& from.len() > 0
            &&& find(s1, root, from.drop_last()) == Ok::<(NodeView, NodeId), FsError>((fp, fpid))
            &&& fp.is_dir()
            &&& resolve(s1, root, from) == Ok::<NodeId, FsError>(fid)
            &&& s1.lookup(fid) matches Ok(f) && f.is_file()
            &&& resolve(s1, root, to) matches Ok(t) && t != fid && s1.live(t)
                && s1.node(t).is_file() && s1.node(t).data() == fdata
            &&& crate::model::rename_file(s, root, from, to).0
                == s1.with_node(fpid.index as int, fp.with_entries(entries_remove(fp.entries(), from.last()))).after_remove(fid).0
            &&& (find(s, root, from.drop_last()) matches Ok((p, _)) && distinct_names(p.entries())) ==> distinct_names(fp.entries())
        }),
{
    let (fnode, fid) = find(s, root, from)->Ok_0;
    let fdata = fnode.data();
    assert(from.len() > 0) by {
        if from.len() == 0 {
            assert(fid == root);
        }
    }
    let d = from.drop_last();
    assert(resolve(s, root, d) is Ok);
    match find(s, root, to) {
        Ok((tnode, tid)) => {
            let s1 = s.with_node(tid.index as int, tnode.with_data(fdata));
            lemma_same_shape_keeps_resolve(s, tid, tnode, tnode.with_data(fdata), root, from);
            lemma_same_shape_keeps_resolve(s, tid, tnode, tnode.with_data(fdata), root, to);
            lemma_same_shape_keeps_resolve(s, tid, tnode, tnode.with_data(fdata), root, d);
            if fid.index == tid.index {
                lemma_same_slot(s, fid, tid);
            }
            let (fp, fpid) = find(s, root, d)->Ok_0;
            if fpid.index == tid.index {
                lemma_same_slot(s, fpid, tid);
            }
            assert(s1.lookup(fid) == s.lookup(fid));
            assert(find(s1, root, d) == Ok::<(NodeView, NodeId), FsError>((fp, fpid)));
            (s1, fp, fpid, fid)
        },
        Err(e) => {
            let (fp, fpid) = find(s, root, d)->Ok_0;
            let (tp, tpid) = find(s, root, to.drop_last())->Ok_0;
            let n = NodeView::new_file(fdata, None);
            assert(child_of(tp.entries(), to.last()) is None);
            lemma_add_node_resolves(s, root, to, tpid, tp, n);
            let (s1, r) = add_node(s, tpid, to.last(), n);
            let tid2 = r->Ok_0;
            lemma_add_node_keeps_resolve(s, root, to.drop_last(), to.last(), tpid, tp, n, from);
            lemma_add_node_keeps_resolve(s, root, to.drop_last(), to.last(), tpid, tp, n, d);
            let nn = NodeView { parent: Some(tpid), ..n };
            law_insert_then_lookup(s, nn, fid);
            law_insert_then_lookup(s, nn, fpid);
            if s.free.len() > 0 {
                assert(s.slots[s.free[0] as int].node is None);
            }
            assert(tid2 != fid);
            if fid.index == tpid.index {
                lemma_same_slot(s, fid, tpid);
            }
            assert(s1.lookup(fid) == s.lookup(fid));
            let fp1 = s1.node(fpid);
            if fpid.index == tpid.index {
                lemma_same_slot(s, fpid, tpid);
                let e = tp.entries();
                lemma_child_of_insert(e, to.last(), tid2, to.last());
                assert(position_of(e, to.last()) is None);
                assert forall|j: int| 0 <= j < e.len() implies e[j].0 != to.last() by {
                    if e[j].0 == to.last() {
                        lemma_first_named_exists(e, to.last(), j);
                    }
                }
                assert(fp1.entries() == e.push((to.last(), tid2)));
            } else {
                assert(fp1 == fp);
            }
            assert(find(s1, root, d) == Ok::<(NodeView, NodeId), FsError>((fp1, fpid)));
            (s1, fp1, fpid, fid)
        },
    }
}

/// A successful `rename_file` moves the contents: afterwards `to` leads to
/// a file holding what `from` held, when `to` is no dangling entry and
/// does not lead to `from`'s own node by another way (renaming a path to
/// itself succeeds without looking, so there the file must exist).
pub proof fn law_rename_file_moves_contents(s: StoreView, root: NodeId, from: Seq<Seq<char>>, to: Seq<Seq<char>>)
    requires
        s.wf(),
        crate::model::rename_file(s, root, from, to).1 == Ok::<(), FsError>(()),
        resolve(s, root, to) matches Ok(t) ==> s.live(t) && resolve(s, root, from) != Ok::<NodeId, FsError>(t),
        from == to ==> (find(s, root, from) matches Ok((f, _)) && f.is_file()),
    ensures
        find(crate::model::rename_file(s, root, from, to).0, root, to) matches Ok((n, _))
            && n.is_file() && n.data() == find(s, root, from)->Ok_0.0.data(),
{
    if from != to {
        let (s1, fp, fpid, fid) = lemma_rename_file_unlinks(s, root, from, to);
        lemma_unlink_keeps_resolve(s1, root, from, fp, fpid, fid, to);
    }
}

/// After a successful `rename_file` between two different paths, `from`
/// leads nowhere, when its directory's names are distinct (and, as for
/// the move itself, `to` is no dangling entry and no other way to
/// `from`'s node).
pub proof fn law_rename_file_removes_source(s: StoreView, root: NodeId, from: Seq<Seq<char>>, to: Seq<Seq<char>>)
    requires
        s.wf(),
        crate::model::rename_file(s, root, from, to).1 == Ok::<(), FsError>(()),
        from != to,
        resolve(s, root, to) matches Ok(t) ==> s.live(t) && resolve(s, root, from) != Ok::<NodeId, FsError>(t),
        find(s, root, from.drop_last()) matches Ok((p, _)) ==> distinct_names(p.entries()),
    ensures
        find(crate::model::rename_file(s, root, from, to).0, root, from) == Err::<(NodeView, NodeId), FsError>(FsError::PathNotFound),
{
    let (s1, fp, fpid, fid) = lemma_rename_file_unlinks(s, root, from, to);
    let d = from.drop_last();
    lemma_unlink_keeps_resolve(s1, root, from, fp, fpid, fid, d);
    let x = from.last();
    let e1 = fp.entries();
    let s2 = s1.with_node(fpid.index as int, fp.with_entries(entries_remove(e1, x)));
    let s3 = crate::model::rename_file(s, root, from, to).0;
    assert(child_of(e1, x) == Some(fid));
    assert(fid.index != fpid.index);
    assert(s3.lookup(fpid) == s2.lookup(fpid));
    lemma_child_of_remove(e1, x, x);
    assert(from.take(from.len() - 1) =~= d);
}

} // verus!
