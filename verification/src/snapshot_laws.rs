//! Snapshots round trip: applying a snapshot and then taking one gives the
//! snapshot back, when its permission settings nest, no directory in it
//! holds a name twice and it is not nested too deeply. Its entries may come
//! in any order: the snapshot taken lists them sorted by name, and views a
//! directory as a map from names.

use vstd::prelude::*;
use crate::error::FsError;
use crate::model::{find, resolve, snapshot_of, snapshot_entries, permissions_from, effective_permissions, rw, add_node, apply_node, apply_entries, apply_snapshot, finish_permissions};
use crate::laws::{keeps, law_insert_then_lookup, lemma_add_node_wf, lemma_apply_node_frame, lemma_apply_entries_frame};
use crate::node::{Entries, NodeId, NodeView, NodePermissions, child_of, first_named, entries_insert, lemma_first_named_unique};
use crate::snapshot::{SnapshotEntry, SnapshotView, VfsSnapshotNode, distinct_names, entry_map, lemma_distinct_entry_at, lemma_directory_view};
use crate::store::StoreView;
use crate::vfs::Permissions;

verus! {

/// The permission setting a snapshot node carries.
pub open spec fn node_permissions(node: VfsSnapshotNode) -> Permissions {
    match node {
        VfsSnapshotNode::File { permissions, .. } => permissions,
        VfsSnapshotNode::Directory { permissions, .. } => permissions,
    }
}

/// Whether every permission setting of `node` lies within `outer` and
/// within the setting of the directory holding it, and no directory holds
/// two entries of the same name.
pub open spec fn consistent(node: VfsSnapshotNode, outer: Permissions) -> bool
    decreases node,
{
    match node {
        VfsSnapshotNode::File { permissions, .. } => outer.spec_contains(permissions),
        VfsSnapshotNode::Directory { children, permissions } => {
            &&& outer.spec_contains(permissions)
            &&& distinct_names(children@)
            &&& forall|j: int| 0 <= j < children@.len() ==> consistent(#[trigger] children@[j].node, permissions)
        },
    }
}

/// Whether `node`, found at nesting level `depth`, and everything below it
/// lie within the nesting a snapshot can take.
pub open spec fn within(node: VfsSnapshotNode, depth: int) -> bool
    decreases node,
{
    &&& 0 <= depth <= crate::model::max_snapshot_depth()
    &&& match node {
        VfsSnapshotNode::File { .. } => true,
        VfsSnapshotNode::Directory { children, .. } =>
            forall|j: int| 0 <= j < children@.len() ==> within(#[trigger] children@[j].node, depth + 1),
    }
}

/// Whether the node `id` of `s` holds what `node` describes, with its
/// permission setting, and, for a directory, exactly its entries in order,
/// each node pointing back at `id`.
pub open spec fn built(s: StoreView, id: NodeId, node: VfsSnapshotNode) -> bool
    decreases node,
{
    match s.lookup(id) {
        Err(_) => false,
        Ok(n) => match node {
            VfsSnapshotNode::File { data, permissions } => {
                &&& n.is_file()
                &&& n.data() == data@
                &&& n.permissions == NodePermissions::Explicit(permissions)
            },
            VfsSnapshotNode::Directory { children, permissions } => {
                &&& n.is_dir()
                &&& n.permissions == NodePermissions::Explicit(permissions)
                &&& n.entries().len() == children@.len()
                &&& forall|j: int| 0 <= j < children@.len() ==> {
                    &&& #[trigger] n.entries()[j].0 == children@[j].name@
                    &&& s.lookup(n.entries()[j].1) is Ok
                    &&& s.node(n.entries()[j].1).parent == Some(id)
                    &&& built(s, n.entries()[j].1, children@[j].node)
                }
            },
        },
    }
}

/// Whether the walk up from `id`, started with any permissions `acc` and
/// allowed at least `d` steps, ends with `acc` intersected with `p`.
pub open spec fn walk_gives(s: StoreView, id: NodeId, p: Permissions, d: nat) -> bool {
    forall|acc: Permissions, f: nat| f >= d ==>
        #[trigger] permissions_from(s, id, acc, f) == Ok::<Permissions, FsError>(Permissions { bits: acc.bits & p.bits })
}

/// A child whose setting lies within its parent's inherits the parent's
/// walk one step further.
proof fn lemma_walk_child(s: StoreView, id: NodeId, p: Permissions, d: nat, c: NodeId, cp: Permissions)
    requires
        walk_gives(s, id, p, d),
        s.lookup(c) is Ok,
        s.node(c).parent == Some(id),
        s.node(c).permissions == NodePermissions::Explicit(cp),
        p.spec_contains(cp),
    ensures
        walk_gives(s, c, cp, d + 1),
{
    assert forall|acc: Permissions, f: nat| f >= d + 1 implies
        #[trigger] permissions_from(s, c, acc, f) == Ok::<Permissions, FsError>(Permissions { bits: acc.bits & cp.bits }) by {
        let a = acc.bits;
        let b = cp.bits;
        let pb = p.bits;
        assert(permissions_from(s, id, Permissions { bits: a & b }, (f - 1) as nat)
            == Ok::<Permissions, FsError>(Permissions { bits: (a & b) & pb }));
        assert((pb & b) == b ==> ((a & b) & pb) == (a & b)) by (bit_vector);
    }
}

/// The first entry named `x` of entries with distinct names is the one at
/// its position.
proof fn lemma_child_at(e: Entries, children: Seq<SnapshotEntry>, j: int)
    requires
        e.len() == children.len(),
        distinct_names(children),
        forall|i: int| 0 <= i < children.len() ==> #[trigger] e[i].0 == children[i].name@,
        0 <= j < e.len(),
    ensures
        child_of(e, e[j].0) == Some(e[j].1),
{
    assert forall|i: int| 0 <= i < j implies e[i].0 != e[j].0 by {
        assert(e[i].0 == children[i].name@);
        assert(e[j].0 == children[j].name@);
        assert(children[i].name@ != children[j].name@);
    }
    assert(first_named(e, e[j].0, j));
    lemma_first_named_unique(e, e[j].0, j);
}

/// The snapshot of a node built from a snapshot node is that node, when
/// the walk up from it gives its own setting.
proof fn lemma_snapshot_of_built(s: StoreView, root: NodeId, names: Seq<Seq<char>>, depth: int, id: NodeId, node: VfsSnapshotNode)
    requires
        find(s, root, names) is Ok,
        find(s, root, names)->Ok_0.1 == id,
        built(s, id, node),
        consistent(node, rw()),
        within(node, depth),
        walk_gives(s, id, node_permissions(node), depth as nat),
    ensures
        snapshot_of(s, root, names, depth) == Ok::<SnapshotView, FsError>(node.snapshot_view()),
    decreases node, 1int,
{
    let n = s.lookup(id)->Ok_0;
    let np = node_permissions(node);
    let r = rw().bits;
    let b = np.bits;
    assert(permissions_from(s, id, rw(), usize::MAX as nat) == Ok::<Permissions, FsError>(Permissions { bits: r & b }));
    assert((r & b) == b ==> (r & b) == b) by (bit_vector);
    assert(effective_permissions(s, id) == Ok::<Permissions, FsError>(np));
    match node {
        VfsSnapshotNode::File { data, permissions } => {},
        VfsSnapshotNode::Directory { children, permissions } => {
            let e = n.entries();
            lemma_snapshot_entries_built(s, root, names, depth, id, children@, permissions, e.len());
            lemma_directory_view(children@, permissions);
            let m = entry_map(children@).map_values(|c: VfsSnapshotNode| c.snapshot_view());
            let m2 = snapshot_entries(s, root, names, e, e.len(), depth)->Ok_0;
            assert(m2 =~= m) by {
                assert forall|key: Seq<char>| #[trigger] m2.contains_key(key) <==> m.contains_key(key) by {
                    if m2.contains_key(key) {
                        let j = choose|j: int| 0 <= j < e.len() && children@[j].name@ == key;
                        lemma_distinct_entry_at(children@, j);
                    }
                    if m.contains_key(key) {
                        let j = choose|j: int| 0 <= j < children@.len() && children@[j].name@ == key;
                        assert(0 <= j < e.len() && children@[j].name@ == key);
                    }
                }
                assert forall|key: Seq<char>| m2.contains_key(key) implies #[trigger] m2[key] == m[key] by {
                    let j = choose|j: int| 0 <= j < e.len() && children@[j].name@ == key;
                    lemma_distinct_entry_at(children@, j);
                }
            }
        },
    }
}

/// The snapshots of the first `k` entries of a directory built from a
/// snapshot directory hold each entry's node under its name.
proof fn lemma_snapshot_entries_built(
    s: StoreView,
    root: NodeId,
    names: Seq<Seq<char>>,
    depth: int,
    id: NodeId,
    children: Seq<SnapshotEntry>,
    permissions: Permissions,
    k: nat,
)
    requires
        find(s, root, names) is Ok,
        find(s, root, names)->Ok_0.1 == id,
        s.lookup(id) is Ok,
        s.node(id).is_dir(),
        s.node(id).entries().len() == children.len(),
        k <= children.len(),
        distinct_names(children),
        forall|j: int| 0 <= j < children.len() ==> {
            &&& #[trigger] s.node(id).entries()[j].0 == children[j].name@
            &&& s.lookup(s.node(id).entries()[j].1) is Ok
            &&& s.node(s.node(id).entries()[j].1).parent == Some(id)
            &&& built(s, s.node(id).entries()[j].1, children[j].node)
        },
        forall|j: int| 0 <= j < children.len() ==> consistent(#[trigger] children[j].node, permissions),
        forall|j: int| 0 <= j < children.len() ==> within(#[trigger] children[j].node, depth + 1),
        0 <= depth <= crate::model::max_snapshot_depth(),
        walk_gives(s, id, permissions, depth as nat),
        rw().spec_contains(permissions),
    ensures
        snapshot_entries(s, root, names, s.node(id).entries(), k, depth) is Ok,
        forall|key: Seq<char>| #[trigger] snapshot_entries(s, root, names, s.node(id).entries(), k, depth)->Ok_0.contains_key(key)
            <==> exists|j: int| 0 <= j < k && children[j].name@ == key,
        forall|j: int| 0 <= j < k ==>
            #[trigger] snapshot_entries(s, root, names, s.node(id).entries(), k, depth)->Ok_0[children[j].name@]
                == children[j].node.snapshot_view(),
    decreases children, k,
{
    let e = s.node(id).entries();
    if k > 0 {
        lemma_snapshot_entries_built(s, root, names, depth, id, children, permissions, (k - 1) as nat);
        let j = k - 1;
        let c = e[j].1;
        let child = children[j].node;
        assert(e[j].0 == children[j].name@);
        lemma_child_at(e, children, j);
        assert(names.push(e[j].0).drop_last() =~= names);
        assert(resolve(s, root, names.push(e[j].0)) == Ok::<NodeId, FsError>(c));
        assert(consistent(child, permissions));
        let cp = node_permissions(child);
        assert(s.node(c).permissions == NodePermissions::Explicit(cp)) by {
            assert(built(s, c, child));
        }
        assert(permissions.spec_contains(cp)) by {
            assert(consistent(child, permissions));
        }
        lemma_walk_child(s, id, permissions, depth as nat, c, cp);
        assert(consistent(child, rw())) by {
            lemma_consistent_widen(child, permissions, rw());
        }
        assert(decreases_to!(children => children[j]));
        assert(decreases_to!(children[j] => children[j].node));
        lemma_snapshot_of_built(s, root, names.push(e[j].0), depth + 1, c, child);
        let prev = snapshot_entries(s, root, names, e, (k - 1) as nat, depth)->Ok_0;
        let cur = snapshot_entries(s, root, names, e, k, depth)->Ok_0;
        assert(cur == prev.insert(children[j].name@, child.snapshot_view()));
        assert forall|key: Seq<char>| #[trigger] cur.contains_key(key) <==> exists|i: int| 0 <= i < k && children[i].name@ == key by {
            if cur.contains_key(key) && key != children[j].name@ {
                assert(prev.contains_key(key));
                let i = choose|i: int| 0 <= i < k - 1 && children[i].name@ == key;
                assert(0 <= i < k && children[i].name@ == key);
            }
            if exists|i: int| 0 <= i < k && children[i].name@ == key {
                let i = choose|i: int| 0 <= i < k && children[i].name@ == key;
                if i < k - 1 {
                    assert(prev.contains_key(key));
                }
            }
        }
        assert forall|i: int| 0 <= i < k implies #[trigger] cur[children[i].name@] == children[i].node.snapshot_view() by {
            if i < k - 1 {
                assert(children[i].name@ != children[j].name@);
                assert(prev[children[i].name@] == children[i].node.snapshot_view());
            }
        }
    }
}

/// A setting consistent within `inner` is consistent within any `outer`
/// that contains `inner`.
proof fn lemma_consistent_widen(node: VfsSnapshotNode, inner: Permissions, outer: Permissions)
    requires
        consistent(node, inner),
        outer.spec_contains(inner),
    ensures
        consistent(node, outer),
{
    let p = node_permissions(node).bits;
    let i = inner.bits;
    let o = outer.bits;
    assert((o & i) == i && (i & p) == p ==> (o & p) == p) by (bit_vector);
}

/// Whether the slot at `i` is vacant in `s`, or beyond its slots.
pub open spec fn fresh_in(s: StoreView, i: int) -> bool {
    i >= s.slots.len() || s.slots[i].node is None
}

/// Whether every node of the tree `id` holds as `node` sits in a slot that
/// was free in `base`.
pub open spec fn tree_fresh(s: StoreView, id: NodeId, node: VfsSnapshotNode, base: StoreView) -> bool
    decreases node,
{
    &&& fresh_in(base, id.index as int)
    &&& match node {
        VfsSnapshotNode::File { .. } => true,
        VfsSnapshotNode::Directory { children, .. } =>
            forall|j: int| 0 <= j < children@.len() ==>
                tree_fresh(s, #[trigger] s.node(id).entries()[j].1, children@[j].node, base),
    }
}

/// A tree is kept by changes that keep every node outside the slot of
/// `parent`, when that slot is not one of the tree's.
proof fn lemma_built_kept(s: StoreView, s2: StoreView, id: NodeId, node: VfsSnapshotNode, parent: NodeId, base: StoreView)
    requires
        built(s, id, node),
        tree_fresh(s, id, node, base),
        keeps(s, s2, parent),
        !fresh_in(base, parent.index as int),
    ensures
        built(s2, id, node),
        tree_fresh(s2, id, node, base),
        s2.lookup(id) == s.lookup(id),
    decreases node,
{
    assert(s2.lookup(id) == s.lookup(id));
    assert(fresh_in(base, id.index as int));
    match node {
        VfsSnapshotNode::File { .. } => {},
        VfsSnapshotNode::Directory { children, permissions } => {
            let e = s.node(id).entries();
            assert forall|j: int| 0 <= j < children@.len() implies {
                &&& #[trigger] s2.node(id).entries()[j].0 == children@[j].name@
                &&& s2.lookup(s2.node(id).entries()[j].1) is Ok
                &&& s2.node(s2.node(id).entries()[j].1).parent == Some(id)
                &&& built(s2, s2.node(id).entries()[j].1, children@[j].node)
                &&& tree_fresh(s2, s2.node(id).entries()[j].1, children@[j].node, base)
            } by {
                let c = e[j].1;
                assert(e[j].0 == children@[j].name@);
                assert(built(s, c, children@[j].node));
                assert(tree_fresh(s, c, children@[j].node, base));
                assert(decreases_to!(children => children@));
                assert(decreases_to!(children@ => children@[j]));
                lemma_built_kept(s, s2, c, children@[j].node, parent, base);
            }
            assert forall|j: int| 0 <= j < children@.len() implies
                tree_fresh(s2, #[trigger] s2.node(id).entries()[j].1, children@[j].node, base) by {
                assert(s2.node(id).entries()[j].0 == children@[j].name@);
            }
        },
    }
}

/// A tree fresh against a later store is fresh against an earlier one.
proof fn lemma_tree_fresh_earlier(s: StoreView, id: NodeId, node: VfsSnapshotNode, later: StoreView, earlier: StoreView)
    requires
        tree_fresh(s, id, node, later),
        forall|i: int| 0 <= i && fresh_in(later, i) ==> #[trigger] fresh_in(earlier, i),
    ensures
        tree_fresh(s, id, node, earlier),
    decreases node,
{
    match node {
        VfsSnapshotNode::File { .. } => {},
        VfsSnapshotNode::Directory { children, .. } => {
            assert forall|j: int| 0 <= j < children@.len() implies
                tree_fresh(s, #[trigger] s.node(id).entries()[j].1, children@[j].node, earlier) by {
                assert(decreases_to!(children => children@));
                assert(decreases_to!(children@ => children@[j]));
                lemma_tree_fresh_earlier(s, s.node(id).entries()[j].1, children@[j].node, later, earlier);
            }
        },
    }
}

/// A slot free after a change that keeps every node, and keeps `parent`
/// live, was free before.
proof fn lemma_fresh_earlier(s: StoreView, s2: StoreView, parent: NodeId)
    requires
        keeps(s, s2, parent),
        s.live(parent),
        s2.live(parent),
        s.slots.len() <= usize::MAX,
    ensures
        forall|i: int| 0 <= i && fresh_in(s2, i) ==> #[trigger] fresh_in(s, i),
{
    assert forall|i: int| 0 <= i && fresh_in(s2, i) implies #[trigger] fresh_in(s, i) by {
        if !fresh_in(s, i) {
            {
                let x = NodeId { index: i as usize, generation: s.slots[i].generation };
                assert(x.index as int == i);
                assert(s.live(x));
                if x.index != parent.index {
                    assert(s2.lookup(x) == s.lookup(x));
                    assert(s2.slots[i].node is Some);
                } else {
                    assert(s2.slots[i].node is Some);
                }
            }
        }
    }
}

/// Replacing a live node keeps every other node and every generation.
proof fn lemma_with_node_keeps(s: StoreView, id: NodeId, n: NodeView)
    requires
        s.live(id),
    ensures
        keeps(s, s.with_node(id.index as int, n), id),
        s.with_node(id.index as int, n).lookup(id) == Ok::<NodeView, FsError>(n),
{
}

/// Two changes that each keep every node outside the slot of `id`, the
/// second after the first, together keep them too.
proof fn lemma_keeps_trans(s1: StoreView, s2: StoreView, s3: StoreView, id: NodeId)
    requires
        keeps(s1, s2, id),
        keeps(s2, s3, id),
    ensures
        keeps(s1, s3, id),
{
    assert forall|j: int| 0 <= j < s1.slots.len() implies #[trigger] s3.slots[j].generation == s1.slots[j].generation by {
        assert(s2.slots[j].generation == s1.slots[j].generation);
    }
    assert forall|x: NodeId| s1.live(x) && x.index != id.index implies #[trigger] s3.lookup(x) == s1.lookup(x) by {
        assert(s2.lookup(x) == s1.lookup(x));
    }
}

/// Mapping a name that no entry carries appends it.
proof fn lemma_insert_new_name(e: Entries, x: Seq<char>, id: NodeId)
    requires
        forall|i: int| 0 <= i < e.len() ==> #[trigger] e[i].0 != x,
    ensures
        entries_insert(e, x, id) == e.push((x, id)),
{
    if exists|i: int| first_named(e, x, i) {
        let i = choose|i: int| first_named(e, x, i);
        assert(e[i].0 == x);
    }
}

/// Adding a snapshot node below `parent` builds it in slots that were
/// free before, under the handle the parent's entry for `name` now holds.
proof fn lemma_apply_node_built(s: StoreView, parent: NodeId, name: Seq<char>, node: VfsSnapshotNode, depth: int, outer: Permissions) -> (id: NodeId)
    requires
        s.wf(),
        s.slots.len() <= usize::MAX,
        s.live(parent),
        consistent(node, outer),
        apply_node(s, parent, name, node, depth).1 is Ok,
    ensures
        ({
            let s2 = apply_node(s, parent, name, node, depth).0;
            &&& s2.lookup(parent) == Ok::<NodeView, FsError>(s.node(parent).with_entries(entries_insert(s.node(parent).entries(), name, id)))
            &&& built(s2, id, node)
            &&& s2.node(id).parent == Some(parent)
            &&& tree_fresh(s2, id, node, s)
        }),
    decreases node, 1int,
{
    let p = s.node(parent);
    let n = match node {
        VfsSnapshotNode::File { data, permissions } => NodeView::new_file(data@, None),
        VfsSnapshotNode::Directory { children, permissions } => NodeView::new_dir(None),
    };
    let nn = NodeView { parent: Some(parent), ..n };
    let (si, r) = s.after_insert(nn);
    let (s1, r1) = add_node(s, parent, name, n);
    let id = r1->Ok_0;
    lemma_add_node_wf(s, parent, name, n);
    law_insert_then_lookup(s, nn, parent);
    if s.free.len() > 0 {
        assert(s.slots[s.free[0] as int].node is None);
    }
    assert(fresh_in(s, id.index as int));
    assert(si.lookup(id) == Ok::<NodeView, FsError>(nn));
    assert(id.index != parent.index);
    assert(s1.lookup(id) == Ok::<NodeView, FsError>(nn));
    assert(s1.lookup(parent) == Ok::<NodeView, FsError>(p.with_entries(entries_insert(p.entries(), name, id))));
    assert(keeps(s, s1, parent)) by {
        assert forall|x: NodeId| s.live(x) && x.index != parent.index implies #[trigger] s1.lookup(x) == s.lookup(x) by {
            law_insert_then_lookup(s, nn, x);
        }
    }
    match node {
        VfsSnapshotNode::File { data, permissions } => {
            let n2 = nn.with_permissions(NodePermissions::Explicit(permissions));
            let s2 = apply_node(s, parent, name, node, depth).0;
            assert(s2 == s1.with_node(id.index as int, n2));
            lemma_with_node_keeps(s1, id, n2);
            assert(s2.lookup(parent) == s1.lookup(parent));
        },
        VfsSnapshotNode::Directory { children, permissions } => {
            lemma_finish_dir(s1, id, node, depth + 1, outer);
            let s2 = apply_entries(s1, id, children@, children@.len(), depth + 1).0;
            let s3 = apply_node(s, parent, name, node, depth).0;
            assert(s3 == finish_permissions(s2, id, permissions).0);
            lemma_fresh_earlier(s, s1, parent);
            assert forall|j: int| 0 <= j < children@.len() implies
                tree_fresh(s3, #[trigger] s3.node(id).entries()[j].1, children@[j].node, s) by {
                lemma_tree_fresh_earlier(s3, s3.node(id).entries()[j].1, children@[j].node, s1, s);
            }
            assert(s3.lookup(parent) == s1.lookup(parent));
        },
    }
    id
}

/// Adding a snapshot directory's entries into the empty directory `id`,
/// then giving it the snapshot's setting, builds the directory there, in
/// slots that were free before, keeping every node elsewhere.
proof fn lemma_finish_dir(s1: StoreView, id: NodeId, node: VfsSnapshotNode, depth: int, outer: Permissions)
    requires
        s1.wf(),
        s1.slots.len() <= usize::MAX,
        s1.live(id),
        s1.node(id).is_dir(),
        s1.node(id).entries().len() == 0,
        consistent(node, outer),
        node matches VfsSnapshotNode::Directory { children, .. }
            && apply_entries(s1, id, children@, children@.len(), depth).1 is Ok,
    ensures
        node matches VfsSnapshotNode::Directory { children, permissions } && ({
            let s2 = apply_entries(s1, id, children@, children@.len(), depth).0;
            let s3 = finish_permissions(s2, id, permissions).0;
            &&& s3.wf()
            &&& s3.slots.len() <= usize::MAX
            &&& built(s3, id, node)
            &&& s3.node(id).parent == s1.node(id).parent
            &&& keeps(s1, s3, id)
            &&& s3.live(id)
            &&& forall|j: int| 0 <= j < children@.len() ==>
                tree_fresh(s3, #[trigger] s3.node(id).entries()[j].1, children@[j].node, s1)
        }),
    decreases node, 0int,
{
    match node {
        VfsSnapshotNode::File { .. } => {},
        VfsSnapshotNode::Directory { children, permissions } => {
            let cs = children@;
            let k = cs.len();
            assert(decreases_to!(node => children));
            assert(decreases_to!(children => children@));
            lemma_apply_entries_built(s1, id, cs, k, depth, permissions);
            lemma_apply_entries_frame(s1, id, cs, k, depth);
            let s2 = apply_entries(s1, id, cs, k, depth).0;
            let n2 = s2.lookup(id)->Ok_0;
            let n3 = n2.with_permissions(NodePermissions::Explicit(permissions));
            let s3 = finish_permissions(s2, id, permissions).0;
            assert(s3 == s2.with_node(id.index as int, n3));
            crate::store::lemma_with_node_wf(s2, id.index as int, n3);
            lemma_with_node_keeps(s2, id, n3);
            lemma_keeps_trans(s1, s2, s3, id);
            let e = n2.entries();
            assert(!fresh_in(s1, id.index as int));
            assert forall|j: int| 0 <= j < k implies {
                &&& #[trigger] e[j].0 == cs[j].name@
                &&& s3.lookup(e[j].1) is Ok
                &&& s3.node(e[j].1).parent == Some(id)
                &&& built(s3, e[j].1, cs[j].node)
                &&& tree_fresh(s3, e[j].1, cs[j].node, s1)
            } by {
                assert(e[j].0 == cs[j].name@);
                lemma_built_kept(s2, s3, e[j].1, cs[j].node, id, s1);
            }
            assert(s3.node(id) == n3);
            assert forall|j: int| 0 <= j < k implies
                tree_fresh(s3, #[trigger] s3.node(id).entries()[j].1, cs[j].node, s1) by {
                assert(e[j].0 == cs[j].name@);
            }
        },
    }
}

/// Adding the first `k` entries of a snapshot directory into the empty
/// directory `parent` builds each of them, in order, in slots that were
/// free before.
proof fn lemma_apply_entries_built(s: StoreView, parent: NodeId, entries: Seq<SnapshotEntry>, k: nat, depth: int, outer: Permissions)
    requires
        s.wf(),
        s.slots.len() <= usize::MAX,
        s.live(parent),
        s.node(parent).is_dir(),
        s.node(parent).entries().len() == 0,
        k <= entries.len(),
        distinct_names(entries),
        forall|j: int| 0 <= j < entries.len() ==> consistent(#[trigger] entries[j].node, outer),
        apply_entries(s, parent, entries, k, depth).1 is Ok,
    ensures
        ({
            let s2 = apply_entries(s, parent, entries, k, depth).0;
            let e = s2.node(parent).entries();
            &&& e.len() == k
            &&& forall|j: int| 0 <= j < k ==> {
                &&& #[trigger] e[j].0 == entries[j].name@
                &&& s2.lookup(e[j].1) is Ok
                &&& s2.node(e[j].1).parent == Some(parent)
                &&& built(s2, e[j].1, entries[j].node)
                &&& tree_fresh(s2, e[j].1, entries[j].node, s)
            }
        }),
    decreases entries, k,
{
    if k > 0 {
        let (s1, r) = apply_entries(s, parent, entries, (k - 1) as nat, depth);
        lemma_apply_entries_built(s, parent, entries, (k - 1) as nat, depth, outer);
        lemma_apply_entries_frame(s, parent, entries, (k - 1) as nat, depth);
        let en = entries[k - 1];
        assert(decreases_to!(entries => en));
        assert(decreases_to!(en => en.node));
        assert(consistent(en.node, outer));
        let id = lemma_apply_node_built(s1, parent, en.name@, en.node, depth, outer);
        lemma_apply_node_frame(s1, parent, en.name@, en.node, depth);
        let e1 = s1.node(parent).entries();
        assert forall|i: int| 0 <= i < e1.len() implies #[trigger] e1[i].0 != en.name@ by {
            assert(e1[i].0 == entries[i].name@);
            assert(entries[i].name@ != entries[k - 1].name@);
        }
        lemma_insert_new_name(e1, en.name@, id);
        let s2 = apply_entries(s, parent, entries, k, depth).0;
        assert(s2 == apply_node(s1, parent, en.name@, en.node, depth).0);
        let e = s2.node(parent).entries();
        assert(e == e1.push((en.name@, id)));
        lemma_fresh_earlier(s, s1, parent);
        assert forall|j: int| 0 <= j < k implies {
            &&& #[trigger] e[j].0 == entries[j].name@
            &&& s2.lookup(e[j].1) is Ok
            &&& s2.node(e[j].1).parent == Some(parent)
            &&& built(s2, e[j].1, entries[j].node)
            &&& tree_fresh(s2, e[j].1, entries[j].node, s)
        } by {
            if j < k - 1 {
                assert(e1[j].0 == entries[j].name@);
                lemma_built_kept(s1, s2, e1[j].1, entries[j].node, parent, s);
            } else {
                lemma_tree_fresh_earlier(s2, id, en.node, s1, s);
            }
        }
    }
}

/// Taking a snapshot of the file system just built from a snapshot gives
/// that snapshot back, when each permission setting in it lies within that
/// of the directory holding it, no directory in it holds a name twice and
/// its nesting stays within what a snapshot can take.
pub proof fn law_apply_then_generate(s: StoreView, root: NodeId, snapshot: VfsSnapshotNode)
    requires
        s.wf(),
        s.slots.len() <= usize::MAX,
        s.live(root),
        s.node(root).parent is None,
        apply_snapshot(s, root, snapshot).1 is Ok,
        consistent(snapshot, rw()),
        within(snapshot, 0),
    ensures
        snapshot_of(apply_snapshot(s, root, snapshot).0, root, Seq::empty(), 0)
            == Ok::<SnapshotView, FsError>(snapshot.snapshot_view()),
{
    match snapshot {
        VfsSnapshotNode::File { .. } => {},
        VfsSnapshotNode::Directory { children, permissions } => {
            let c = s.after_clear(root);
            crate::store::lemma_after_clear_wf(s, root);
            assert(c.lookup(root) == s.lookup(root));
            let n0 = c.lookup(root)->Ok_0;
            let s1 = crate::model::wipe(s, root).0;
            assert(s1 == c.with_node(root.index as int, n0.with_entries(Seq::empty())));
            crate::store::lemma_with_node_wf(c, root.index as int, n0.with_entries(Seq::empty()));
            assert(s1.lookup(root) == Ok::<NodeView, FsError>(n0.with_entries(Seq::empty())));
            lemma_finish_dir(s1, root, snapshot, 0, rw());
            let s2 = apply_entries(s1, root, children@, children@.len(), 0).0;
            let s3 = apply_snapshot(s, root, snapshot).0;
            assert(s3 == finish_permissions(s2, root, permissions).0);
            assert(s3.node(root).parent is None);
            assert forall|acc: Permissions, f: nat| f >= 0 implies
                #[trigger] permissions_from(s3, root, acc, f) == Ok::<Permissions, FsError>(Permissions { bits: acc.bits & permissions.bits }) by {
            }
            assert(walk_gives(s3, root, permissions, 0));
            assert(find(s3, root, Seq::empty()) == Ok::<(NodeView, NodeId), FsError>((s3.node(root), root)));
            lemma_snapshot_of_built(s3, root, Seq::empty(), 0, root, snapshot);
        },
    }
}

} // verus!
