//! Snapshots: a value describing a whole directory tree, with builders to
//! write one down. Directory entries are kept sorted by name, each name
//! once, as in a `BTreeMap`.

use vstd::prelude::*;
use crate::names::{name_lt, NameOrder, compare_names, lemma_name_order};
use crate::vfs::Permissions;

verus! {

/// One entry of a snapshot directory.
#[derive(Debug, PartialEq, Eq)]
pub struct SnapshotEntry {
    pub name: String,
    pub node: VfsSnapshotNode,
}

/// A node in a snapshot tree: a file or a directory.
#[derive(Debug, PartialEq, Eq)]
pub enum VfsSnapshotNode {
    /// A file containing binary data and permissions.
    File { data: Vec<u8>, permissions: Permissions },
    /// A directory containing named child nodes and permissions.
    Directory { children: Vec<SnapshotEntry>, permissions: Permissions },
}

/// A snapshot node, as the specifications see it.
pub enum SnapshotView {
    File(Seq<u8>, Permissions),
    Directory(Map<Seq<char>, SnapshotView>, Permissions),
}

/// Whether the names of `entries` strictly increase.
pub open spec fn sorted_entries(entries: Seq<SnapshotEntry>) -> bool {
    forall|i: int, j: int| 0 <= i < j < entries.len() ==> name_lt(#[trigger] entries[i].name@, #[trigger] entries[j].name@)
}

/// Whether no two of `entries` carry the same name.
pub open spec fn distinct_names(entries: Seq<SnapshotEntry>) -> bool {
    forall|i: int, j: int| 0 <= i < entries.len() && 0 <= j < entries.len() && i != j
        ==> #[trigger] entries[i].name@ != #[trigger] entries[j].name@
}

/// Whether `entries` has an entry named `k`.
pub open spec fn has_entry(entries: Seq<SnapshotEntry>, k: Seq<char>) -> bool {
    exists|i: int| 0 <= i < entries.len() && entries[i].name@ == k
}

/// A position of an entry named `k` (meaningful when there is one).
pub open spec fn entry_index(entries: Seq<SnapshotEntry>, k: Seq<char>) -> int {
    choose|i: int| 0 <= i < entries.len() && entries[i].name@ == k
}

/// The node of the entry named `k` (meaningful when there is one).
pub open spec fn entry_node(entries: Seq<SnapshotEntry>, k: Seq<char>) -> VfsSnapshotNode {
    entries[entry_index(entries, k)].node
}

/// The entries as a map from names to nodes.
pub open spec fn entry_map(entries: Seq<SnapshotEntry>) -> Map<Seq<char>, VfsSnapshotNode> {
    Map::new(|k: Seq<char>| has_entry(entries, k), |k: Seq<char>| entry_node(entries, k))
}

/// Whether every directory in `n`, at any depth, holds its entries sorted
/// by name.
pub open spec fn sorted_tree(n: VfsSnapshotNode) -> bool
    decreases n,
{
    match n {
        VfsSnapshotNode::File { .. } => true,
        VfsSnapshotNode::Directory { children, .. } => {
            &&& sorted_entries(children@)
            &&& forall|j: int| 0 <= j < children@.len() ==> sorted_tree(#[trigger] children@[j].node)
        },
    }
}

impl VfsSnapshotNode {
    /// The node as the specifications see it.
    pub open spec fn snapshot_view(&self) -> SnapshotView
        decreases self,
    {
        match self {
            VfsSnapshotNode::File { data, permissions } => SnapshotView::File(data@, *permissions),
            VfsSnapshotNode::Directory { children, permissions } => SnapshotView::Directory(
                Map::new(
                    |k: Seq<char>| has_entry(children@, k),
                    |k: Seq<char>| {
                        let i = entry_index(children@, k);
                        if 0 <= i < children@.len() {
                            children@[i].node.snapshot_view()
                        } else {
                            SnapshotView::File(Seq::empty(), Permissions { bits: 0 })
                        }
                    },
                ),
                *permissions,
            ),
        }
    }
}

/// In sorted entries each name appears once.
pub proof fn lemma_sorted_unique(entries: Seq<SnapshotEntry>, i: int, j: int)
    requires
        sorted_entries(entries),
        0 <= i < entries.len(),
        0 <= j < entries.len(),
        i != j,
    ensures
        entries[i].name@ != entries[j].name@,
{
    lemma_name_order(entries[i].name@, entries[j].name@, entries[j].name@);
    lemma_name_order(entries[j].name@, entries[i].name@, entries[i].name@);
}

/// Sorted entries carry distinct names.
pub proof fn lemma_sorted_distinct(entries: Seq<SnapshotEntry>)
    requires
        sorted_entries(entries),
    ensures
        distinct_names(entries),
{
    assert forall|i: int, j: int| 0 <= i < entries.len() && 0 <= j < entries.len() && i != j
        implies #[trigger] entries[i].name@ != #[trigger] entries[j].name@ by {
        lemma_sorted_unique(entries, i, j);
    }
}

/// In entries with distinct names, the map holds every entry under its
/// name.
pub proof fn lemma_distinct_entry_at(entries: Seq<SnapshotEntry>, idx: int)
    requires
        distinct_names(entries),
        0 <= idx < entries.len(),
    ensures
        has_entry(entries, entries[idx].name@),
        entry_node(entries, entries[idx].name@) == entries[idx].node,
        entry_map(entries).contains_key(entries[idx].name@),
        entry_map(entries)[entries[idx].name@] == entries[idx].node,
{
    let k = entries[idx].name@;
    assert(has_entry(entries, k));
    let j = entry_index(entries, k);
    assert(0 <= j < entries.len() && entries[j].name@ == k);
    assert(j == idx);
    assert(entry_node(entries, k) == entries[j].node);
    assert(entry_map(entries).contains_key(k));
    assert(entry_map(entries)[k] == entry_node(entries, k));
}

/// In sorted entries, the map holds every entry under its name.
pub proof fn lemma_entry_at(entries: Seq<SnapshotEntry>, idx: int)
    requires
        sorted_entries(entries),
        0 <= idx < entries.len(),
    ensures
        has_entry(entries, entries[idx].name@),
        entry_node(entries, entries[idx].name@) == entries[idx].node,
        entry_map(entries).contains_key(entries[idx].name@),
        entry_map(entries)[entries[idx].name@] == entries[idx].node,
{
    lemma_sorted_distinct(entries);
    lemma_distinct_entry_at(entries, idx);
}

/// The first position whose name is not below `name`, and whether its
/// name is `name`.
fn first_not_below(entries: &Vec<SnapshotEntry>, name: &str) -> (r: (usize, bool))
    ensures
        r.0 <= entries@.len(),
        forall|i: int| 0 <= i < r.0 ==> name_lt(#[trigger] entries@[i].name@, name@),
        r.0 < entries@.len() ==> (r.1 == (entries@[r.0 as int].name@ == name@)),
        r.0 < entries@.len() && !r.1 ==> name_lt(name@, entries@[r.0 as int].name@),
        r.0 == entries@.len() ==> !r.1,
{
    let mut p: usize = 0;
    while p < entries.len()
        invariant
            0 <= p <= entries@.len(),
            forall|i: int| 0 <= i < p ==> name_lt(#[trigger] entries@[i].name@, name@),
        decreases entries@.len() - p,
    {
        let o = compare_names(entries[p].name.as_str(), name);
        if o != NameOrder::Less {
            return (p, o == NameOrder::Equal);
        }
        p = p + 1;
    }
    (p, false)
}

/// Inserts `entry` into sorted entries, replacing the entry of the same name.
pub(crate) fn insert_entry(entries: &mut Vec<SnapshotEntry>, entry: SnapshotEntry)
    requires
        sorted_entries(old(entries)@),
    ensures
        sorted_entries(final(entries)@),
        entry_map(final(entries)@) == entry_map(old(entries)@).insert(entry.name@, entry.node),
{
    let ghost old_entries = entries@;
    let ghost name = entry.name@;
    let ghost node = entry.node;
    let (p, found_equal) = first_not_below(entries, entry.name.as_str());
    if found_equal {
        entries.set(p, entry);
        proof {
            let r = entries@;
            assert(r[p as int].name@ == old_entries[p as int].name@);
            assert forall|i: int, j: int| 0 <= i < j < r.len() implies name_lt(#[trigger] r[i].name@, #[trigger] r[j].name@) by {
                assert(r[i].name@ == old_entries[i].name@);
                assert(r[j].name@ == old_entries[j].name@);
            }
            let m = entry_map(old_entries).insert(name, node);
            assert forall|k: Seq<char>| #[trigger] entry_map(r).contains_key(k) <==> m.contains_key(k) by {
                if has_entry(r, k) {
                    let i = choose|i: int| 0 <= i < r.len() && r[i].name@ == k;
                    assert(old_entries[i].name@ == k);
                }
                if has_entry(old_entries, k) {
                    let i = choose|i: int| 0 <= i < old_entries.len() && old_entries[i].name@ == k;
                    assert(r[i].name@ == k);
                }
                if k == name {
                    assert(r[p as int].name@ == k);
                }
            }
            assert forall|k: Seq<char>| entry_map(r).contains_key(k) implies #[trigger] entry_map(r)[k] == m[k] by {
                let i = entry_index(r, k);
                lemma_entry_at(r, i);
                if i != p {
                    lemma_entry_at(old_entries, i);
                    lemma_sorted_unique(old_entries, i, p as int);
                }
            }
            assert(entry_map(r) =~= m);
        }
    } else {
        entries.insert(p, entry);
        proof {
            let r = entries@;
            if p < old_entries.len() {
                lemma_name_order(name, old_entries[p as int].name@, old_entries[p as int].name@);
            }
            assert forall|j: int| p < j < r.len() implies name_lt(name, #[trigger] r[j].name@) by {
                assert(r[j] == old_entries[j - 1]);
                if j - 1 > p {
                    lemma_name_order(name, old_entries[p as int].name@, old_entries[j - 1].name@);
                }
            }
            assert forall|i: int, j: int| 0 <= i < j < r.len() implies name_lt(#[trigger] r[i].name@, #[trigger] r[j].name@) by {
                if i < p && j < p {
                    assert(r[i] == old_entries[i] && r[j] == old_entries[j]);
                } else if i < p && j == p {
                    assert(r[i] == old_entries[i]);
                } else if i < p && j > p {
                    assert(r[i] == old_entries[i]);
                    assert(r[j] == old_entries[j - 1]);
                    lemma_name_order(old_entries[i].name@, name, r[j].name@);
                } else if i == p {
                } else {
                    assert(r[i] == old_entries[i - 1] && r[j] == old_entries[j - 1]);
                }
            }
            let m = entry_map(old_entries).insert(name, node);
            assert forall|k: Seq<char>| #[trigger] entry_map(r).contains_key(k) <==> m.contains_key(k) by {
                if has_entry(r, k) {
                    let i = choose|i: int| 0 <= i < r.len() && r[i].name@ == k;
                    if i < p {
                        assert(old_entries[i].name@ == k);
                    } else if i > p {
                        assert(old_entries[i - 1].name@ == k);
                    }
                }
                if has_entry(old_entries, k) {
                    let i = choose|i: int| 0 <= i < old_entries.len() && old_entries[i].name@ == k;
                    if i < p {
                        assert(r[i].name@ == k);
                    } else {
                        assert(r[i + 1].name@ == k);
                    }
                }
                if k == name {
                    assert(r[p as int].name@ == k);
                }
            }
            assert forall|k: Seq<char>| entry_map(r).contains_key(k) implies #[trigger] entry_map(r)[k] == m[k] by {
                let i = entry_index(r, k);
                lemma_entry_at(r, i);
                if i < p {
                    lemma_entry_at(old_entries, i);
                    lemma_name_order(k, k, k);
                    assert(k != name);
                } else if i > p {
                    lemma_entry_at(old_entries, i - 1);
                    assert(name_lt(name, k));
                    lemma_name_order(name, k, k);
                }
            }
            assert(entry_map(r) =~= m);
        }
    }
}

/// The view of a directory node is its entries' views, by name.
pub proof fn lemma_directory_view(children: Seq<SnapshotEntry>, permissions: Permissions)
    requires
        distinct_names(children),
    ensures
        forall|v: Vec<SnapshotEntry>| v@ == children ==>
            #[trigger] (VfsSnapshotNode::Directory { children: v, permissions }).snapshot_view()
                == SnapshotView::Directory(entry_map(children).map_values(|c: VfsSnapshotNode| c.snapshot_view()), permissions),
{
    assert forall|v: Vec<SnapshotEntry>| v@ == children implies
        #[trigger] (VfsSnapshotNode::Directory { children: v, permissions }).snapshot_view()
            == SnapshotView::Directory(entry_map(children).map_values(|c: VfsSnapshotNode| c.snapshot_view()), permissions) by {
        let n = VfsSnapshotNode::Directory { children: v, permissions };
        let m1 = match n.snapshot_view() { SnapshotView::Directory(m, _) => m, _ => Map::empty() };
        let m2 = entry_map(children).map_values(|c: VfsSnapshotNode| c.snapshot_view());
        assert forall|k: Seq<char>| m1.contains_key(k) implies m1[k] == m2[k] by {
            let i = entry_index(children, k);
            lemma_distinct_entry_at(children, i);
        }
        assert(m1 =~= m2);
    }
}

/// A directory being built, as the specifications see it: its entries by
/// name and its permissions.
pub type DirView = (Map<Seq<char>, SnapshotView>, Permissions);

/// One call on a directory builder, as the specifications see it.
pub enum BuildStep {
    /// `add`, `file` or `empty_file`: an entry with this name and node.
    Entry(Seq<char>, SnapshotView),
    /// `permissions`: the directory's permission setting.
    Perms(Permissions),
}

/// The directory after one more call on its builder.
pub open spec fn apply_step(v: DirView, step: BuildStep) -> DirView {
    match step {
        BuildStep::Entry(name, node) => (v.0.insert(name, node), v.1),
        BuildStep::Perms(p) => (v.0, p),
    }
}

/// The directory a new builder gives after `steps`, in order.
pub open spec fn replay(steps: Seq<BuildStep>) -> DirView
    decreases steps.len(),
{
    if steps.len() == 0 {
        (Map::empty(), Permissions { bits: 3 })
    } else {
        apply_step(replay(steps.drop_last()), steps.last())
    }
}

/// Whether `step` adds an entry named `name`.
pub open spec fn adds_entry_named(step: BuildStep, name: Seq<char>) -> bool {
    step matches BuildStep::Entry(n, _) && n == name
}

/// Whether `i` is the last of `steps` that adds an entry named `name`.
pub open spec fn last_naming(steps: Seq<BuildStep>, name: Seq<char>, i: int) -> bool {
    &&& 0 <= i < steps.len()
    &&& adds_entry_named(steps[i], name)
    &&& forall|j: int| i < j < steps.len() ==> !#[trigger] adds_entry_named(steps[j], name)
}

/// Whether `i` is the last of `steps` that sets the permissions.
pub open spec fn last_perms(steps: Seq<BuildStep>, i: int) -> bool {
    &&& 0 <= i < steps.len()
    &&& steps[i] is Perms
    &&& forall|j: int| i < j < steps.len() ==> !(#[trigger] steps[j] is Perms)
}

/// A directory built by any chain of calls on a new builder holds an entry
/// for each name that some call added, holding the node of the last call
/// that added it, and has the permissions of the last `permissions` call,
/// read-write when there was none.
pub proof fn law_builder_keeps_last_calls(steps: Seq<BuildStep>, name: Seq<char>)
    ensures
        replay(steps).0.contains_key(name) <==> exists|i: int| 0 <= i < steps.len() && #[trigger] adds_entry_named(steps[i], name),
        forall|i: int| #[trigger] last_naming(steps, name, i) ==> replay(steps).0[name] == steps[i]->Entry_1,
        forall|i: int| #[trigger] last_perms(steps, i) ==> replay(steps).1 == steps[i]->Perms_0,
        (forall|i: int| 0 <= i < steps.len() ==> !(#[trigger] steps[i] is Perms)) ==> replay(steps).1 == (Permissions { bits: 3 }),
    decreases steps.len(),
{
    if steps.len() > 0 {
        let prev = steps.drop_last();
        let n = steps.len() - 1;
        law_builder_keeps_last_calls(prev, name);
        assert forall|i: int| 0 <= i < prev.len() implies #[trigger] prev[i] == steps[i] by {}
        let r = replay(prev);
        assert(replay(steps) == apply_step(r, steps[n]));
        if adds_entry_named(steps[n], name) {
            assert(replay(steps).0.contains_key(name));
        } else {
            assert(replay(steps).0.contains_key(name) == r.0.contains_key(name));
        }
        if exists|i: int| 0 <= i < steps.len() && #[trigger] adds_entry_named(steps[i], name) {
            let i = choose|i: int| 0 <= i < steps.len() && #[trigger] adds_entry_named(steps[i], name);
            if i < n {
                assert(adds_entry_named(prev[i], name));
            }
        }
        if exists|i: int| 0 <= i < prev.len() && #[trigger] adds_entry_named(prev[i], name) {
            let i = choose|i: int| 0 <= i < prev.len() && #[trigger] adds_entry_named(prev[i], name);
            assert(adds_entry_named(steps[i], name));
        }
        assert forall|i: int| #[trigger] last_naming(steps, name, i) implies replay(steps).0[name] == steps[i]->Entry_1 by {
            if i < n {
                assert(!adds_entry_named(steps[n], name));
                assert(last_naming(prev, name, i));
            }
        }
        assert forall|i: int| #[trigger] last_perms(steps, i) implies replay(steps).1 == steps[i]->Perms_0 by {
            if i < n {
                assert(!(steps[n] is Perms));
                assert(last_perms(prev, i));
            }
        }
        if forall|i: int| 0 <= i < steps.len() ==> !(#[trigger] steps[i] is Perms) {
            assert(!(steps[n] is Perms));
            assert forall|i: int| 0 <= i < prev.len() implies !(#[trigger] prev[i] is Perms) by {
                assert(!(steps[i] is Perms));
            }
        }
    }
}

/// Adding a file through `file` or `empty_file` is adding, through `add`,
/// the node that `VfsSnapshotNode::file` or `VfsSnapshotNode::empty_file`
/// makes of the same data.
pub proof fn law_file_is_add(v: DirView, name: Seq<char>, data: Seq<u8>, node: VfsSnapshotNode)
    requires
        node.snapshot_view() == SnapshotView::File(data, Permissions { bits: 3 }),
    ensures
        apply_step(v, BuildStep::Entry(name, SnapshotView::File(data, Permissions { bits: 3 })))
            == apply_step(v, BuildStep::Entry(name, node.snapshot_view())),
{
}

/// A builder for a snapshot directory.
pub struct VfsSnapshotDir {
    children: Vec<SnapshotEntry>,
    permissions: Permissions,
}

impl View for VfsSnapshotDir {
    /// The directory the builder builds, as the specifications see it:
    /// its entries by name and its permissions.
    type V = DirView;

    closed spec fn view(&self) -> DirView {
        (entry_map(self.children@).map_values(|c: VfsSnapshotNode| c.snapshot_view()), self.permissions)
    }
}

impl VfsSnapshotDir {
    /// The invariant: the entries are sorted by name.
    pub closed spec fn wf(&self) -> bool {
        sorted_entries(self.children@)
    }

    /// The entries added so far, by name.
    pub closed spec fn entries(&self) -> Map<Seq<char>, VfsSnapshotNode> {
        entry_map(self.children@)
    }

    /// The snapshot directory the builder builds.
    pub closed spec fn built(&self) -> VfsSnapshotNode {
        VfsSnapshotNode::Directory { children: self.children, permissions: self.permissions }
    }

    /// The permissions the directory will get.
    pub closed spec fn perms(&self) -> Permissions {
        self.permissions
    }

    /// An empty directory builder with read-write permissions.
    pub fn new() -> (d: Self)
        ensures
            d.wf(),
            d.entries() == Map::<Seq<char>, VfsSnapshotNode>::empty(),
            d.perms() == (Permissions { bits: 3 }),
            d@ == replay(Seq::empty()),
    {
        let d = VfsSnapshotDir { children: Vec::new(), permissions: Permissions::read_write() };
        assert(d@.0 =~= Map::<Seq<char>, SnapshotView>::empty());
        assert(entry_map(d.children@) =~= Map::<Seq<char>, VfsSnapshotNode>::empty());
        d
    }

    /// Adds `value` as `name`, replacing an earlier entry of that name.
    pub fn add(self, name: &str, value: VfsSnapshotNode) -> (d: Self)
        requires
            self.wf(),
        ensures
            d.wf(),
            d.entries() == self.entries().insert(name@, value),
            d.perms() == self.perms(),
            d@ == apply_step(self@, BuildStep::Entry(name@, value.snapshot_view())),
    {
        let ghost sv = value.snapshot_view();
        let mut children = self.children;
        insert_entry(&mut children, SnapshotEntry { name: name.to_owned(), node: value });
        let d = VfsSnapshotDir { children, permissions: self.permissions };
        assert(d@.0 =~= self@.0.insert(name@, sv));
        d
    }

    /// Adds an empty file as `name`.
    pub fn empty_file(self, name: &str) -> (d: Self)
        requires
            self.wf(),
        ensures
            d.wf(),
            d.entries().dom() == self.entries().dom().insert(name@),
            d.entries()[name@].snapshot_view() == SnapshotView::File(Seq::empty(), Permissions { bits: 3 }),
            forall|k: Seq<char>| k != name@ && self.entries().contains_key(k) ==> #[trigger] d.entries()[k] == self.entries()[k],
            d.perms() == self.perms(),
            d@ == apply_step(self@, BuildStep::Entry(name@, SnapshotView::File(Seq::empty(), Permissions { bits: 3 }))),
    {
        self.add(name, VfsSnapshotNode::empty_file())
    }

    /// Adds a file holding `value` as `name`.
    pub fn file(self, name: &str, value: &[u8]) -> (d: Self)
        requires
            self.wf(),
        ensures
            d.wf(),
            d.entries().dom() == self.entries().dom().insert(name@),
            d.entries()[name@].snapshot_view() == SnapshotView::File(value@, Permissions { bits: 3 }),
            forall|k: Seq<char>| k != name@ && self.entries().contains_key(k) ==> #[trigger] d.entries()[k] == self.entries()[k],
            d.perms() == self.perms(),
            d@ == apply_step(self@, BuildStep::Entry(name@, SnapshotView::File(value@, Permissions { bits: 3 }))),
    {
        self.add(name, VfsSnapshotNode::file(value))
    }

    /// Sets the permissions of the directory.
    pub fn permissions(self, permissions: Permissions) -> (d: Self)
        ensures
            d.wf() == self.wf(),
            d.entries() == self.entries(),
            d.perms() == permissions,
            d@ == apply_step(self@, BuildStep::Perms(permissions)),
    {
        VfsSnapshotDir { children: self.children, permissions }
    }

    /// The finished directory node.
    pub fn build(self) -> (n: VfsSnapshotNode)
        ensures
            n == self.built(),
            self.wf() ==> n.snapshot_view() == SnapshotView::Directory(self@.0, self@.1),
            n matches VfsSnapshotNode::Directory { children, permissions } && entry_map(children@) == self.entries()
                && permissions == self.perms() && (self.wf() ==> sorted_entries(children@)),
    {
        proof {
            if self.wf() {
                lemma_sorted_distinct(self.children@);
                lemma_directory_view(self.children@, self.permissions);
            }
        }
        VfsSnapshotNode::Directory { children: self.children, permissions: self.permissions }
    }
}

impl VfsSnapshotNode {
    /// A new directory builder.
    pub fn directory() -> (d: VfsSnapshotDir)
        ensures
            d.wf(),
            d.entries() == Map::<Seq<char>, VfsSnapshotNode>::empty(),
            d.perms() == (Permissions { bits: 3 }),
            d@ == replay(Seq::empty()),
    {
        VfsSnapshotDir::new()
    }

    /// An empty directory with read-write permissions.
    pub fn empty_dir() -> (n: Self)
        ensures
            n matches VfsSnapshotNode::Directory { children, permissions } && children@.len() == 0 && permissions == (Permissions { bits: 3 }),
    {
        VfsSnapshotNode::Directory { children: Vec::new(), permissions: Permissions::read_write() }
    }

    /// A file holding `data`, with read-write permissions.
    pub fn file(data: &[u8]) -> (n: Self)
        ensures
            n.snapshot_view() == SnapshotView::File(data@, Permissions { bits: 3 }),
    {
        VfsSnapshotNode::File { data: vstd::slice::slice_to_vec(data), permissions: Permissions::read_write() }
    }

    /// An empty file with read-write permissions.
    pub fn empty_file() -> (n: Self)
        ensures
            n.snapshot_view() == SnapshotView::File(Seq::empty(), Permissions { bits: 3 }),
    {
        VfsSnapshotNode::File { data: Vec::new(), permissions: Permissions::read_write() }
    }

    /// The same node with other permissions.
    pub fn permissions(self, permissions: Permissions) -> (n: Self)
        ensures
            match (self, n) {
                (VfsSnapshotNode::File { data: d1, .. }, VfsSnapshotNode::File { data: d2, permissions: p }) => d1 == d2 && p == permissions,
                (VfsSnapshotNode::Directory { children: c1, .. }, VfsSnapshotNode::Directory { children: c2, permissions: p }) => c1 == c2 && p == permissions,
                _ => false,
            },
    {
        match self {
            VfsSnapshotNode::Directory { children, .. } => VfsSnapshotNode::Directory { children, permissions },
            VfsSnapshotNode::File { data, .. } => VfsSnapshotNode::File { data, permissions },
        }
    }
}

impl Default for VfsSnapshotDir {
    /// An empty directory builder with read-write permissions.
    fn default() -> (d: Self)
        ensures
            d.wf(),
            d.entries() == Map::<Seq<char>, VfsSnapshotNode>::empty(),
            d.perms() == (Permissions { bits: 3 }),
            d@ == replay(Seq::empty()),
    {
        VfsSnapshotDir::new()
    }
}

impl From<VfsSnapshotDir> for VfsSnapshotNode {
    /// The directory the builder builds, as `build` gives it.
    fn from(d: VfsSnapshotDir) -> (n: Self)
        ensures
            n == d.built(),
            d.wf() ==> n.snapshot_view() == SnapshotView::Directory(d@.0, d@.1),
            n matches VfsSnapshotNode::Directory { children, permissions } && entry_map(children@) == d.entries()
                && permissions == d.perms() && (d.wf() ==> sorted_entries(children@)),
    {
        d.build()
    }
}

impl vstd::std_specs::convert::FromSpecImpl<VfsSnapshotDir> for VfsSnapshotNode {
    open spec fn obeys_from_spec() -> bool {
        true
    }

    open spec fn from_spec(d: VfsSnapshotDir) -> Self {
        d.built()
    }
}

/// The in-memory file system's name for a snapshot node.
pub type ImfsSnapshotNode = VfsSnapshotNode;

/// The in-memory file system's name for a snapshot directory builder.
pub type ImfsDirectoryBuilder = VfsSnapshotDir;

} // verus!
