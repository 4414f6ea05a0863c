//! Directory entries, and the walk of a tree of the in-memory file system
//! that visits every directory's entries in ascending name order.

use vstd::prelude::*;
use crate::error::FsError;
use crate::fs::InMemoryFs;
use crate::inner::ImfsNodeOperation;
use crate::model::{check, resolve, node_metadata};
use crate::names::{name_lt, compare_names, NameOrder, lemma_name_order};
use crate::node::{DirEntryRecord, Entries, Node, NodeId};
use crate::path::{names, names_of, path_names, normalized, resolve_path, join, unix_joined, unix_components, unix_components_of, ComponentView, PathComponent};
use crate::store::StoreView;
use crate::vfs::{VfsMetadata, VfsNodeType};

verus! {

/// The final component of the Unix path `path`, when it is a normal one
/// (what `Utf8UnixPath::file_name` gives).
pub open spec fn file_name_of(path: Seq<char>) -> Option<Seq<char>> {
    let cs = unix_components_of(path);
    if cs.len() == 0 {
        None
    } else {
        match cs.last() {
            ComponentView::Normal(s) => Some(s),
            _ => None,
        }
    }
}

/// The type of the node at the Unix path `path`, found from the root.
pub open spec fn entry_type(s: StoreView, root: NodeId, path: Seq<char>) -> Result<VfsNodeType, FsError> {
    match resolve(s, root, names_of(path)) {
        Err(e) => Err(e),
        Ok(id) => match node_metadata(s, id) {
            Err(e) => Err(e),
            Ok(m) => Ok(m.ty),
        },
    }
}

/// An entry found by listing or walking a directory: its path, and how
/// many levels below the starting point it lies.
#[derive(Debug)]
pub struct ImfsDirEntry {
    pub depth: usize,
    pub path: String,
}

impl ImfsDirEntry {
    /// An entry directly in the listed directory.
    pub fn base(path: String) -> (e: Self)
        ensures
            e.depth == 0,
            e.path@ == path@,
    {
        ImfsDirEntry { depth: 0, path }
    }

    /// An entry `depth` levels below the starting point of a walk.
    pub fn nested(depth: usize, path: String) -> (e: Self)
        ensures
            e.depth == depth,
            e.path@ == path@,
    {
        ImfsDirEntry { depth, path }
    }

    /// How many levels below the starting point the entry lies.
    pub fn depth(&self) -> (d: usize)
        ensures
            d == self.depth,
    {
        self.depth
    }

    /// The entry's path.
    pub fn path(&self) -> (p: &str)
        ensures
            p@ == self.path@,
    {
        self.path.as_str()
    }

    /// The entry's name: the final component of its path.
    pub fn file_name(&self) -> (r: Result<String, FsError>)
        ensures
            match file_name_of(self.path@) {
                Some(n) => r matches Ok(s) && s@ == n,
                None => r matches Err(e) && e == FsError::MissingFileName,
            },
    {
        let cs = unix_components(self.path.as_str());
        let k = cs.len();
        if k == 0 {
            return Err(FsError::MissingFileName);
        }
        proof {
            assert(cs@.map_values(|c: PathComponent| c@)[k - 1] == cs@[k - 1]@);
        }
        match &cs[k - 1] {
            PathComponent::Normal(s) => Ok(s.clone()),
            _ => Err(FsError::MissingFileName),
        }
    }

    /// The metadata of the node at the entry's path.
    pub fn metadata(&self, fs: &InMemoryFs) -> (r: Result<VfsMetadata, FsError>)
        ensures
            r == match resolve(fs@.store, fs@.root, names_of(self.path@)) {
                Err(e) => Err(e),
                Ok(id) => node_metadata(fs@.store, id),
            },
    {
        proof {
            fs.lemma_view_of_inner();
        }
        let ns = names(self.path.as_str());
        let id = fs.inner.find_node_id(&ns)?;
        fs.node_metadata(id)
    }

    /// The type of the node at the entry's path.
    pub fn node_type(&self, fs: &InMemoryFs) -> (r: Result<VfsNodeType, FsError>)
        ensures
            r == entry_type(fs@.store, fs@.root, self.path@),
    {
        let m = self.metadata(fs)?;
        Ok(m.ty)
    }
}

/// Entries as names and nodes.
pub open spec fn pair_views(t: Seq<(String, NodeId)>) -> Entries {
    t.map_values(|p: (String, NodeId)| (p.0@, p.1))
}

/// Whether the names of `t` never decrease.
pub open spec fn names_ascending(t: Entries) -> bool {
    forall|i: int, j: int| 0 <= i < j < t.len() ==> !name_lt(#[trigger] t[j].0, #[trigger] t[i].0)
}

/// Whether `t` holds the entries `e` sorted by name.
pub open spec fn sorted_by_name(t: Entries, e: Entries) -> bool {
    names_ascending(t) && t.to_multiset() == e.to_multiset()
}

/// Two sequences with names in ascending order and the same entries, in
/// which a name determines its entry, are the same sequence.
proof fn lemma_ascending_same_entries(t1: Entries, t2: Entries)
    requires
        names_ascending(t1),
        names_ascending(t2),
        t1.to_multiset() == t2.to_multiset(),
        forall|a: (Seq<char>, NodeId), b: (Seq<char>, NodeId)|
            t1.contains(a) && t1.contains(b) && a.0 == b.0 ==> a == b,
    ensures
        t1 == t2,
    decreases t1.len(),
{
    broadcast use vstd::seq_lib::group_to_multiset_ensures;
    vstd::seq_lib::to_multiset_len(t1);
    vstd::seq_lib::to_multiset_len(t2);
    assert(t1.len() == t2.len());
    if t1.len() > 0 {
        let x = t1[0];
        let y = t2[0];
        assert(t1.to_multiset().count(x) > 0);
        assert(t2.contains(x));
        let j = choose|j: int| 0 <= j < t2.len() && t2[j] == x;
        assert(t2.to_multiset().count(y) > 0);
        assert(t1.contains(y));
        let i = choose|i: int| 0 <= i < t1.len() && t1[i] == y;
        if j > 0 {
            assert(!name_lt(t2[j].0, t2[0].0));
        }
        if i > 0 {
            assert(!name_lt(t1[i].0, t1[0].0));
        }
        lemma_name_order(x.0, y.0, y.0);
        assert(x.0 == y.0);
        assert(t1.contains(x));
        assert(x == y);
        let d1 = t1.remove(0);
        let d2 = t2.remove(0);
        assert(d1.to_multiset() == t1.to_multiset().remove(x));
        assert(d2.to_multiset() == t2.to_multiset().remove(y));
        assert forall|a: int, b: int| 0 <= a < b < d1.len() implies !name_lt(#[trigger] d1[b].0, #[trigger] d1[a].0) by {
            assert(d1[a] == t1[a + 1]);
            assert(d1[b] == t1[b + 1]);
        }
        assert forall|a: int, b: int| 0 <= a < b < d2.len() implies !name_lt(#[trigger] d2[b].0, #[trigger] d2[a].0) by {
            assert(d2[a] == t2[a + 1]);
            assert(d2[b] == t2[b + 1]);
        }
        assert forall|a: (Seq<char>, NodeId), b: (Seq<char>, NodeId)|
            d1.contains(a) && d1.contains(b) && a.0 == b.0 implies a == b by {
            let ia = choose|k: int| 0 <= k < d1.len() && d1[k] == a;
            let ib = choose|k: int| 0 <= k < d1.len() && d1[k] == b;
            assert(t1[ia + 1] == a);
            assert(t1[ib + 1] == b);
            assert(t1.contains(a));
            assert(t1.contains(b));
        }
        lemma_ascending_same_entries(d1, d2);
        assert(t1 =~= t2) by {
            assert forall|k: int| 0 <= k < t1.len() implies t1[k] == t2[k] by {
                if k > 0 {
                    assert(t1[k] == d1[k - 1]);
                    assert(t2[k] == d2[k - 1]);
                }
            }
        }
    }
}

/// Sorting entries whose names are distinct by name has one outcome, so a
/// walk takes a directory's entries in exactly one order.
pub proof fn law_sorted_by_name_unique(t1: Entries, t2: Entries, e: Entries)
    requires
        crate::laws::distinct_names(e),
        sorted_by_name(t1, e),
        sorted_by_name(t2, e),
    ensures
        t1 == t2,
{
    broadcast use vstd::seq_lib::group_to_multiset_ensures;
    assert forall|a: (Seq<char>, NodeId), b: (Seq<char>, NodeId)|
        t1.contains(a) && t1.contains(b) && a.0 == b.0 implies a == b by {
        assert(t1.to_multiset().count(a) > 0);
        assert(t1.to_multiset().count(b) > 0);
        assert(e.contains(a));
        assert(e.contains(b));
        let ia = choose|k: int| 0 <= k < e.len() && e[k] == a;
        let ib = choose|k: int| 0 <= k < e.len() && e[k] == b;
        if ia < ib {
            assert(e[ia].0 != e[ib].0);
        } else if ib < ia {
            assert(e[ib].0 != e[ia].0);
        }
    }
    lemma_ascending_same_entries(t1, t2);
}

proof fn lemma_insert_ascending(t: Entries, k: int, x: (Seq<char>, NodeId))
    requires
        names_ascending(t),
        0 <= k <= t.len(),
        forall|j: int| 0 <= j < k ==> !name_lt(x.0, #[trigger] t[j].0),
        k < t.len() ==> name_lt(x.0, t[k].0),
    ensures
        names_ascending(t.insert(k, x)),
{
    let u = t.insert(k, x);
    assert forall|i: int, j: int| 0 <= i < j < u.len() implies !name_lt(#[trigger] u[j].0, #[trigger] u[i].0) by {
        if j < k {
            assert(u[i] == t[i] && u[j] == t[j]);
        } else if j == k {
            assert(u[j] == x && u[i] == t[i]);
        } else if i < k {
            assert(u[i] == t[i] && u[j] == t[j - 1]);
            lemma_name_order(t[i].0, t[i].0, t[i].0);
        } else if i == k {
            assert(u[i] == x && u[j] == t[j - 1]);
            lemma_name_order(t[j - 1].0, x.0, t[k].0);
            lemma_name_order(t[k].0, t[k].0, t[k].0);
        } else {
            assert(u[i] == t[i - 1] && u[j] == t[j - 1]);
        }
    }
}

/// The entries of a directory, sorted by name (equal names keep their order).
fn sort_by_name(children: &Vec<DirEntryRecord>) -> (r: Vec<(String, NodeId)>)
    ensures
        sorted_by_name(pair_views(r@), children@.map_values(|c: DirEntryRecord| (c.name@, c.id))),
{
    let ghost es = children@.map_values(|c: DirEntryRecord| (c.name@, c.id));
    let mut out: Vec<(String, NodeId)> = Vec::new();
    let mut i: usize = 0;
    assert(pair_views(out@) =~= Seq::<(Seq<char>, NodeId)>::empty());
    assert(es.take(0) =~= Seq::<(Seq<char>, NodeId)>::empty());
    while i < children.len()
        invariant
            0 <= i <= children@.len(),
            es == children@.map_values(|c: DirEntryRecord| (c.name@, c.id)),
            names_ascending(pair_views(out@)),
            pair_views(out@).to_multiset() == es.take(i as int).to_multiset(),
        decreases children@.len() - i,
    {
        let name = &children[i].name;
        let mut k: usize = 0;
        while k < out.len()
            invariant_except_break
                0 <= k <= out@.len(),
                forall|j: int| 0 <= j < k ==> !name_lt(name@, #[trigger] pair_views(out@)[j].0),
            ensures
                0 <= k <= out@.len(),
                forall|j: int| 0 <= j < k ==> !name_lt(name@, #[trigger] pair_views(out@)[j].0),
                k < out@.len() ==> name_lt(name@, pair_views(out@)[k as int].0),
            decreases out@.len() - k,
        {
            let less = match compare_names(name.as_str(), out[k].0.as_str()) {
                NameOrder::Less => true,
                _ => false,
            };
            if less {
                break;
            }
            k = k + 1;
        }
        let ghost before = pair_views(out@);
        let item = (children[i].name.clone(), children[i].id);
        let ghost xv = (item.0@, item.1);
        out.insert(k, item);
        proof {
            assert(pair_views(out@) =~= before.insert(k as int, xv));
            lemma_insert_ascending(before, k as int, xv);
            assert(xv == es[i as int]);
            assert(es.take(i + 1) =~= es.take(i as int).push(es[i as int]));
            vstd::seq_lib::to_multiset_insert(before, k as int, xv);
            vstd::seq_lib::to_multiset_build(es.take(i as int), es[i as int]);
        }
        i = i + 1;
    }
    assert(es.take(children@.len() as int) =~= es);
    out
}

/// A part of a tree still to visit, as the specifications see it: a node,
/// its depth, its name (none for the starting point) and the path of the
/// directory it is in (its own path for the starting point).
pub struct WalkFrame {
    pub id: NodeId,
    pub depth: usize,
    pub name: Option<Seq<char>>,
    pub parent: Seq<char>,
}

/// The path of the node a frame stands for.
pub open spec fn frame_path(f: WalkFrame) -> Seq<char> {
    match f.name {
        Some(n) => unix_joined(f.parent, n),
        None => f.parent,
    }
}

/// The frames for the sorted entries `t` of the directory at `path` and
/// `depth`, the last name first, so that the first name is visited first.
pub open spec fn child_frames(t: Entries, depth: usize, path: Seq<char>) -> Seq<WalkFrame> {
    t.reverse().map_values(|c: (Seq<char>, NodeId)| WalkFrame { id: c.1, depth: (depth + 1) as usize, name: Some(c.0), parent: path })
}

/// What visiting the frame `f` (whose path is `p`) leaves to visit, given
/// that `rest` was left before it: a readable directory's entries are added
/// in name order; a file adds nothing; an error is kept for the next step.
pub open spec fn expanded(s: StoreView, f: WalkFrame, p: Seq<char>, rest: Seq<WalkFrame>, frames: Seq<WalkFrame>, deferred: Option<FsError>) -> bool {
    match s.lookup(f.id) {
        Err(e) => frames == rest && deferred == Some(e),
        Ok(n) => if !n.is_dir() {
            frames == rest && deferred is None
        } else {
            match check(s, f.id, false) {
                Err(e) => frames == rest && deferred == Some(e),
                Ok(_) => if f.depth == usize::MAX {
                    frames == rest && deferred == Some(FsError::DepthExceeded)
                } else {
                    &&& deferred is None
                    &&& exists|t: Entries| sorted_by_name(t, n.entries()) && frames == rest + child_frames(t, f.depth, p)
                },
            }
        },
    }
}

#[derive(Debug)]
struct StackNode {
    id: NodeId,
    depth: usize,
    name: Option<String>,
    parent_path: String,
}

impl StackNode {
    spec fn frame(&self) -> WalkFrame {
        WalkFrame {
            id: self.id,
            depth: self.depth,
            name: match self.name {
                Some(n) => Some(n@),
                None => None,
            },
            parent: self.parent_path@,
        }
    }
}

/// A walk of a directory tree (or of a single file), one entry per step:
/// the starting point first, then every directory's entries in ascending
/// name order, each followed by what lies below it.
#[derive(Debug)]
pub struct ImfsWalkDir {
    stack: Vec<StackNode>,
    deferred_error: Option<FsError>,
}

impl ImfsWalkDir {
    /// The frames still to visit; the last is visited next.
    pub closed spec fn frames(&self) -> Seq<WalkFrame> {
        self.stack@.map_values(|n: StackNode| n.frame())
    }

    /// The error the next step reports, if any.
    pub closed spec fn deferred(&self) -> Option<FsError> {
        self.deferred_error
    }

    /// A walk from `root`, which must lead to a readable node.
    pub fn new(fs: &InMemoryFs, root: &str) -> (r: Result<Self, FsError>)
        ensures
            match path_names(root@) {
                Err(e) => r matches Err(e2) && e2 == e,
                Ok(ns) => match resolve(fs@.store, fs@.root, ns) {
                    Err(e) => r matches Err(e2) && e2 == e,
                    Ok(id) => match check(fs@.store, id, false) {
                        Err(e) => r matches Err(e2) && e2 == e,
                        Ok(_) => r matches Ok(w) && w.deferred() is None
                            && w.frames() == seq![WalkFrame { id, depth: 0, name: None, parent: normalized(root@)->Ok_0 }],
                    },
                },
            },
    {
        proof {
            fs.lemma_view_of_inner();
        }
        let (p, ns) = resolve_path(root)?;
        let id = fs.inner.find_node_id(&ns)?;
        fs.inner.check_perms(id, ImfsNodeOperation::Read)?;
        let w = ImfsWalkDir { stack: vec![StackNode { id, depth: 0, name: None, parent_path: p }], deferred_error: None };
        assert(w.frames() =~= seq![WalkFrame { id, depth: 0, name: None, parent: normalized(root@)->Ok_0 }]);
        Ok(w)
    }

    /// Adds the entries of the directory `id`, found at `depth` and `path`.
    fn populate(&mut self, fs: &InMemoryFs, id: NodeId, depth: usize, path: String) -> (r: Result<(), FsError>)
        ensures
            final(self).deferred_error == old(self).deferred_error,
            expanded(
                fs@.store,
                WalkFrame { id, depth, name: None, parent: path@ },
                path@,
                old(self).frames(),
                final(self).frames(),
                match r {
                    Ok(_) => None,
                    Err(e) => Some(e),
                },
            ),
    {
        proof {
            fs.lemma_view_of_inner();
        }
        let node = fs.inner.nodes.get(id)?;
        let dir = match node {
            Node::Directory(d) => d,
            Node::File(_) => return Ok(()),
        };
        fs.inner.check_perms(id, ImfsNodeOperation::Read)?;
        let entries = sort_by_name(&dir.children);
        if depth == usize::MAX {
            return Err(FsError::DepthExceeded);
        }
        let d = depth + 1;
        let ghost rest = self.frames();
        let ghost t = pair_views(entries@);
        let ghost cf = child_frames(t, depth, path@);
        let mut k = entries.len();
        while k > 0
            invariant
                0 <= k <= entries@.len(),
                t == pair_views(entries@),
                cf == child_frames(t, depth, path@),
                d == depth + 1,
                self.deferred_error == old(self).deferred_error,
                self.frames() == rest + cf.take(entries@.len() - k),
            decreases k,
        {
            k = k - 1;
            let ghost before = self.frames();
            self.stack.push(StackNode { id: entries[k].1, depth: d, name: Some(entries[k].0.clone()), parent_path: path.clone() });
            proof {
                assert(cf[entries@.len() - 1 - k] == WalkFrame { id: t[k as int].1, depth: d, name: Some(t[k as int].0), parent: path@ });
                assert(cf.take(entries@.len() - k) =~= cf.take(entries@.len() - 1 - k).push(cf[entries@.len() - 1 - k]));
                assert(self.frames() =~= before.push(cf[entries@.len() - 1 - k]));
            }
        }
        assert(cf.take(entries@.len() as int) =~= cf);
        assert(sorted_by_name(t, node@.entries()) && self.frames() == rest + child_frames(t, depth, path@));
        Ok(())
    }

    /// The next entry of the walk: a kept error first, else the last frame,
    /// whose node's entries (if it is a readable directory) are added;
    /// `None` once everything has been visited.
    pub fn next(&mut self, fs: &InMemoryFs) -> (r: Option<Result<ImfsDirEntry, FsError>>)
        ensures
            match old(self).deferred() {
                Some(e) => {
                    &&& r matches Some(Err(e2)) && e2 == e
                    &&& final(self).deferred() is None
                    &&& final(self).frames() == old(self).frames()
                },
                None => if old(self).frames().len() == 0 {
                    &&& r is None
                    &&& final(self).deferred() is None
                    &&& final(self).frames() == old(self).frames()
                } else {
                    let f = old(self).frames().last();
                    &&& r matches Some(Ok(d)) && d.depth == f.depth && d.path@ == frame_path(f)
                    &&& expanded(fs@.store, f, frame_path(f), old(self).frames().drop_last(), final(self).frames(), final(self).deferred())
                },
            },
    {
        match self.deferred_error {
            Some(e) => {
                self.deferred_error = None;
                return Some(Err(e));
            },
            None => {},
        }
        let ghost fr = self.frames();
        let node = match self.stack.pop() {
            Some(n) => n,
            None => {
                return None;
            },
        };
        proof {
            assert(self.frames() =~= fr.drop_last());
            assert(node.frame() == fr.last());
        }
        let path = match &node.name {
            Some(name) => join(node.parent_path.as_str(), name.as_str()),
            None => node.parent_path.clone(),
        };
        let populated = self.populate(fs, node.id, node.depth, path.clone());
        match populated {
            Ok(_) => {},
            Err(e) => {
                self.deferred_error = Some(e);
            },
        }
        Some(Ok(ImfsDirEntry::nested(node.depth, path)))
    }
}

impl InMemoryFs {
    /// The entries of the readable directory at `path`, in the directory's
    /// order; an entry that cannot be read is reported as its error.
    pub fn read_dir(&self, path: &str) -> (r: Result<Vec<Result<ImfsDirEntry, FsError>>, FsError>)
        requires
            self.wf(),
        ensures
            match path_names(path@) {
                Err(e) => r matches Err(e2) && e2 == e,
                Ok(ns) => match crate::model::read_dir(self@.store, self@.root, ns) {
                    Err(e) => r matches Err(e2) && e2 == e,
                    Ok(entries) => r matches Ok(v) && v@.len() == entries.len() && forall|k: int| 0 <= k < entries.len() ==>
                        match check(self@.store, entries[k].1, false) {
                            Err(e) => #[trigger] v@[k] matches Err(e2) && e2 == e,
                            Ok(_) => v@[k] matches Ok(d) && d.depth == 0 && d.path@ == unix_joined(normalized(path@)->Ok_0, entries[k].0),
                        },
                },
            },
    {
        proof {
            self.lemma_view_of_inner();
        }
        let (p, ns) = resolve_path(path)?;
        let (node, id) = self.inner.find_node(&ns)?;
        let dir = node.as_dir()?;
        self.inner.check_perms(id, ImfsNodeOperation::Read)?;
        let ghost es = dir.entries();
        let mut out: Vec<Result<ImfsDirEntry, FsError>> = Vec::new();
        let mut k: usize = 0;
        while k < dir.children.len()
            invariant
                0 <= k <= dir.children@.len(),
                es == dir.entries(),
                es.len() == dir.children@.len(),
                out@.len() == k,
                forall|j: int| 0 <= j < k ==>
                    match check(self@.store, es[j].1, false) {
                        Err(e) => #[trigger] out@[j] matches Err(e2) && e2 == e,
                        Ok(_) => out@[j] matches Ok(d) && d.depth == 0 && d.path@ == unix_joined(p@, es[j].0),
                    },
            decreases dir.children@.len() - k,
        {
            let child = &dir.children[k];
            proof {
                self.lemma_view_of_inner();
                assert(es[k as int] == (child.name@, child.id));
            }
            let entry = match self.inner.check_perms(child.id, ImfsNodeOperation::Read) {
                Ok(_) => Ok(ImfsDirEntry::base(join(p.as_str(), child.name.as_str()))),
                Err(e) => Err(e),
            };
            let ghost before = out@;
            out.push(entry);
            assert(forall|j: int| 0 <= j < k ==> out@[j] == before[j]);
            k = k + 1;
        }
        Ok(out)
    }

    /// A walk of the tree at `root`, which must lead to a readable node.
    pub fn walkdir(&self, root: &str) -> (r: Result<ImfsWalkDir, FsError>)
        ensures
            match path_names(root@) {
                Err(e) => r matches Err(e2) && e2 == e,
                Ok(ns) => match resolve(self@.store, self@.root, ns) {
                    Err(e) => r matches Err(e2) && e2 == e,
                    Ok(id) => match check(self@.store, id, false) {
                        Err(e) => r matches Err(e2) && e2 == e,
                        Ok(_) => r matches Ok(w) && w.deferred() is None
                            && w.frames() == seq![WalkFrame { id, depth: 0, name: None, parent: normalized(root@)->Ok_0 }],
                    },
                },
            },
    {
        ImfsWalkDir::new(self, root)
    }
}

} // verus!
