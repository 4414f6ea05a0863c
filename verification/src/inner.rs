//! The in-memory file system's operations on paths given as their
//! sequence of names below the root.

use vstd::prelude::*;
use std::collections::VecDeque;
use crate::error::FsError;
use crate::model::{views, inherit_walk, child_ids, descendants_walk, remove_each, resolve, find, permissions_from, effective_permissions, check, add_node, rw};
use crate::node::{Node, DirectoryNode, NodeId, NodeView, NodePermissions, entries_insert};
use crate::store::{NodeStore, StoreView, lemma_insert_keeps_live, lemma_with_node_wf, lemma_with_node_lookup};
use crate::vfs::{Permissions, VfsMetadata};
use crate::path::{unix_file_name, unix_parent, unix_file_name_of, unix_parent_of};

verus! {

/// The operation a permission check is for.
#[derive(Clone, Copy, Debug, PartialEq, Eq, Structural)]
pub enum ImfsNodeOperation {
    /// Checks whether a node can be read.
    Read,
    /// Checks whether a node can be written.
    Write,
}

impl ImfsNodeOperation {
    pub open spec fn is_write(self) -> bool {
        self is Write
    }
}

/// Once a prefix of the names fails to resolve, every longer prefix fails
/// with the same error.
pub proof fn lemma_resolve_error_persists(s: StoreView, root: NodeId, names: Seq<Seq<char>>, k: nat, m: nat)
    requires
        k <= m <= names.len(),
    ensures
        resolve(s, root, names.take(k as int)) is Err ==> resolve(s, root, names.take(m as int)) == resolve(s, root, names.take(k as int)),
    decreases m - k,
{
    if k < m {
        lemma_resolve_error_persists(s, root, names, k, (m - 1) as nat);
        assert(names.take(m as int).drop_last() =~= names.take(m - 1));
    }
}

/// Once `create_dir_all` fails on a prefix of the names, it fails the same
/// way, leaving the same store, on every longer prefix.
pub proof fn lemma_create_dir_all_error_persists(s: StoreView, root: NodeId, names: Seq<Seq<char>>, k: nat, m: nat)
    requires
        k <= m <= names.len(),
    ensures
        crate::model::create_dir_all(s, root, names, k).1 is Err ==>
            crate::model::create_dir_all(s, root, names, m) == crate::model::create_dir_all(s, root, names, k),
    decreases m - k,
{
    if k < m {
        lemma_create_dir_all_error_persists(s, root, names, k, (m - 1) as nat);
    }
}

/// Appends the handles of `dir`'s entries, in order, to `v`.
fn push_child_ids(dir: &DirectoryNode, v: &mut Vec<NodeId>)
    ensures
        final(v)@ == old(v)@ + child_ids(Node::Directory(*dir)@),
{
    let ghost ids = child_ids(Node::Directory(*dir)@);
    let mut k: usize = 0;
    while k < dir.children.len()
        invariant
            0 <= k <= dir.children@.len(),
            ids == child_ids(Node::Directory(*dir)@),
            ids.len() == dir.children@.len(),
            v@ == old(v)@ + ids.take(k as int),
        decreases dir.children@.len() - k,
    {
        v.push(dir.children[k].id);
        proof {
            assert(ids[k as int] == dir.children@[k as int].id);
            assert(old(v)@ + ids.take(k + 1) =~= (old(v)@ + ids.take(k as int)).push(ids[k as int]));
        }
        k = k + 1;
    }
    assert(ids.take(k as int) =~= ids);
}

/// Appends the handles of `dir`'s entries, in order, to the back of `q`.
fn push_child_ids_back(dir: &DirectoryNode, q: &mut VecDeque<NodeId>)
    ensures
        final(q)@ == old(q)@ + child_ids(Node::Directory(*dir)@),
{
    let ghost ids = child_ids(Node::Directory(*dir)@);
    let mut k: usize = 0;
    while k < dir.children.len()
        invariant
            0 <= k <= dir.children@.len(),
            ids == child_ids(Node::Directory(*dir)@),
            ids.len() == dir.children@.len(),
            q@ == old(q)@ + ids.take(k as int),
        decreases dir.children@.len() - k,
    {
        q.push_back(dir.children[k].id);
        proof {
            assert(ids[k as int] == dir.children@[k as int].id);
            assert(old(q)@ + ids.take(k + 1) =~= (old(q)@ + ids.take(k as int)).push(ids[k as int]));
        }
        k = k + 1;
    }
    assert(ids.take(k as int) =~= ids);
}

/// Whether two name sequences are equal.
fn same_names(a: &[String], b: &[String]) -> (r: bool)
    ensures
        r == (views(a@) == views(b@)),
{
    if a.len() != b.len() {
        assert(views(a@).len() != views(b@).len());
        return false;
    }
    let mut i: usize = 0;
    while i < a.len()
        invariant
            0 <= i <= a@.len(),
            a@.len() == b@.len(),
            forall|k: int| 0 <= k < i ==> a@[k]@ == b@[k]@,
        decreases a@.len() - i,
    {
        if a[i] != b[i] {
            assert(views(a@)[i as int] != views(b@)[i as int]);
            return false;
        }
        i = i + 1;
    }
    assert(views(a@) =~= views(b@));
    true
}

/// The state of an in-memory file system: its nodes, its root directory
/// and its current directory.
pub struct ImfsInner {
    /// The current directory, an absolute normalized Unix path.
    pub current_dir: String,
    /// Storage for all nodes.
    pub nodes: NodeStore,
    /// Handle to the root directory.
    pub root: NodeId,
}

impl ImfsInner {
    /// The invariant: the node store's.
    pub open spec fn wf(&self) -> bool {
        self.nodes@.wf()
    }

    /// A file system holding only an empty root directory.
    pub fn empty() -> (fs: Self)
        ensures
            fs.wf(),
            fs.nodes@.slots.len() == 1,
            fs.nodes@.free.len() == 0,
            fs.root == (NodeId { index: 0, generation: 0 }),
            fs.nodes@.lookup(fs.root) == Ok::<NodeView, FsError>(NodeView::new_dir(None)),
            fs.current_dir@ == seq!['/'],
    {
        let mut nodes = NodeStore::new();
        let root = match nodes.insert(Node::empty_dir()) {
            Ok(id) => id,
            Err(_) => {
                assert(false);
                NodeId { index: 0, generation: 0 }
            },
        };
        let slash = "/";
        proof {
            reveal_strlit("/");
        }
        let current_dir = slash.to_owned();
        ImfsInner { current_dir, nodes, root }
    }

    /// Splits the Unix path `target` into its parent directory (the root
    /// when it has none) and its final name, when that is a normal
    /// component.
    pub fn get_file_name(&self, target: &str) -> (r: (String, Option<String>))
        ensures
            r.0@ == match unix_parent_of(target@) {
                Some(p) => p,
                None => seq!['/'],
            },
            match r.1 {
                Some(n) => unix_file_name_of(target@) == Some(n@),
                None => unix_file_name_of(target@) is None,
            },
    {
        let name = unix_file_name(target);
        let parent = match unix_parent(target) {
            Some(p) => p,
            None => {
                let slash = "/";
                proof {
                    reveal_strlit("/");
                }
                slash.to_owned()
            },
        };
        (parent, name)
    }

    /// Splits the Unix path `target` into its parent directory (the root
    /// when it has none) and its final name, which must be a normal
    /// component.
    pub fn require_file_name(&self, target: &str) -> (r: Result<(String, String), FsError>)
        ensures
            match r {
                Ok((p, n)) => {
                    &&& unix_file_name_of(target@) == Some(n@)
                    &&& p@ == match unix_parent_of(target@) {
                        Some(q) => q,
                        None => seq!['/'],
                    }
                },
                Err(e) => e == FsError::NoFileName && unix_file_name_of(target@) is None,
            },
    {
        let (parent, name) = self.get_file_name(target);
        match name {
            Some(n) => Ok((parent, n)),
            None => Err(FsError::NoFileName),
        }
    }

    /// The node that the first `count` names lead to; the final node is not looked up.
    pub fn find_node_id_prefix(&self, names: &[String], count: usize) -> (r: Result<NodeId, FsError>)
        requires
            count <= names@.len(),
        ensures
            r == resolve(self.nodes@, self.root, views(names@).take(count as int)),
    {
        let ghost nv = views(names@);
        let mut current = self.root;
        let mut i: usize = 0;
        assert(nv.take(0) =~= Seq::<Seq<char>>::empty());
        while i < count
            invariant
                0 <= i <= count <= names@.len(),
                nv == views(names@),
                resolve(self.nodes@, self.root, nv.take(i as int)) == Ok::<NodeId, FsError>(current),
            decreases count - i,
        {
            proof {
                assert(nv.take(i + 1).drop_last() =~= nv.take(i as int));
                assert(nv.take(i + 1).last() == names@[i as int]@);
                lemma_resolve_error_persists(self.nodes@, self.root, nv, (i + 1) as nat, count as nat);
            }
            let node = self.nodes.get(current)?;
            let dir = node.as_dir()?;
            match dir.get(&names[i]) {
                Some(child) => {
                    current = child;
                },
                None => {
                    return Err(FsError::PathNotFound);
                },
            }
            i = i + 1;
        }
        Ok(current)
    }

    /// The node that `names` leads to; the final node is not looked up.
    pub fn find_node_id(&self, names: &[String]) -> (r: Result<NodeId, FsError>)
        ensures
            r == resolve(self.nodes@, self.root, views(names@)),
    {
        let r = self.find_node_id_prefix(names, names.len());
        assert(views(names@).take(names@.len() as int) =~= views(names@));
        r
    }

    /// The node that the first `count` names lead to, looked up.
    pub fn find_node_prefix(&self, names: &[String], count: usize) -> (r: Result<(&Node, NodeId), FsError>)
        requires
            count <= names@.len(),
        ensures
            match r {
                Ok((n, id)) => find(self.nodes@, self.root, views(names@).take(count as int)) == Ok::<(NodeView, NodeId), FsError>((n@, id)),
                Err(e) => find(self.nodes@, self.root, views(names@).take(count as int)) == Err::<(NodeView, NodeId), FsError>(e),
            },
    {
        let id = self.find_node_id_prefix(names, count)?;
        let node = self.nodes.get(id)?;
        Ok((node, id))
    }

    /// The node that `names` leads to, looked up.
    pub fn find_node(&self, names: &[String]) -> (r: Result<(&Node, NodeId), FsError>)
        ensures
            match r {
                Ok((n, id)) => find(self.nodes@, self.root, views(names@)) == Ok::<(NodeView, NodeId), FsError>((n@, id)),
                Err(e) => find(self.nodes@, self.root, views(names@)) == Err::<(NodeView, NodeId), FsError>(e),
            },
    {
        assert(views(names@).take(names@.len() as int) =~= views(names@));
        self.find_node_prefix(names, names.len())
    }

    /// The effective permissions of a node: its own explicit setting
    /// intersected with those of every directory above it.
    pub fn permissions(&self, node_id: NodeId) -> (r: Result<Permissions, FsError>)
        ensures
            r == effective_permissions(self.nodes@, node_id),
    {
        let mut current = node_id;
        let mut resolved = Permissions::read_write();
        let mut fuel: usize = usize::MAX;
        assert(resolved == rw());
        loop
            invariant
                permissions_from(self.nodes@, current, resolved, fuel as nat) == effective_permissions(self.nodes@, node_id),
            decreases fuel,
        {
            let node = self.nodes.get(current)?;
            match node.permissions() {
                NodePermissions::Explicit(v) => {
                    resolved = resolved.intersection(v);
                },
                NodePermissions::Inherited => {},
            }
            match node.parent() {
                None => {
                    return Ok(resolved);
                },
                Some(p) => {
                    if fuel == 0 {
                        return Err(FsError::TooDeep);
                    }
                    fuel = fuel - 1;
                    current = p;
                },
            }
        }
    }

    /// Whether `operation` is permitted on `node_id`, given the permissions
    /// of the node and its ancestors.
    pub fn check_perms(&self, node_id: NodeId, operation: ImfsNodeOperation) -> (r: Result<(), FsError>)
        ensures
            r == check(self.nodes@, node_id, operation.is_write()),
    {
        let permissions = self.permissions(node_id)?;
        let allowed = match operation {
            ImfsNodeOperation::Read => permissions.can_read(),
            ImfsNodeOperation::Write => permissions.can_write(),
        };
        if !allowed {
            let node = self.nodes.get(node_id)?;
            return Err(match node.ty() {
                crate::vfs::VfsNodeType::Directory => FsError::DirectoryAccessDenied,
                _ => FsError::FileAccessDenied,
            });
        }
        Ok(())
    }

    /// The metadata of a node: its effective permissions, size and type.
    pub fn metadata(&self, node_id: NodeId) -> (r: Result<VfsMetadata, FsError>)
        ensures
            r == crate::model::node_metadata(self.nodes@, node_id),
    {
        let node = self.nodes.get(node_id)?;
        let permissions = self.permissions(node_id)?;
        let size = node.size();
        Ok(VfsMetadata { mode: permissions, size, ty: node.ty() })
    }

    /// Adds `node` as `name` into the live directory `parent_id`.
    pub fn add_node(&mut self, parent_id: NodeId, name: String, node: Node) -> (r: Result<NodeId, FsError>)
        requires
            old(self).wf(),
            old(self).nodes@.live(parent_id),
            old(self).nodes@.node(parent_id).is_dir(),
        ensures
            final(self).wf(),
            (final(self).nodes@, r) == add_node(old(self).nodes@, parent_id, name@, node@),
            final(self).root == old(self).root,
            final(self).current_dir == old(self).current_dir,
    {
        let mut node = node;
        node.set_parent(parent_id);
        let ghost nv = node@;
        proof {
            lemma_insert_keeps_live(self.nodes@, nv, parent_id);
        }
        let id = self.nodes.insert(node)?;
        let ghost s1 = self.nodes@;
        self.nodes.dir_add(parent_id, name, id);
        proof {
            lemma_with_node_wf(s1, parent_id.index as int, s1.node(parent_id).with_entries(entries_insert(s1.node(parent_id).entries(), name@, id)));
        }
        Ok(id)
    }
    /// Creates an empty directory as the last name inside the directory the
    /// other names lead to.
    pub fn create_dir(&mut self, names: &[String]) -> (r: Result<(), FsError>)
        requires
            old(self).wf(),
        ensures
            final(self).wf(),
            (final(self).nodes@, r) == crate::model::create_dir(old(self).nodes@, old(self).root, views(names@)),
            final(self).root == old(self).root,
            final(self).current_dir == old(self).current_dir,
    {
        if names.len() == 0 {
            return Err(FsError::NoFileName);
        }
        let n = names.len() - 1;
        proof {
            assert(views(names@).take(n as int) =~= views(names@).drop_last());
        }
        let (parent, parent_id) = self.find_node_prefix(names, n)?;
        let exists = parent.as_dir()?.contains(&names[n]);
        self.check_perms(parent_id, ImfsNodeOperation::Write)?;
        if exists {
            return Err(FsError::AlreadyExists);
        }
        let name = names[n].clone();
        self.add_node(parent_id, name, Node::empty_dir())?;
        Ok(())
    }

    /// Creates every missing directory along `names`; every directory passed
    /// must be writable.
    pub fn create_dir_all(&mut self, names: &[String]) -> (r: Result<(), FsError>)
        requires
            old(self).wf(),
        ensures
            final(self).wf(),
            (final(self).nodes@, r) == ({
                let (s1, t) = crate::model::create_dir_all(old(self).nodes@, old(self).root, views(names@), names@.len() as nat);
                (s1, crate::model::unit(t))
            }),
            final(self).root == old(self).root,
            final(self).current_dir == old(self).current_dir,
    {
        let ghost nv = views(names@);
        let mut current = self.root;
        let mut i: usize = 0;
        while i < names.len()
            invariant
                0 <= i <= names@.len(),
                nv == views(names@),
                self.wf(),
                self.root == old(self).root,
                self.current_dir == old(self).current_dir,
                (self.nodes@, Ok::<NodeId, FsError>(current)) == crate::model::create_dir_all(old(self).nodes@, old(self).root, nv, i as nat),
            decreases names@.len() - i,
        {
            proof {
                assert(nv[i as int] == names@[i as int]@);
                lemma_create_dir_all_error_persists(old(self).nodes@, old(self).root, nv, (i + 1) as nat, names@.len() as nat);
            }
            let node = self.nodes.get(current)?;
            let dir = node.as_dir()?;
            let child = dir.get(&names[i]);
            self.check_perms(current, ImfsNodeOperation::Write)?;
            match child {
                Some(c) => {
                    current = c;
                },
                None => {
                    current = self.add_node(current, names[i].clone(), Node::empty_dir())?;
                },
            }
            i = i + 1;
        }
        Ok(())
    }

    /// Replaces the contents of the file the names lead to, creating it
    /// first if its directory has no such entry.
    pub fn write(&mut self, names: &[String], contents: &[u8]) -> (r: Result<(), FsError>)
        requires
            old(self).wf(),
        ensures
            final(self).wf(),
            (final(self).nodes@, r) == crate::model::write(old(self).nodes@, old(self).root, views(names@), contents@),
            final(self).root == old(self).root,
            final(self).current_dir == old(self).current_dir,
    {
        if names.len() == 0 {
            return Err(FsError::NoFileName);
        }
        let n = names.len() - 1;
        proof {
            assert(views(names@).take(n as int) =~= views(names@).drop_last());
        }
        let (parent, parent_id) = self.find_node_prefix(names, n)?;
        let existing = parent.as_dir()?.get(&names[n]);
        self.check_perms(parent_id, ImfsNodeOperation::Write)?;
        let target_id = match existing {
            Some(id) => id,
            None => self.add_node(parent_id, names[n].clone(), Node::empty_file())?,
        };
        let target = self.nodes.get(target_id)?;
        self.check_perms(target_id, ImfsNodeOperation::Write)?;
        let _file = target.as_file()?;
        let data: Vec<u8> = vstd::slice::slice_to_vec(contents);
        proof {
            lemma_with_node_wf(self.nodes@, target_id.index as int, self.nodes@.node(target_id).with_data(data@));
        }
        self.nodes.file_replace(target_id, data);
        Ok(())
    }

    /// Unlinks the file the names lead to and frees its node.
    pub fn remove_file(&mut self, names: &[String]) -> (r: Result<(), FsError>)
        requires
            old(self).wf(),
        ensures
            final(self).wf(),
            (final(self).nodes@, r) == crate::model::remove_file(old(self).nodes@, old(self).root, views(names@)),
            final(self).root == old(self).root,
            final(self).current_dir == old(self).current_dir,
    {
        if names.len() == 0 {
            return Err(FsError::NoFileName);
        }
        let n = names.len() - 1;
        proof {
            assert(views(names@).take(n as int) =~= views(names@).drop_last());
        }
        let (parent, parent_id) = self.find_node_prefix(names, n)?;
        let _dir = parent.as_dir()?;
        self.check_perms(parent_id, ImfsNodeOperation::Write)?;
        let (target, target_id) = self.find_node(names)?;
        let _file = target.as_file()?;
        self.check_perms(target_id, ImfsNodeOperation::Write)?;
        let ghost s0 = self.nodes@;
        proof {
            lemma_with_node_wf(s0, parent_id.index as int, s0.node(parent_id).with_entries(crate::node::entries_remove(s0.node(parent_id).entries(), names@[n as int]@)));
            lemma_with_node_lookup(s0, parent_id.index as int, s0.node(parent_id).with_entries(crate::node::entries_remove(s0.node(parent_id).entries(), names@[n as int]@)), target_id);
        }
        self.nodes.dir_remove(parent_id, &names[n]);
        self.nodes.remove(target_id)
    }
    /// Frees every node below the directory `node_id` (the directory itself
    /// stays), provided every one of them is writable: a depth-first walk
    /// collects them, then they are freed in reverse visiting order.
    pub fn remove_all_descendants(&mut self, node_id: NodeId) -> (r: Result<(), FsError>)
        requires
            old(self).wf(),
        ensures
            final(self).wf(),
            (final(self).nodes@, r) == crate::model::remove_all_descendants(old(self).nodes@, node_id),
            final(self).root == old(self).root,
            final(self).current_dir == old(self).current_dir,
    {
        let ghost s0 = self.nodes@;
        let node = self.nodes.get(node_id)?;
        let directory = match node {
            Node::Directory(d) => d,
            Node::File(_) => {
                return Ok(());
            },
        };
        self.check_perms(node_id, ImfsNodeOperation::Write)?;
        let mut to_visit: Vec<NodeId> = Vec::new();
        push_child_ids(directory, &mut to_visit);
        assert(to_visit@ =~= child_ids(node@));
        let mut to_delete: Vec<NodeId> = Vec::new();
        let mut fuel: usize = usize::MAX;
        while to_visit.len() > 0
            invariant
                self.nodes@ == s0,
                s0 == old(self).nodes@,
                self.wf(),
                self.root == old(self).root,
                self.current_dir == old(self).current_dir,
                crate::model::remove_all_descendants(s0, node_id) == (match descendants_walk(s0, child_ids(s0.node(node_id)), Seq::empty(), usize::MAX as nat) {
                    Err(e) => (s0, Err(e)),
                    Ok(del) => remove_each(s0, del),
                }),
                descendants_walk(s0, to_visit@, to_delete@, fuel as nat)
                    == descendants_walk(s0, child_ids(s0.node(node_id)), Seq::empty(), usize::MAX as nat),
            decreases fuel,
        {
            if fuel == 0 {
                return Err(FsError::TooDeep);
            }
            let ghost before = to_visit@;
            let current = match to_visit.pop() {
                Some(c) => c,
                None => {
                    return Ok(());
                },
            };
            assert(to_visit@ =~= before.drop_last());
            fuel = fuel - 1;
            to_delete.push(current);
            match self.nodes.get(current) {
                Err(_) => {},
                Ok(n) => {
                    self.check_perms(current, ImfsNodeOperation::Write)?;
                    match n {
                        Node::Directory(d) => {
                            push_child_ids(d, &mut to_visit);
                        },
                        Node::File(_) => {
                            assert(child_ids(n@) =~= Seq::empty());
                            assert(to_visit@ =~= to_visit@ + child_ids(n@));
                        },
                    }
                },
            }
        }
        let ghost del = to_delete@;
        while to_delete.len() > 0
            invariant
                self.wf(),
                self.root == old(self).root,
                self.current_dir == old(self).current_dir,
                remove_each(self.nodes@, to_delete@) == remove_each(s0, del),
                crate::model::remove_all_descendants(s0, node_id) == remove_each(s0, del),
                s0 == old(self).nodes@,
            decreases to_delete@.len(),
        {
            let ghost before = to_delete@;
            let current = match to_delete.pop() {
                Some(c) => c,
                None => {
                    return Ok(());
                },
            };
            assert(to_delete@ =~= before.drop_last());
            self.nodes.remove(current)?;
        }
        Ok(())
    }

    /// Unlinks the directory the names lead to from its parent, then frees
    /// everything below it.
    pub fn remove_dir(&mut self, names: &[String]) -> (r: Result<(), FsError>)
        requires
            old(self).wf(),
        ensures
            final(self).wf(),
            (final(self).nodes@, r) == crate::model::remove_dir(old(self).nodes@, old(self).root, views(names@)),
            final(self).root == old(self).root,
            final(self).current_dir == old(self).current_dir,
    {
        if names.len() == 0 {
            return Err(FsError::CannotRemoveRoot);
        }
        let n = names.len() - 1;
        proof {
            assert(views(names@).take(n as int) =~= views(names@).drop_last());
        }
        let (parent, parent_id) = self.find_node_prefix(names, n)?;
        let _dir = parent.as_dir()?;
        self.check_perms(parent_id, ImfsNodeOperation::Write)?;
        let (target, target_id) = self.find_node(names)?;
        let _target_dir = target.as_dir()?;
        self.check_perms(target_id, ImfsNodeOperation::Write)?;
        let ghost s0 = self.nodes@;
        proof {
            lemma_with_node_wf(s0, parent_id.index as int, s0.node(parent_id).with_entries(crate::node::entries_remove(s0.node(parent_id).entries(), names@[n as int]@)));
        }
        self.nodes.dir_remove(parent_id, &names[n]);
        self.remove_all_descendants(target_id)
    }
    /// Moves the file `from` to `to`: an existing file `to` takes over
    /// `from`'s contents and `from` is removed; otherwise a new file holding
    /// those contents is added as `to` and `from`'s node is freed.
    pub fn rename_file(&mut self, from: &[String], to: &[String]) -> (r: Result<(), FsError>)
        requires
            old(self).wf(),
        ensures
            final(self).wf(),
            (final(self).nodes@, r) == crate::model::rename_file(old(self).nodes@, old(self).root, views(from@), views(to@)),
            final(self).root == old(self).root,
            final(self).current_dir == old(self).current_dir,
    {
        if same_names(from, to) {
            return Ok(());
        }
        let (from_node, from_id) = self.find_node(from)?;
        let from_file = from_node.as_file()?;
        let content: Vec<u8> = vstd::slice::slice_to_vec(from_file.read().as_slice());
        match self.find_node(to) {
            Ok((to_node, to_id)) => {
                self.check_perms(from_id, ImfsNodeOperation::Read)?;
                self.check_perms(to_id, ImfsNodeOperation::Write)?;
                let _to_file = to_node.as_file()?;
                proof {
                    lemma_with_node_wf(self.nodes@, to_id.index as int, self.nodes@.node(to_id).with_data(content@));
                }
                self.nodes.file_replace(to_id, content);
                return self.remove_file(from);
            },
            Err(e) => {
                if e.kind() != crate::error::ErrorKind::NotFound {
                    return Err(e);
                }
            },
        }
        if from.len() == 0 || to.len() == 0 {
            return Err(FsError::NoFileName);
        }
        let fl = from.len() - 1;
        let tl = to.len() - 1;
        proof {
            assert(views(from@).take(fl as int) =~= views(from@).drop_last());
            assert(views(to@).take(tl as int) =~= views(to@).drop_last());
        }
        let (from_parent, from_parent_id) = self.find_node_prefix(from, fl)?;
        let (to_parent, to_parent_id) = self.find_node_prefix(to, tl)?;
        let _fpd = from_parent.as_dir()?;
        let _tpd = to_parent.as_dir()?;
        self.check_perms(from_id, ImfsNodeOperation::Read)?;
        self.check_perms(from_parent_id, ImfsNodeOperation::Write)?;
        self.check_perms(to_parent_id, ImfsNodeOperation::Write)?;
        let node = Node::with_file(content);
        let ghost s0 = self.nodes@;
        let new_id = self.add_node(to_parent_id, to[tl].clone(), node)?;
        let ghost s1 = self.nodes@;
        proof {
            lemma_insert_keeps_live(s0, NodeView { parent: Some(to_parent_id), ..NodeView::new_file(content@, None) }, from_parent_id);
            lemma_insert_keeps_live(s0, NodeView { parent: Some(to_parent_id), ..NodeView::new_file(content@, None) }, from_id);
            let si = s0.after_insert(NodeView { parent: Some(to_parent_id), ..NodeView::new_file(content@, None) }).0;
            lemma_with_node_lookup(si, to_parent_id.index as int, si.node(to_parent_id).with_entries(entries_insert(si.node(to_parent_id).entries(), to@[tl as int]@, new_id)), from_parent_id);
            lemma_with_node_lookup(si, to_parent_id.index as int, si.node(to_parent_id).with_entries(entries_insert(si.node(to_parent_id).entries(), to@[tl as int]@, new_id)), from_id);
            lemma_with_node_wf(s1, from_parent_id.index as int, s1.node(from_parent_id).with_entries(crate::node::entries_remove(s1.node(from_parent_id).entries(), from@[fl as int]@)));
            lemma_with_node_lookup(s1, from_parent_id.index as int, s1.node(from_parent_id).with_entries(crate::node::entries_remove(s1.node(from_parent_id).entries(), from@[fl as int]@)), from_id);
        }
        self.nodes.dir_remove(from_parent_id, &from[fl]);
        self.nodes.remove(from_id)
    }

    /// Resets every node below the target to inherit its permissions, then
    /// gives the target `permissions`. The root may only be targeted while
    /// it is writable.
    pub fn set_permissions_recursive(&mut self, names: &[String], permissions: Permissions) -> (r: Result<(), FsError>)
        requires
            old(self).wf(),
        ensures
            final(self).wf(),
            (final(self).nodes@, r) == crate::model::set_permissions_recursive(old(self).nodes@, old(self).root, views(names@), permissions),
            final(self).root == old(self).root,
            final(self).current_dir == old(self).current_dir,
    {
        let target = if names.len() == 0 {
            let p = self.permissions(self.root)?;
            if !p.can_write() {
                return Err(FsError::ReadOnlyDirectory);
            }
            self.root
        } else {
            self.find_node_id(names)?
        };
        let ghost s0 = self.nodes@;
        let mut queue: VecDeque<NodeId> = VecDeque::new();
        queue.push_back(target);
        assert(queue@ =~= seq![target]);
        let mut fuel: usize = usize::MAX;
        while queue.len() > 0
            invariant
                self.wf(),
                self.root == old(self).root,
                self.current_dir == old(self).current_dir,
                s0 == old(self).nodes@,
                crate::model::set_permissions_recursive(s0, old(self).root, views(names@), permissions) == ({
                    let (s1, r) = inherit_walk(s0, target, seq![target], usize::MAX as nat);
                    match r {
                        Err(e) => (s1, Err(e)),
                        Ok(_) => match s1.lookup(target) {
                            Err(e) => (s1, Err(e)),
                            Ok(tn) => (s1.with_node(target.index as int, tn.with_permissions(NodePermissions::Explicit(permissions))), Ok(())),
                        },
                    }
                }),
                inherit_walk(self.nodes@, target, queue@, fuel as nat) == inherit_walk(s0, target, seq![target], usize::MAX as nat),
            decreases fuel,
        {
            if fuel == 0 {
                return Err(FsError::TooDeep);
            }
            let ghost before = queue@;
            let node_id = match queue.pop_front() {
                Some(id) => id,
                None => {
                    return Ok(());
                },
            };
            assert(queue@ =~= before.drop_first());
            fuel = fuel - 1;
            match self.nodes.get(node_id) {
                Err(_) => {},
                Ok(node) => {
                    let ghost nv = node@;
                    match node {
                        Node::Directory(d) => {
                            push_child_ids_back(d, &mut queue);
                        },
                        Node::File(_) => {
                            assert(child_ids(node@) =~= Seq::empty());
                            assert(queue@ =~= queue@ + child_ids(node@));
                        },
                    }
                    if node_id != target {
                        self.check_perms(node_id, ImfsNodeOperation::Write)?;
                        proof {
                            lemma_with_node_wf(self.nodes@, node_id.index as int, nv.with_permissions(NodePermissions::Inherited));
                        }
                        self.nodes.set_node_permissions(node_id, NodePermissions::Inherited);
                    }
                },
            }
        }
        let ghost s1 = self.nodes@;
        let _t = self.nodes.get(target)?;
        proof {
            lemma_with_node_wf(s1, target.index as int, s1.node(target).with_permissions(NodePermissions::Explicit(permissions)));
        }
        self.nodes.set_node_permissions(target, NodePermissions::Explicit(permissions));
        Ok(())
    }

    /// Gives the node the names lead to the permission setting
    /// `permissions`; below the root, its parent must be writable.
    pub fn set_permissions(&mut self, names: &[String], permissions: Permissions) -> (r: Result<(), FsError>)
        requires
            old(self).wf(),
        ensures
            final(self).wf(),
            (final(self).nodes@, r) == crate::model::set_permissions(old(self).nodes@, old(self).root, views(names@), permissions),
            final(self).root == old(self).root,
            final(self).current_dir == old(self).current_dir,
    {
        let (node, id) = self.find_node(names)?;
        let ghost nv = node@;
        if names.len() > 0 {
            let n = names.len() - 1;
            proof {
                assert(views(names@).take(n as int) =~= views(names@).drop_last());
            }
            let parent_id = self.find_node_id_prefix(names, n)?;
            let p = self.permissions(parent_id)?;
            if !p.can_write() {
                return Err(FsError::ReadOnlyDirectory);
            }
        }
        proof {
            lemma_with_node_wf(self.nodes@, id.index as int, nv.with_permissions(NodePermissions::Explicit(permissions)));
        }
        self.nodes.set_node_permissions(id, NodePermissions::Explicit(permissions));
        Ok(())
    }
}

} // verus!
