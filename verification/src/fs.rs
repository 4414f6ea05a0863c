//! `InMemoryFs`: an in-memory file system addressed by absolute Unix or
//! Windows paths, with per-node permissions inherited down the tree.

use vstd::prelude::*;
use vstd::utf8::{valid_utf8, decode_utf8};
use crate::error::{ErrorKind, FsError};
use crate::inner::{ImfsInner, ImfsNodeOperation};
use crate::model;
use crate::model::views;
use crate::node::{Node, NodeId, NodeView};
use crate::path::{normalized, path_names, names_of, resolve_path, normalize, names, join_checked, unix_joined_checked};
use crate::store::{StoreView, lemma_with_node_wf};
use crate::tidy::{tidy, law_create_dir_keeps_tidy, law_create_dir_all_keeps_tidy, law_write_keeps_tidy, law_remove_file_keeps_tidy, law_remove_dir_keeps_tidy, law_remove_empty_dir_keeps_tidy, law_rename_keeps_tidy, law_set_permissions_keeps_tidy, law_set_permissions_recursive_keeps_tidy, law_wipe_keeps_tidy, law_apply_snapshot_keeps_tidy, law_open_keeps_tidy, law_replace_file_keeps_tidy, lemma_add_node_tidy, lemma_with_node_tidy};
use crate::vfs::{Permissions, VfsMetadata};
use crate::checksum::{Checksum, HashFunction};
use crate::handle::{ImfsFile, OpenFileMode, FileReadHandle, FileWriteHandle};
use crate::vfs::VfsOpenOptions;
use crate::snapshot::{VfsSnapshotNode, SnapshotView, SnapshotEntry, sorted_entries, sorted_tree, entry_map, entry_index, insert_entry, lemma_entry_at, lemma_sorted_distinct, lemma_directory_view};

verus! {

/// The file system, as the specifications see it.
pub struct FsView {
    pub store: StoreView,
    pub root: NodeId,
    pub current_dir: Seq<char>,
}

/// Calls `String::from_utf8`, which succeeds exactly on valid UTF-8 and
/// then holds the characters the bytes encode.
#[verifier::external_body]
fn string_from_utf8(bytes: Vec<u8>) -> (r: Option<String>)
    ensures
        match r {
            Some(s) => valid_utf8(bytes@) && s@ == decode_utf8(bytes@),
            None => !valid_utf8(bytes@),
        },
{
    String::from_utf8(bytes).ok()
}

/// An ephemeral in-memory file system.
pub struct InMemoryFs {
    pub(crate) inner: ImfsInner,
}

impl View for InMemoryFs {
    type V = FsView;

    closed spec fn view(&self) -> FsView {
        FsView { store: self.inner.nodes@, root: self.inner.root, current_dir: self.inner.current_dir@ }
    }
}

impl InMemoryFs {
    /// The invariant of the file system: that of its node store, and the
    /// store stays tidy around the root (a live directory with no directory
    /// above it; no directory holds the root or a name twice).
    pub closed spec fn wf(&self) -> bool {
        &&& self.inner.wf()
        &&& tidy(self.inner.nodes@, self.inner.root)
    }

    /// What the invariant shows of the view: the store is well-formed and
    /// tidy around the root.
    pub proof fn lemma_wf_tidy(&self)
        requires
            self.wf(),
        ensures
            self@.store.wf(),
            tidy(self@.store, self@.root),
    {
    }

    /// The view is that of the inner state.
    pub(crate) proof fn lemma_view_of_inner(&self)
        ensures
            self@.store == self.inner.nodes@,
            self@.root == self.inner.root,
            self@.current_dir == self.inner.current_dir@,
            self.wf() == (self.inner.wf() && tidy(self.inner.nodes@, self.inner.root)),
    {
    }

    /// The outcome of a mutating operation on `path`: unchanged with the
    /// path's error, or as `op` says on its names.
    pub open spec fn mutated(
        old: FsView,
        new: FsView,
        path: Seq<char>,
        r: Result<(), FsError>,
        op: spec_fn(Seq<Seq<char>>) -> (StoreView, Result<(), FsError>),
    ) -> bool {
        &&& new.root == old.root
        &&& new.current_dir == old.current_dir
        &&& match path_names(path) {
            Err(e) => r == Err::<(), FsError>(e) && new.store == old.store,
            Ok(ns) => (new.store, r) == op(ns),
        }
    }

    /// Creates a file system holding only an empty root directory.
    pub fn new() -> (fs: Self)
        ensures
            fs.wf(),
            fs@.store.slots.len() == 1,
            fs@.store.free.len() == 0,
            fs@.root == (NodeId { index: 0, generation: 0 }),
            fs@.store.lookup(fs@.root) == Ok::<NodeView, FsError>(NodeView::new_dir(None)),
            fs@.current_dir == seq!['/'],
    {
        InMemoryFs { inner: ImfsInner::empty() }
    }

    /// The number of nodes in the file system.
    pub fn nodes(&self) -> (n: usize)
        ensures
            n == self@.store.active(),
    {
        self.inner.nodes.active_slots()
    }

    /// The number of node slots, vacant ones included.
    pub fn node_slots(&self) -> (n: usize)
        ensures
            n == self@.store.slots.len(),
    {
        self.inner.nodes.slots()
    }

    /// The node store, for inspection.
    pub fn store(&self) -> (s: &crate::store::NodeStore)
        ensures
            s@ == self@.store,
    {
        &self.inner.nodes
    }

    /// The handle of the root directory.
    pub fn root(&self) -> (id: NodeId)
        ensures
            id == self@.root,
    {
        self.inner.root
    }

    /// Resets every node below `path` to inherit its permissions and gives
    /// `path` the setting `permissions`.
    pub fn set_permissions_recursive(&mut self, path: &str, permissions: Permissions) -> (r: Result<(), FsError>)
        requires
            old(self).wf(),
        ensures
            final(self).wf(),
            Self::mutated(old(self)@, final(self)@, path@, r, |ns: Seq<Seq<char>>| model::set_permissions_recursive(old(self)@.store, old(self)@.root, ns, permissions)),
    {
        let (_p, ns) = resolve_path(path)?;
        let r = self.inner.set_permissions_recursive(&ns, permissions);
        proof {
            law_set_permissions_recursive_keeps_tidy(old(self)@.store, old(self)@.root, views(ns@), permissions);
        }
        r
    }

    /// Gives the node at `path` the permission setting `permissions`; below
    /// the root, its directory must be writable.
    pub fn set_permissions(&mut self, path: &str, permissions: Permissions) -> (r: Result<(), FsError>)
        requires
            old(self).wf(),
        ensures
            final(self).wf(),
            Self::mutated(old(self)@, final(self)@, path@, r, |ns: Seq<Seq<char>>| model::set_permissions(old(self)@.store, old(self)@.root, ns, permissions)),
    {
        let (_p, ns) = resolve_path(path)?;
        let r = self.inner.set_permissions(&ns, permissions);
        proof {
            law_set_permissions_keeps_tidy(old(self)@.store, old(self)@.root, views(ns@), permissions);
        }
        r
    }

    /// Frees every node but the root and empties the root directory.
    pub fn wipe(&mut self) -> (r: Result<(), FsError>)
        requires
            old(self).wf(),
        ensures
            final(self).wf(),
            final(self)@.root == old(self)@.root,
            final(self)@.current_dir == old(self)@.current_dir,
            (final(self)@.store, r) == model::wipe(old(self)@.store, old(self)@.root),
    {
        proof {
            law_wipe_keeps_tidy(old(self)@.store, old(self)@.root);
        }
        let root = self.inner.root;
        self.inner.nodes.clear(root);
        let node = self.inner.nodes.get(root)?;
        let _dir = node.as_dir()?;
        proof {
            lemma_with_node_wf(self.inner.nodes@, root.index as int, self.inner.nodes@.node(root).with_entries(Seq::empty()));
        }
        self.inner.nodes.dir_clear(root);
        Ok(())
    }

    /// The current directory, provided it still is a directory.
    pub fn current_dir(&self) -> (r: Result<String, FsError>)
        requires
            self.wf(),
        ensures
            match r {
                Ok(s) => {
                    &&& s@ == self@.current_dir
                    &&& model::find(self@.store, self@.root, names_of(self@.current_dir)) matches Ok((n, _))
                    &&& n.is_dir()
                },
                Err(e) => match model::find(self@.store, self@.root, names_of(self@.current_dir)) {
                    Err(e2) => e == e2,
                    Ok((n, _)) => !n.is_dir() && e == FsError::NotADirectory,
                },
            },
    {
        let ns = names(self.inner.current_dir.as_str());
        let (node, _id) = self.inner.find_node(&ns)?;
        let _dir = node.as_dir()?;
        Ok(self.inner.current_dir.clone())
    }

    /// Makes `path` the current directory; it must be a directory.
    pub fn set_current_dir(&mut self, path: &str) -> (r: Result<(), FsError>)
        requires
            old(self).wf(),
        ensures
            final(self).wf(),
            final(self)@.store == old(self)@.store,
            final(self)@.root == old(self)@.root,
            match r {
                Ok(_) => {
                    &&& path_names(path@) matches Ok(ns)
                    &&& model::find(old(self)@.store, old(self)@.root, ns) matches Ok((n, _))
                    &&& n.is_dir()
                    &&& normalized(path@) == Ok::<Seq<char>, FsError>(final(self)@.current_dir)
                },
                Err(e) => final(self)@.current_dir == old(self)@.current_dir && match path_names(path@) {
                    Err(e2) => e == e2,
                    Ok(ns) => match model::find(old(self)@.store, old(self)@.root, ns) {
                        Err(e2) => e == e2,
                        Ok((n, _)) => !n.is_dir() && e == FsError::NotADirectory,
                    },
                },
            },
    {
        let (target, ns) = resolve_path(path)?;
        let (node, _id) = self.inner.find_node(&ns)?;
        let _dir = node.as_dir()?;
        self.inner.current_dir = target;
        Ok(())
    }

    /// Creates an empty directory at `path`, whose parent must exist and be writable.
    pub fn create_dir(&mut self, path: &str) -> (r: Result<(), FsError>)
        requires
            old(self).wf(),
        ensures
            final(self).wf(),
            Self::mutated(old(self)@, final(self)@, path@, r, |ns: Seq<Seq<char>>| model::create_dir(old(self)@.store, old(self)@.root, ns)),
    {
        let (_p, ns) = resolve_path(path)?;
        let r = self.inner.create_dir(&ns);
        proof {
            law_create_dir_keeps_tidy(old(self)@.store, old(self)@.root, views(ns@));
        }
        r
    }

    /// Creates the directory at `path` and every missing directory above it.
    pub fn create_dir_all(&mut self, path: &str) -> (r: Result<(), FsError>)
        requires
            old(self).wf(),
        ensures
            final(self).wf(),
            Self::mutated(old(self)@, final(self)@, path@, r, |ns: Seq<Seq<char>>| {
                let (s1, t) = model::create_dir_all(old(self)@.store, old(self)@.root, ns, ns.len());
                (s1, model::unit(t))
            }),
    {
        let (_p, ns) = resolve_path(path)?;
        let r = self.inner.create_dir_all(&ns);
        proof {
            law_create_dir_all_keeps_tidy(old(self)@.store, old(self)@.root, views(ns@), views(ns@).len());
        }
        r
    }

    /// Whether `path` leads to a node; the directory holding it must be readable.
    pub fn path_exists(&self, path: &str) -> (r: Result<bool, FsError>)
        requires
            self.wf(),
        ensures
            r == match path_names(path@) {
                Err(e) => Err(e),
                Ok(ns) => model::path_exists(self@.store, self@.root, ns),
            },
    {
        let (_p, ns) = resolve_path(path)?;
        let count = if ns.len() == 0 { 0 } else { ns.len() - 1 };
        proof {
            assert(views(ns@).take(count as int) =~= model::parent_names(views(ns@)));
        }
        let parent_id = self.inner.find_node_id_prefix(&ns, count)?;
        self.inner.check_perms(parent_id, ImfsNodeOperation::Read)?;
        match self.inner.find_node(&ns) {
            Ok(_) => Ok(true),
            Err(e) => if e.kind() == ErrorKind::NotFound { Ok(false) } else { Err(e) },
        }
    }

    /// `name` adjoined to the normalized `path`, provided `name` is a safe
    /// relative path.
    pub fn join(&self, path: &str, name: &str) -> (r: Result<String, FsError>)
        ensures
            match r {
                Ok(s) => {
                    &&& normalized(path@) matches Ok(n)
                    &&& unix_joined_checked(n, name@) == Some(s@)
                },
                Err(e) => match normalized(path@) {
                    Err(e2) => e == e2,
                    Ok(n) => unix_joined_checked(n, name@) is None && e == FsError::InvalidJoin,
                },
            },
    {
        let p = normalize(path)?;
        join_checked(p.as_str(), name)
    }

    /// The metadata of the node at `path`; the directory holding it must be readable.
    pub fn metadata(&self, path: &str) -> (r: Result<VfsMetadata, FsError>)
        requires
            self.wf(),
        ensures
            r == match path_names(path@) {
                Err(e) => Err(e),
                Ok(ns) => model::metadata(self@.store, self@.root, ns),
            },
    {
        let (_p, ns) = resolve_path(path)?;
        let count = if ns.len() == 0 { 0 } else { ns.len() - 1 };
        proof {
            assert(views(ns@).take(count as int) =~= model::parent_names(views(ns@)));
        }
        let parent_id = self.inner.find_node_id_prefix(&ns, count)?;
        self.inner.check_perms(parent_id, ImfsNodeOperation::Read)?;
        let target_id = self.inner.find_node_id(&ns)?;
        self.inner.metadata(target_id)
    }

    /// The contents of the (readable) file at `path`.
    pub fn read(&self, path: &str) -> (r: Result<Vec<u8>, FsError>)
        requires
            self.wf(),
        ensures
            match r {
                Ok(v) => {
                    &&& path_names(path@) matches Ok(ns)
                    &&& model::read(self@.store, self@.root, ns) == Ok::<Seq<u8>, FsError>(v@)
                },
                Err(e) => match path_names(path@) {
                    Err(e2) => e == e2,
                    Ok(ns) => model::read(self@.store, self@.root, ns) == Err::<Seq<u8>, FsError>(e),
                },
            },
    {
        let (_p, ns) = resolve_path(path)?;
        let (node, id) = self.inner.find_node(&ns)?;
        self.inner.check_perms(id, ImfsNodeOperation::Read)?;
        let file = node.as_file()?;
        Ok(vstd::slice::slice_to_vec(file.read().as_slice()))
    }

    /// The contents of the (readable) file at `path`, which must be valid UTF-8.
    pub fn read_to_string(&self, path: &str) -> (r: Result<String, FsError>)
        requires
            self.wf(),
        ensures
            match r {
                Ok(s) => {
                    &&& path_names(path@) matches Ok(ns)
                    &&& model::read(self@.store, self@.root, ns) matches Ok(bytes)
                    &&& valid_utf8(bytes)
                    &&& s@ == decode_utf8(bytes)
                },
                Err(e) => match path_names(path@) {
                    Err(e2) => e == e2,
                    Ok(ns) => match model::read(self@.store, self@.root, ns) {
                        Err(e2) => e == e2,
                        Ok(bytes) => !valid_utf8(bytes) && e == FsError::InvalidUtf8,
                    },
                },
            },
    {
        let bytes = self.read(path)?;
        match string_from_utf8(bytes) {
            Some(s) => Ok(s),
            None => Err(FsError::InvalidUtf8),
        }
    }

    /// Removes the directory at `path`, which must be empty.
    pub fn remove_dir(&mut self, path: &str) -> (r: Result<(), FsError>)
        requires
            old(self).wf(),
        ensures
            final(self).wf(),
            Self::mutated(old(self)@, final(self)@, path@, r, |ns: Seq<Seq<char>>| model::remove_empty_dir(old(self)@.store, old(self)@.root, ns)),
    {
        let (_p, ns) = resolve_path(path)?;
        let (node, _id) = self.inner.find_node(&ns)?;
        let dir = node.as_dir()?;
        if !dir.is_empty() {
            return Err(FsError::RemoveNonEmptyDirectory);
        }
        let r = self.inner.remove_dir(&ns);
        proof {
            law_remove_dir_keeps_tidy(old(self)@.store, old(self)@.root, views(ns@));
        }
        r
    }

    /// Removes the directory at `path` and everything below it.
    pub fn remove_dir_all(&mut self, path: &str) -> (r: Result<(), FsError>)
        requires
            old(self).wf(),
        ensures
            final(self).wf(),
            Self::mutated(old(self)@, final(self)@, path@, r, |ns: Seq<Seq<char>>| model::remove_dir(old(self)@.store, old(self)@.root, ns)),
    {
        let (_p, ns) = resolve_path(path)?;
        let r = self.inner.remove_dir(&ns);
        proof {
            law_remove_dir_keeps_tidy(old(self)@.store, old(self)@.root, views(ns@));
        }
        r
    }

    /// Removes the file at `path`.
    pub fn remove_file(&mut self, path: &str) -> (r: Result<(), FsError>)
        requires
            old(self).wf(),
        ensures
            final(self).wf(),
            Self::mutated(old(self)@, final(self)@, path@, r, |ns: Seq<Seq<char>>| model::remove_file(old(self)@.store, old(self)@.root, ns)),
    {
        let (_p, ns) = resolve_path(path)?;
        let r = self.inner.remove_file(&ns);
        proof {
            law_remove_file_keeps_tidy(old(self)@.store, old(self)@.root, views(ns@));
        }
        r
    }

    /// Symbolic links are not supported.
    pub fn soft_link(&mut self, original: &str, link: &str) -> (r: Result<(), FsError>)
        ensures
            r == Err::<(), FsError>(FsError::SymlinksUnsupported),
            final(self)@ == old(self)@,
    {
        Err(FsError::SymlinksUnsupported)
    }

    /// Replaces the contents of the file at `path`, creating it if its
    /// directory has no such entry.
    pub fn write(&mut self, path: &str, contents: &[u8]) -> (r: Result<(), FsError>)
        requires
            old(self).wf(),
        ensures
            final(self).wf(),
            Self::mutated(old(self)@, final(self)@, path@, r, |ns: Seq<Seq<char>>| model::write(old(self)@.store, old(self)@.root, ns, contents@)),
    {
        let (_p, ns) = resolve_path(path)?;
        let r = self.inner.write(&ns, contents);
        proof {
            law_write_keeps_tidy(old(self)@.store, old(self)@.root, views(ns@), contents@);
        }
        r
    }
    /// Renames `from` to `to`. A file is moved by `rename_file`; a directory
    /// takes the place of `to`, which must be an empty directory or missing
    /// (it is then created first).
    #[verifier::rlimit(60)]
    pub fn rename(&mut self, from: &str, to: &str) -> (r: Result<(), FsError>)
        requires
            old(self).wf(),
        ensures
            final(self).wf(),
            final(self)@.root == old(self)@.root,
            final(self)@.current_dir == old(self)@.current_dir,
            match path_names(from@) {
                Err(e) => r == Err::<(), FsError>(e) && final(self)@.store == old(self)@.store,
                Ok(fns) => match path_names(to@) {
                    Err(e) => r == Err::<(), FsError>(e) && final(self)@.store == old(self)@.store,
                    Ok(tns) => (final(self)@.store, r) == model::rename(
                        old(self)@.store,
                        old(self)@.root,
                        normalized(from@)->Ok_0,
                        fns,
                        normalized(to@)->Ok_0,
                        tns,
                    ),
                },
            },
    {
        proof {
            match path_names(from@) {
                Ok(fns) => match path_names(to@) {
                    Ok(tns) => law_rename_keeps_tidy(
                        old(self)@.store,
                        old(self)@.root,
                        normalized(from@)->Ok_0,
                        fns,
                        normalized(to@)->Ok_0,
                        tns,
                    ),
                    Err(_) => {},
                },
                Err(_) => {},
            }
        }
        let (from_p, from_ns) = resolve_path(from)?;
        let (to_p, to_ns) = resolve_path(to)?;
        if from_p == to_p {
            return Ok(());
        }
        if from_ns.len() == 0 {
            return Err(FsError::NoFileName);
        }
        let fl = from_ns.len() - 1;
        proof {
            assert(views(from_ns@).take(fl as int) =~= views(from_ns@).drop_last());
        }
        let (from_node, from_id) = self.inner.find_node(&from_ns)?;
        let is_file = match from_node {
            Node::File(_) => true,
            Node::Directory(_) => false,
        };
        if is_file {
            return self.inner.rename_file(&from_ns, &to_ns);
        }
        let ghost s0 = self.inner.nodes@;
        let (to_id, to_is_dir, to_is_empty) = match self.inner.find_node(&to_ns) {
            Ok((n, id)) => {
                let d = match n {
                    Node::Directory(d) => Some(d.is_empty()),
                    Node::File(_) => None,
                };
                match d {
                    Some(e) => (id, true, e),
                    None => (id, false, false),
                }
            },
            Err(e) => {
                if e.kind() != ErrorKind::NotFound {
                    return Err(e);
                }
                if to_ns.len() == 0 {
                    return Err(FsError::NoFileName);
                }
                let tl = to_ns.len() - 1;
                proof {
                    assert(views(to_ns@).take(tl as int) =~= views(to_ns@).drop_last());
                }
                let (to_parent, to_parent_id) = self.inner.find_node_prefix(&to_ns, tl)?;
                let _tpd = to_parent.as_dir()?;
                self.inner.add_node(to_parent_id, to_ns[tl].clone(), Node::empty_dir())?;
                let (n, id) = self.inner.find_node(&to_ns)?;
                let d = match n {
                    Node::Directory(d) => Some(d.is_empty()),
                    Node::File(_) => None,
                };
                match d {
                    Some(e) => (id, true, e),
                    None => (id, false, false),
                }
            },
        };
        if !to_is_dir {
            return Err(FsError::NotADirectory);
        }
        if !to_is_empty {
            return Err(FsError::DirectoryNotEmpty);
        }
        self.inner.check_perms(to_id, ImfsNodeOperation::Write)?;
        self.inner.check_perms(from_id, ImfsNodeOperation::Read)?;
        self.inner.nodes.remove(to_id)?;
        let (from_parent, from_parent_id) = self.inner.find_node_prefix(&from_ns, fl)?;
        let _fpd = from_parent.as_dir()?;
        let ghost s2 = self.inner.nodes@;
        proof {
            lemma_with_node_wf(s2, from_parent_id.index as int, s2.node(from_parent_id).with_entries(crate::node::entries_remove(s2.node(from_parent_id).entries(), from_ns@[fl as int]@)));
        }
        self.inner.nodes.dir_remove(from_parent_id, &from_ns[fl]);
        if to_ns.len() == 0 {
            return Err(FsError::NoFileName);
        }
        let tl = to_ns.len() - 1;
        proof {
            assert(views(to_ns@).take(tl as int) =~= views(to_ns@).drop_last());
        }
        let (to_parent, to_parent_id) = self.inner.find_node_prefix(&to_ns, tl)?;
        let _tpd = to_parent.as_dir()?;
        let ghost s3 = self.inner.nodes@;
        proof {
            lemma_with_node_wf(s3, to_parent_id.index as int, s3.node(to_parent_id).with_entries(crate::node::entries_insert(s3.node(to_parent_id).entries(), to_ns@[tl as int]@, from_id)));
        }
        self.inner.nodes.dir_add(to_parent_id, to_ns[tl].clone(), from_id);
        Ok(())
    }
    /// The snapshot of the node the names lead to, at nesting level `depth`.
    #[verifier::loop_isolation(false)]
    fn snapshot_at(&self, names: &Vec<String>, depth: usize) -> (r: Result<VfsSnapshotNode, FsError>)
        requires
            self.wf(),
        ensures
            match r {
                Ok(n) => model::snapshot_of(self@.store, self@.root, views(names@), depth as int) == Ok::<SnapshotView, FsError>(n.snapshot_view())
                    && sorted_tree(n),
                Err(e) => model::snapshot_of(self@.store, self@.root, views(names@), depth as int) == Err::<SnapshotView, FsError>(e),
            },
        decreases 51 - depth,
    {
        if depth > 50 {
            return Err(FsError::TooDeep);
        }
        let (node, id) = self.inner.find_node(names.as_slice())?;
        let permissions = self.inner.permissions(id)?;
        match node {
            Node::File(f) => {
                Ok(VfsSnapshotNode::File { data: vstd::slice::slice_to_vec(f.content.as_slice()), permissions })
            },
            Node::Directory(d) => {
                let ghost entries = node@.entries();
                let ghost nv = views(names@);
                let mut children: Vec<SnapshotEntry> = Vec::new();
                let mut k: usize = 0;
                assert(entry_map(children@).map_values(|c: VfsSnapshotNode| c.snapshot_view()) =~= Map::<Seq<char>, SnapshotView>::empty());
                while k < d.children.len()
                    invariant
                        self.wf(),
                        0 <= k <= d.children@.len(),
                        depth <= 50,
                        entries == node@.entries(),
                        entries.len() == d.children@.len(),
                        nv == views(names@),
                        sorted_entries(children@),
                        forall|j: int| 0 <= j < children@.len() ==> sorted_tree(#[trigger] children@[j].node),
                        model::snapshot_entries(self@.store, self@.root, nv, entries, k as nat, depth as int)
                            == Ok::<Map<Seq<char>, SnapshotView>, FsError>(entry_map(children@).map_values(|c: VfsSnapshotNode| c.snapshot_view())),
                    decreases d.children@.len() - k,
                {
                    let name = d.children[k].name.clone();
                    let mut child_names = names.clone();
                    child_names.push(name.clone());
                    proof {
                        assert(d.entries()[k as int] == (d.children@[k as int].name@, d.children@[k as int].id));
                        assert(entries[k as int].0 == name@);
                        assert(views(child_names@) =~= nv.push(name@));
                        model::lemma_snapshot_entries_error_persists(self@.store, self@.root, nv, entries, (k + 1) as nat, entries.len(), depth as int);
                    }
                    let child = self.snapshot_at(&child_names, depth + 1)?;
                    let ghost before = children@;
                    let ghost cv = child.snapshot_view();
                    let ghost cn = child;
                    let ghost nm = name@;
                    insert_entry(&mut children, SnapshotEntry { name, node: child });
                    proof {
                        assert forall|j: int| 0 <= j < children@.len() implies sorted_tree(#[trigger] children@[j].node) by {
                            lemma_entry_at(children@, j);
                            let m = children@[j].name@;
                            if m != nm {
                                assert(entry_map(before).contains_key(m));
                                let i = entry_index(before, m);
                                assert(0 <= i < before.len() && before[i].name@ == m);
                                assert(sorted_tree(before[i].node));
                            } else {
                                assert(children@[j].node == cn);
                            }
                        }
                        assert(entry_map(children@).map_values(|c: VfsSnapshotNode| c.snapshot_view()) =~=
                            entry_map(before).map_values(|c: VfsSnapshotNode| c.snapshot_view()).insert(entries[k as int].0, cv));
                    }
                    k = k + 1;
                }
                let result = VfsSnapshotNode::Directory { children, permissions };
                proof {
                    lemma_sorted_distinct(children@);
                    lemma_directory_view(children@, permissions);
                }
                Ok(result)
            },
        }
    }

    /// A snapshot of the whole file system; every node carries its
    /// effective permissions.
    pub fn generate_snapshot(&self) -> (r: Result<VfsSnapshotNode, FsError>)
        requires
            self.wf(),
        ensures
            match r {
                Ok(n) => model::snapshot_of(self@.store, self@.root, Seq::empty(), 0) == Ok::<SnapshotView, FsError>(n.snapshot_view())
                    && sorted_tree(n),
                Err(e) => model::snapshot_of(self@.store, self@.root, Seq::empty(), 0) == Err::<SnapshotView, FsError>(e),
            },
    {
        let names: Vec<String> = Vec::new();
        assert(views(names@) =~= Seq::<Seq<char>>::empty());
        self.snapshot_at(&names, 0)
    }

    /// Adds the snapshot `node` as `name` into the directory `parent_id`.
    #[verifier::loop_isolation(false)]
    fn apply_node(&mut self, parent_id: NodeId, name: &String, node: &VfsSnapshotNode, depth: usize) -> (r: Result<(), FsError>)
        requires
            old(self).wf(),
        ensures
            final(self).wf(),
            final(self)@.root == old(self)@.root,
            final(self)@.current_dir == old(self)@.current_dir,
            (final(self)@.store, r) == model::apply_node(old(self)@.store, parent_id, name@, *node, depth as int),
        decreases node, 0int,
    {
        proof {
            crate::tidy::lemma_apply_node_keeps_tidy(old(self)@.store, old(self)@.root, parent_id, name@, *node, depth as int);
        }
        if depth > 50 {
            return Err(FsError::TooDeep);
        }
        let parent = self.inner.nodes.get(parent_id)?;
        let _dir = parent.as_dir()?;
        let (id, permissions) = match node {
            VfsSnapshotNode::File { data, permissions } => {
                let n = Node::with_file(vstd::slice::slice_to_vec(data.as_slice()));
                let ghost nv = n@;
                let id = self.inner.add_node(parent_id, name.clone(), n)?;
                proof {
                    lemma_add_node_tidy(old(self)@.store, old(self)@.root, parent_id, name@, nv);
                }
                (id, *permissions)
            },
            VfsSnapshotNode::Directory { children, permissions } => {
                let id = self.inner.add_node(parent_id, name.clone(), Node::empty_dir())?;
                proof {
                    lemma_add_node_tidy(old(self)@.store, old(self)@.root, parent_id, name@, NodeView::new_dir(None));
                }
                let ghost s1 = self@.store;
                let mut k: usize = 0;
                while k < children.len()
                    invariant
                        self.wf(),
                        self@.root == old(self)@.root,
                        self@.current_dir == old(self)@.current_dir,
                        0 <= k <= children@.len(),
                        depth <= 50,
                        (self@.store, Ok::<(), FsError>(())) == model::apply_entries(s1, id, children@, k as nat, (depth + 1) as int),
                    decreases children@.len() - k,
                {
                    proof {
                        let cs = *children;
                        assert(*node == VfsSnapshotNode::Directory { children: cs, permissions: *permissions });
                        assert(decreases_to!(*node => cs));
                        assert(decreases_to!(cs => cs@));
                        assert(decreases_to!(cs@ => cs@[k as int]));
                        assert(decreases_to!(cs@[k as int] => cs@[k as int].node));
                        model::lemma_apply_entries_error_persists(s1, id, children@, (k + 1) as nat, children@.len() as nat, (depth + 1) as int);
                    }
                    self.apply_node(id, &children[k].name, &children[k].node, depth + 1)?;
                    k = k + 1;
                }
                (id, *permissions)
            },
        };
        let _n = self.inner.nodes.get(id)?;
        proof {
            lemma_with_node_wf(self@.store, id.index as int, self@.store.node(id).with_permissions(crate::node::NodePermissions::Explicit(permissions)));
        }
        self.inner.nodes.set_node_permissions(id, crate::node::NodePermissions::Explicit(permissions));
        Ok(())
    }
    /// Replaces the whole file system by the snapshot, whose root must be a
    /// directory: everything is wiped, the snapshot's entries are added in
    /// their order with their permissions, and the root gets the snapshot's
    /// permissions.
    #[verifier::loop_isolation(false)]
    pub fn apply_from_snapshot(&mut self, snapshot: &VfsSnapshotNode) -> (r: Result<(), FsError>)
        requires
            old(self).wf(),
        ensures
            final(self).wf(),
            final(self)@.root == old(self)@.root,
            final(self)@.current_dir == old(self)@.current_dir,
            (final(self)@.store, r) == model::apply_snapshot(old(self)@.store, old(self)@.root, *snapshot),
    {
        proof {
            law_apply_snapshot_keeps_tidy(old(self)@.store, old(self)@.root, *snapshot);
        }
        match snapshot {
            VfsSnapshotNode::File { .. } => Err(FsError::SnapshotRootNotDirectory),
            VfsSnapshotNode::Directory { children, permissions } => {
                self.wipe()?;
                let root = self.inner.root;
                let ghost s1 = self@.store;
                let mut k: usize = 0;
                while k < children.len()
                    invariant
                        self.wf(),
                        self@.root == old(self)@.root,
                        self@.current_dir == old(self)@.current_dir,
                        root == self@.root,
                        0 <= k <= children@.len(),
                        (self@.store, Ok::<(), FsError>(())) == model::apply_entries(s1, root, children@, k as nat, 0),
                    decreases children@.len() - k,
                {
                    proof {
                        model::lemma_apply_entries_error_persists(s1, root, children@, (k + 1) as nat, children@.len() as nat, 0);
                    }
                    self.apply_node(root, &children[k].name, &children[k].node, 0)?;
                    k = k + 1;
                }
                let _n = self.inner.nodes.get(root)?;
                proof {
                    lemma_with_node_wf(self@.store, root.index as int, self@.store.node(root).with_permissions(crate::node::NodePermissions::Explicit(*permissions)));
                }
                self.inner.nodes.set_node_permissions(root, crate::node::NodePermissions::Explicit(*permissions));
                Ok(())
            },
        }
    }
    /// The checksum `hasher` gives of the contents of the (readable) file at
    /// `path`, after whatever it was fed before.
    pub fn hash<H: HashFunction>(&self, path: &str, hasher: H) -> (r: Result<Checksum, FsError>)
        requires
            self.wf(),
        ensures
            match r {
                Ok(c) => {
                    &&& path_names(path@) matches Ok(ns)
                    &&& model::hash_input(self@.store, self@.root, ns) matches Ok(data)
                    &&& c@ == H::digest_of(hasher.fed() + data)
                },
                Err(e) => match path_names(path@) {
                    Err(e2) => e == e2,
                    Ok(ns) => model::hash_input(self@.store, self@.root, ns) == Err::<Seq<u8>, FsError>(e),
                },
            },
    {
        let mut hasher = hasher;
        let (_p, ns) = resolve_path(path)?;
        let (node, id) = self.inner.find_node(&ns)?;
        let file = node.as_file()?;
        self.inner.check_perms(id, ImfsNodeOperation::Read)?;
        hasher.update(file.read().as_slice());
        Ok(hasher.digest())
    }

    /// The metadata of the node `id`: its effective permissions, size and type.
    pub fn node_metadata(&self, id: NodeId) -> (r: Result<VfsMetadata, FsError>)
        ensures
            r == model::node_metadata(self@.store, id),
    {
        self.inner.metadata(id)
    }

    /// Stores `data` as the contents of the file `id`.
    pub(crate) fn replace_file(&mut self, id: NodeId, data: Vec<u8>) -> (r: Result<(), FsError>)
        requires
            old(self).wf(),
        ensures
            final(self).wf(),
            final(self)@.root == old(self)@.root,
            final(self)@.current_dir == old(self)@.current_dir,
            match old(self)@.store.lookup(id) {
                Err(e) => r == Err::<(), FsError>(e) && final(self)@.store == old(self)@.store,
                Ok(n) => if n.is_file() {
                    &&& r == Ok::<(), FsError>(())
                    &&& final(self)@.store == old(self)@.store.with_node(id.index as int, n.with_data(data@))
                } else {
                    r == Err::<(), FsError>(FsError::IsADirectory) && final(self)@.store == old(self)@.store
                },
            },
    {
        let node = self.inner.nodes.get(id)?;
        let _file = node.as_file()?;
        proof {
            lemma_with_node_wf(self.inner.nodes@, id.index as int, self.inner.nodes@.node(id).with_data(data@));
            law_replace_file_keeps_tidy(self.inner.nodes@, self.inner.root, id, data@);
        }
        self.inner.nodes.file_replace(id, data);
        Ok(())
    }

    /// The outcome of `open` on `path` with `o`: the file system is left as
    /// `model::open` says (a created file stays), and the file is opened on
    /// the node and in the mode it gives, with the contents and position
    /// that mode starts with.
    pub open spec fn opened(old: FsView, new: FsView, path: Seq<char>, o: VfsOpenOptions, r: Result<ImfsFile, FsError>) -> bool {
        &&& new.root == old.root
        &&& new.current_dir == old.current_dir
        &&& match path_names(path) {
            Err(e) => r matches Err(e2) && e2 == e && new.store == old.store,
            Ok(ns) => {
                let (s1, t) = model::open(old.store, old.root, ns, o);
                &&& new.store == s1
                &&& match t {
                    Err(e) => r matches Err(e2) && e2 == e,
                    Ok((id, m)) => r matches Ok(f) && {
                        &&& f.node() == id
                        &&& f.mode() == m
                        &&& f.contents() == model::opened_contents(s1.node(id).data(), m, o)
                        &&& f.pos() == model::opened_position(s1.node(id).data(), m, o)
                        &&& (f matches ImfsFile::Write(h) ==> h.readable() == o.read)
                    },
                }
            },
        }
    }

    /// Opens the file at `path` as the options say: it may be created
    /// (`create`, `create_new`) in its writable directory, and is opened
    /// for reading when `read` is set, else for writing or appending.
    pub fn open(&mut self, path: &str, options: &VfsOpenOptions) -> (r: Result<ImfsFile, FsError>)
        requires
            old(self).wf(),
        ensures
            final(self).wf(),
            Self::opened(old(self)@, final(self)@, path@, *options, r),
    {
        proof {
            match path_names(path@) {
                Ok(ns) => law_open_keeps_tidy(old(self)@.store, old(self)@.root, ns, *options),
                Err(_) => {},
            }
        }
        let (_p, ns) = resolve_path(path)?;
        let node_id = match self.inner.find_node_id(&ns) {
            Ok(id) => {
                if options.create_new {
                    return Err(FsError::AlreadyExists);
                }
                id
            },
            Err(e) => {
                if e.kind() != ErrorKind::NotFound {
                    return Err(e);
                }
                if !options.create && !options.create_new {
                    return Err(e);
                }
                if ns.len() == 0 {
                    return Err(FsError::NoFileName);
                }
                let n = ns.len() - 1;
                proof {
                    assert(views(ns@).take(n as int) =~= views(ns@).drop_last());
                }
                let (parent, parent_id) = self.inner.find_node_prefix(&ns, n)?;
                let _dir = parent.as_dir()?;
                self.inner.check_perms(parent_id, ImfsNodeOperation::Write)?;
                let id = self.inner.add_node(parent_id, ns[n].clone(), Node::empty_file())?;
                proof {
                    lemma_add_node_tidy(old(self)@.store, old(self)@.root, parent_id, ns@[n as int]@, NodeView::new_file(Seq::empty(), None));
                }
                id
            },
        };
        if options.truncate && !options.write {
            return Err(FsError::TruncateWithoutWrite);
        }
        if (options.create || options.create_new) && !(options.write || options.append) {
            return Err(FsError::CreateWithoutWrite);
        }
        let mode = if options.read {
            self.inner.check_perms(node_id, ImfsNodeOperation::Read)?;
            OpenFileMode::Read
        } else if options.write || options.append {
            self.inner.check_perms(node_id, ImfsNodeOperation::Write)?;
            OpenFileMode::Write
        } else {
            return Err(FsError::UnknownAccess);
        };
        let node = self.inner.nodes.get(node_id)?;
        let _file = node.as_file()?;
        match mode {
            OpenFileMode::Read => Ok(ImfsFile::Read(FileReadHandle::new(self, node_id)?)),
            OpenFileMode::Write => Ok(ImfsFile::Write(FileWriteHandle::new(self, options, node_id)?)),
        }
    }
}

impl VfsOpenOptions {
    /// Opens the file at `path` of `fs` with these options.
    pub fn open(&self, path: &str, fs: &mut InMemoryFs) -> (r: Result<ImfsFile, FsError>)
        requires
            old(fs).wf(),
        ensures
            final(fs).wf(),
            InMemoryFs::opened(old(fs)@, final(fs)@, path@, *self, r),
    {
        fs.open(path, self)
    }
}

} // verus!
