//! File system nodes: directories that map names to node handles, and files
//! that hold bytes. Each node carries its own permission setting and a
//! handle to the directory it was created in.

use vstd::prelude::*;
use crate::error::FsError;
use crate::vfs::{Permissions, VfsMetadata, VfsNodeType};

verus! {

/// A generational handle to a node in the store.
#[derive(Clone, Copy, Debug, PartialEq, Eq, Structural, Hash)]
pub struct NodeId {
    pub index: usize,
    pub generation: u32,
}

impl NodeId {
    /// A handle to the slot at `index` in its `generation`.
    pub fn new(index: usize, generation: u32) -> (id: NodeId)
        ensures
            id.index == index,
            id.generation == generation,
    {
        NodeId { index, generation }
    }

    /// The slot index this handle points at.
    pub fn index(&self) -> (i: usize)
        ensures
            i == self.index,
    {
        self.index
    }

    /// The generation of the slot this handle was issued for.
    pub fn generation(&self) -> (g: u32)
        ensures
            g == self.generation,
    {
        self.generation
    }
}

/// A node's own permission setting: either explicitly set, or inherited
/// from the directories above it.
#[derive(Clone, Copy, Debug, PartialEq, Eq, Structural)]
pub enum NodePermissions {
    Inherited,
    Explicit(Permissions),
}

/// One entry of a directory: a name and the node it points to.
#[derive(Debug)]
pub struct DirEntryRecord {
    pub name: String,
    pub id: NodeId,
}

/// The name-to-node entries of a directory, in the order they were added.
pub type Entries = Seq<(Seq<char>, NodeId)>;

/// `i` is the first position of `entries` that carries `name`.
pub open spec fn first_named(entries: Entries, name: Seq<char>, i: int) -> bool {
    &&& 0 <= i < entries.len()
    &&& entries[i].0 == name
    &&& forall|j: int| 0 <= j < i ==> entries[j].0 != name
}

/// The first position of `entries` that carries `name`, if any.
pub open spec fn position_of(entries: Entries, name: Seq<char>) -> Option<int> {
    if exists|i: int| first_named(entries, name, i) {
        Some(choose|i: int| first_named(entries, name, i))
    } else {
        None
    }
}

/// The node that `name` maps to in `entries`, if any.
pub open spec fn child_of(entries: Entries, name: Seq<char>) -> Option<NodeId> {
    match position_of(entries, name) {
        Some(i) => Some(entries[i].1),
        None => None,
    }
}

/// `entries` after mapping `name` to `id`: an existing entry of that name is
/// repointed in place, otherwise a new entry is appended.
pub open spec fn entries_insert(entries: Entries, name: Seq<char>, id: NodeId) -> Entries {
    match position_of(entries, name) {
        Some(i) => entries.update(i, (name, id)),
        None => entries.push((name, id)),
    }
}

/// `entries` without the entry named `name`, the others keeping their order.
pub open spec fn entries_remove(entries: Entries, name: Seq<char>) -> Entries {
    match position_of(entries, name) {
        Some(i) => entries.remove(i),
        None => entries,
    }
}

/// The first position of a name is unique.
pub proof fn lemma_first_named_unique(entries: Entries, name: Seq<char>, i: int)
    requires
        first_named(entries, name, i),
    ensures
        position_of(entries, name) == Some(i),
{
    let k = choose|k: int| first_named(entries, name, k);
    assert(first_named(entries, name, k));
    if k < i {
        assert(entries[k].0 != name);
    } else if k > i {
        assert(entries[i].0 != name);
    }
}

/// The content of a node, as the specifications see it.
pub enum NodeContent {
    Directory(Entries),
    File(Seq<u8>),
}

/// A node, as the specifications see it.
pub struct NodeView {
    pub content: NodeContent,
    pub permissions: NodePermissions,
    pub parent: Option<NodeId>,
}

impl NodeView {
    pub open spec fn is_dir(self) -> bool {
        self.content is Directory
    }

    pub open spec fn is_file(self) -> bool {
        self.content is File
    }

    pub open spec fn entries(self) -> Entries {
        match self.content {
            NodeContent::Directory(e) => e,
            NodeContent::File(_) => Seq::empty(),
        }
    }

    pub open spec fn data(self) -> Seq<u8> {
        match self.content {
            NodeContent::Directory(_) => Seq::empty(),
            NodeContent::File(d) => d,
        }
    }

    pub open spec fn ty(self) -> VfsNodeType {
        match self.content {
            NodeContent::Directory(_) => VfsNodeType::Directory,
            NodeContent::File(_) => VfsNodeType::File,
        }
    }

    /// The same node with another permission setting.
    pub open spec fn with_permissions(self, p: NodePermissions) -> NodeView {
        NodeView { permissions: p, ..self }
    }

    /// The same node with other entries.
    pub open spec fn with_entries(self, e: Entries) -> NodeView {
        NodeView { content: NodeContent::Directory(e), ..self }
    }

    /// The same node with other file contents.
    pub open spec fn with_data(self, d: Seq<u8>) -> NodeView {
        NodeView { content: NodeContent::File(d), ..self }
    }

    /// A freshly created empty directory below `parent`.
    pub open spec fn new_dir(parent: Option<NodeId>) -> NodeView {
        NodeView {
            content: NodeContent::Directory(Seq::empty()),
            permissions: NodePermissions::Explicit(Permissions { bits: 3 }),
            parent,
        }
    }

    /// A freshly created file holding `data` below `parent`.
    pub open spec fn new_file(data: Seq<u8>, parent: Option<NodeId>) -> NodeView {
        NodeView {
            content: NodeContent::File(data),
            permissions: NodePermissions::Explicit(Permissions { bits: 3 }),
            parent,
        }
    }
}

/// A directory node.
#[derive(Debug)]
pub struct DirectoryNode {
    pub children: Vec<DirEntryRecord>,
    pub permissions: NodePermissions,
    pub parent: Option<NodeId>,
}

/// A file node.
#[derive(Debug)]
pub struct FileNode {
    pub content: Vec<u8>,
    pub permissions: NodePermissions,
    pub parent: Option<NodeId>,
}

/// A file system node, either a directory or a file.
#[derive(Debug)]
pub enum Node {
    Directory(DirectoryNode),
    File(FileNode),
}

impl DirectoryNode {
    /// The entries of this directory, in order.
    pub open spec fn entries(&self) -> Entries {
        self.children@.map_values(|c: DirEntryRecord| (c.name@, c.id))
    }

    /// The position of the first entry named `name`.
    fn position(&self, name: &String) -> (r: Option<usize>)
        ensures
            match r {
                Some(i) => position_of(self.entries(), name@) == Some(i as int),
                None => position_of(self.entries(), name@) is None,
            },
    {
        let mut i: usize = 0;
        while i < self.children.len()
            invariant
                0 <= i <= self.children@.len(),
                forall|j: int| 0 <= j < i ==> self.entries()[j].0 != name@,
            decreases self.children@.len() - i,
        {
            if self.children[i].name == *name {
                proof {
                    assert(first_named(self.entries(), name@, i as int));
                    lemma_first_named_unique(self.entries(), name@, i as int);
                }
                return Some(i);
            }
            i = i + 1;
        }
        proof {
            if exists|k: int| first_named(self.entries(), name@, k) {
                let k = choose|k: int| first_named(self.entries(), name@, k);
                assert(self.entries()[k].0 == name@);
            }
        }
        None
    }

    /// Maps `name` to `node`, replacing an earlier entry of that name.
    pub fn add(&mut self, name: String, node: NodeId)
        ensures
            final(self).entries() == entries_insert(old(self).entries(), name@, node),
            final(self).permissions == old(self).permissions,
            final(self).parent == old(self).parent,
    {
        let ghost name_view = name@;
        match self.position(&name) {
            Some(i) => {
                self.children.set(i, DirEntryRecord { name, id: node });
                assert(self.entries() =~= old(self).entries().update(i as int, (name_view, node)));
            },
            None => {
                self.children.push(DirEntryRecord { name, id: node });
                assert(self.entries() =~= old(self).entries().push((name_view, node)));
            },
        }
    }

    /// Whether an entry named `name` exists.
    pub fn contains(&self, name: &String) -> (b: bool)
        ensures
            b == (child_of(self.entries(), name@) is Some),
    {
        self.position(name).is_some()
    }

    /// The node that `name` maps to.
    pub fn get(&self, name: &String) -> (r: Option<NodeId>)
        ensures
            r == child_of(self.entries(), name@),
    {
        match self.position(name) {
            Some(i) => Some(self.children[i].id),
            None => None,
        }
    }

    /// Whether the directory has no entries.
    pub fn is_empty(&self) -> (b: bool)
        ensures
            b == (self.entries().len() == 0),
    {
        self.children.len() == 0
    }

    /// Removes the entry named `name`, if there is one.
    pub fn remove(&mut self, name: &String)
        ensures
            final(self).entries() == entries_remove(old(self).entries(), name@),
            final(self).permissions == old(self).permissions,
            final(self).parent == old(self).parent,
    {
        match self.position(name) {
            Some(i) => {
                self.children.remove(i);
                assert(self.entries() =~= old(self).entries().remove(i as int));
            },
            None => {},
        }
    }
}

impl View for Node {
    type V = NodeView;

    open spec fn view(&self) -> NodeView {
        match self {
            Node::Directory(d) => NodeView {
                content: NodeContent::Directory(d.entries()),
                permissions: d.permissions,
                parent: d.parent,
            },
            Node::File(f) => NodeView {
                content: NodeContent::File(f.content@),
                permissions: f.permissions,
                parent: f.parent,
            },
        }
    }
}

impl Node {
    /// Creates an empty directory node with read-write permissions.
    pub fn empty_dir() -> (n: Self)
        ensures
            n@ == NodeView::new_dir(None),
    {
        let n = Node::Directory(DirectoryNode {
            children: Vec::new(),
            permissions: NodePermissions::Explicit(Permissions::read_write()),
            parent: None,
        });
        assert(n@.entries() =~= Seq::empty());
        n
    }

    /// Creates an empty file node with read-write permissions.
    pub fn empty_file() -> (n: Self)
        ensures
            n@ == NodeView::new_file(Seq::empty(), None),
    {
        Node::File(FileNode {
            content: Vec::new(),
            permissions: NodePermissions::Explicit(Permissions::read_write()),
            parent: None,
        })
    }

    /// Creates a file node holding `content`, with read-write permissions.
    pub fn with_file(content: Vec<u8>) -> (n: Self)
        ensures
            n@ == NodeView::new_file(content@, None),
    {
        Node::File(FileNode {
            content,
            permissions: NodePermissions::Explicit(Permissions::read_write()),
            parent: None,
        })
    }

    /// The inner directory, or `NotADirectory` for a file.
    pub fn as_dir(&self) -> (r: Result<&DirectoryNode, FsError>)
        ensures
            match r {
                Ok(d) => self@.is_dir() && self@.entries() == d.entries() && *self == Node::Directory(*d),
                Err(e) => self@.is_file() && e == FsError::NotADirectory,
            },
    {
        match self {
            Node::Directory(d) => Ok(d),
            Node::File(_) => Err(FsError::NotADirectory),
        }
    }

    /// The inner file, or `IsADirectory` for a directory.
    pub fn as_file(&self) -> (r: Result<&FileNode, FsError>)
        ensures
            match r {
                Ok(f) => self@.is_file() && self@.data() == f.content@,
                Err(e) => self@.is_dir() && e == FsError::IsADirectory,
            },
    {
        match self {
            Node::File(f) => Ok(f),
            Node::Directory(_) => Err(FsError::IsADirectory),
        }
    }

    /// The node's type.
    pub fn ty(&self) -> (t: VfsNodeType)
        ensures
            t == self@.ty(),
    {
        match self {
            Node::Directory(_) => VfsNodeType::Directory,
            Node::File(_) => VfsNodeType::File,
        }
    }

    /// The node's own permission setting.
    pub fn permissions(&self) -> (p: NodePermissions)
        ensures
            p == self@.permissions,
    {
        match self {
            Node::Directory(d) => d.permissions,
            Node::File(f) => f.permissions,
        }
    }

    /// The node's metadata as the node alone gives it: its own permission
    /// setting (reading and writing where it inherits its directory's),
    /// its size and its type.
    pub fn metadata(&self) -> (m: VfsMetadata)
        ensures
            m.mode == match self@.permissions {
                NodePermissions::Explicit(p) => p,
                NodePermissions::Inherited => Permissions { bits: 3 },
            },
            m.size == self@.data().len(),
            m.ty == self@.ty(),
    {
        let mode = match self.permissions() {
            NodePermissions::Explicit(p) => p,
            NodePermissions::Inherited => Permissions::read_write(),
        };
        match self {
            Node::Directory(_) => VfsMetadata { mode, size: 0, ty: VfsNodeType::Directory },
            Node::File(f) => VfsMetadata { mode, size: f.content.len() as u64, ty: VfsNodeType::File },
        }
    }

    /// The directory this node was created in.
    pub fn parent(&self) -> (p: Option<NodeId>)
        ensures
            p == self@.parent,
    {
        match self {
            Node::Directory(d) => d.parent,
            Node::File(f) => f.parent,
        }
    }

    /// Records the directory this node lives in.
    pub fn set_parent(&mut self, parent: NodeId)
        ensures
            final(self)@ == (NodeView { parent: Some(parent), ..old(self)@ }),
    {
        match self {
            Node::Directory(d) => { d.parent = Some(parent); },
            Node::File(f) => { f.parent = Some(parent); },
        }
    }

    /// Replaces the node's own permission setting.
    pub fn set_permissions(&mut self, permissions: NodePermissions)
        ensures
            final(self)@ == old(self)@.with_permissions(permissions),
    {
        match self {
            Node::Directory(d) => { d.permissions = permissions; },
            Node::File(f) => { f.permissions = permissions; },
        }
    }

    /// The size in bytes: the length of a file's contents, zero for a directory.
    pub fn size(&self) -> (s: u64)
        ensures
            s == self@.data().len(),
    {
        match self {
            Node::Directory(_) => 0,
            Node::File(f) => f.content.len() as u64,
        }
    }
}

impl FileNode {
    /// The file's contents.
    pub fn read(&self) -> (c: &Vec<u8>)
        ensures
            c@ == self.content@,
    {
        &self.content
    }

    /// Replaces the file's contents.
    pub fn replace_owned(&mut self, content: Vec<u8>)
        ensures
            final(self).content@ == content@,
            final(self).permissions == old(self).permissions,
            final(self).parent == old(self).parent,
    {
        self.content = content;
    }

    /// Replaces the file's contents with a copy of `content`.
    pub fn replace(&mut self, content: &[u8])
        ensures
            final(self).content@ == content@,
            final(self).permissions == old(self).permissions,
            final(self).parent == old(self).parent,
    {
        let mut v: Vec<u8> = Vec::new();
        v.extend_from_slice(content);
        self.content = v;
    }

    /// Copies the contents and the permission setting of `source` into `target`.
    pub fn copy(source: &FileNode, target: &mut FileNode)
        ensures
            final(target).content@ == source.content@,
            final(target).permissions == source.permissions,
            final(target).parent == old(target).parent,
    {
        target.replace(source.content.as_slice());
        target.permissions = source.permissions;
    }
}

} // verus!
