//! The backend-independent vocabulary of the file system: permissions,
//! node types, metadata and the options a file is opened with.

use vstd::prelude::*;

verus! {

/// The permission bits of a file system node: bit `0b10` grants reading,
/// bit `0b01` grants writing.
#[derive(Clone, Copy, Debug, PartialEq, Eq, Structural, Hash)]
pub struct Permissions {
    pub bits: u16,
}

/// The bit that grants reading.
pub const READ_BIT: u16 = 2u16;

/// The bit that grants writing.
pub const WRITE_BIT: u16 = 1u16;

impl Permissions {
    /// Read access only.
    pub fn read_only() -> (p: Self)
        ensures
            p.bits == READ_BIT,
    {
        Permissions { bits: READ_BIT }
    }

    /// Write access only.
    pub fn write_only() -> (p: Self)
        ensures
            p.bits == WRITE_BIT,
    {
        Permissions { bits: WRITE_BIT }
    }

    /// Read and write access, the default of every new node.
    pub fn read_write() -> (p: Self)
        ensures
            p.bits == 3,
    {
        Permissions { bits: 3u16 }
    }

    /// No access at all.
    pub fn empty() -> (p: Self)
        ensures
            p.bits == 0,
    {
        Permissions { bits: 0u16 }
    }

    /// Whether every bit of `other` is set in `self`.
    pub open spec fn spec_contains(&self, other: Permissions) -> bool {
        self.bits & other.bits == other.bits
    }

    /// Whether every bit of `other` is set in `self`.
    #[verifier::when_used_as_spec(spec_contains)]
    pub fn contains(&self, other: Permissions) -> (b: bool)
        ensures
            b == self.spec_contains(other),
    {
        self.bits & other.bits == other.bits
    }

    /// The bits set in both `self` and `other`.
    pub open spec fn spec_intersection(&self, other: Permissions) -> Permissions {
        Permissions { bits: self.bits & other.bits }
    }

    /// The bits set in both `self` and `other`.
    #[verifier::when_used_as_spec(spec_intersection)]
    pub fn intersection(&self, other: Permissions) -> (p: Permissions)
        ensures
            p == self.spec_intersection(other),
    {
        Permissions { bits: self.bits & other.bits }
    }

    /// The bits set in `self` or `other`.
    pub fn union(&self, other: Permissions) -> (p: Permissions)
        ensures
            p.bits == self.bits | other.bits,
    {
        Permissions { bits: self.bits | other.bits }
    }

    /// Whether this node is readable.
    pub open spec fn spec_can_read(&self) -> bool {
        self.bits & READ_BIT == READ_BIT
    }

    /// Whether this node is writable.
    pub open spec fn spec_can_write(&self) -> bool {
        self.bits & WRITE_BIT == WRITE_BIT
    }

    /// Whether this node is readable.
    #[verifier::when_used_as_spec(spec_can_read)]
    pub fn can_read(&self) -> (b: bool)
        ensures
            b == self.spec_can_read(),
    {
        self.bits & READ_BIT == READ_BIT
    }

    /// Whether this node is writable.
    #[verifier::when_used_as_spec(spec_can_write)]
    pub fn can_write(&self) -> (b: bool)
        ensures
            b == self.spec_can_write(),
    {
        self.bits & WRITE_BIT == WRITE_BIT
    }
}

impl Default for Permissions {
    fn default() -> (p: Self)
        ensures
            p.bits == 3,
    {
        Permissions { bits: 3u16 }
    }
}

/// The type of a file system node.
#[derive(Clone, Copy, Debug, PartialEq, Eq, Structural, Hash)]
pub enum VfsNodeType {
    /// A regular directory
    Directory,
    /// A regular file
    File,
    /// A symbolic link
    Symlink,
    /// An unsupported node type.
    Unknown,
}

/// Common metadata of a file system node.
#[derive(Clone, Copy, Debug, PartialEq, Eq, Structural)]
pub struct VfsMetadata {
    /// The node's effective permissions.
    pub mode: Permissions,
    /// The node's size in bytes (zero for directories).
    pub size: u64,
    /// The node's type.
    pub ty: VfsNodeType,
}

/// An OS-agnostic replica of `std::fs::OpenOptions` whose fields are all public.
#[derive(Clone, Copy, Debug, PartialEq, Eq, Structural)]
pub struct VfsOpenOptions {
    pub append: bool,
    pub create: bool,
    pub create_new: bool,
    pub read: bool,
    pub truncate: bool,
    pub write: bool,
}

impl VfsOpenOptions {
    /// Creates a new set of options with all flags set to `false`.
    pub fn new() -> (o: Self)
        ensures
            !o.append && !o.create && !o.create_new && !o.read && !o.truncate && !o.write,
    {
        VfsOpenOptions {
            append: false,
            create: false,
            create_new: false,
            read: false,
            truncate: false,
            write: false,
        }
    }

    /// Sets the option for append mode.
    pub fn append(&mut self, append: bool) -> (r: &mut Self)
        ensures
            *r == (VfsOpenOptions { append, ..*old(self) }),
            *final(self) == *final(r),
    {
        self.append = append;
        self
    }

    /// Sets the option to create a new file, or open it if it already exists.
    pub fn create(&mut self, create: bool) -> (r: &mut Self)
        ensures
            *r == (VfsOpenOptions { create, ..*old(self) }),
            *final(self) == *final(r),
    {
        self.create = create;
        self
    }

    /// Sets the option to create a new file, failing if it already exists.
    pub fn create_new(&mut self, create_new: bool) -> (r: &mut Self)
        ensures
            *r == (VfsOpenOptions { create_new, ..*old(self) }),
            *final(self) == *final(r),
    {
        self.create_new = create_new;
        self
    }

    /// Sets the option for read access.
    pub fn read(&mut self, read: bool) -> (r: &mut Self)
        ensures
            *r == (VfsOpenOptions { read, ..*old(self) }),
            *final(self) == *final(r),
    {
        self.read = read;
        self
    }

    /// Sets the option to truncate the file to zero length on open.
    pub fn truncate(&mut self, truncate: bool) -> (r: &mut Self)
        ensures
            *r == (VfsOpenOptions { truncate, ..*old(self) }),
            *final(self) == *final(r),
    {
        self.truncate = truncate;
        self
    }

    /// Sets the option for write access.
    pub fn write(&mut self, write: bool) -> (r: &mut Self)
        ensures
            *r == (VfsOpenOptions { write, ..*old(self) }),
            *final(self) == *final(r),
    {
        self.write = write;
        self
    }
}

} // verus!
