//! The operating system's file system. Its operations run outside the
//! library; what the library holds is the check every one of them makes of
//! a path before handing it over.

use vstd::prelude::*;
use typed_path::Utf8TypedPath;
use crate::error::FsError;
use crate::vfs::{Permissions, VfsMetadata, VfsNodeType};

verus! {

/// Whether `typed_path` reads `path` as relative, once it has decided
/// whether `path` is a Unix or a Windows path.
pub uninterp spec fn typed_relative(path: Seq<char>) -> bool;

/// Calls `Utf8TypedPath::derive(path).is_relative()`; the result is named
/// `typed_relative(path)`.
#[verifier::external_body]
fn typed_is_relative(path: &str) -> (b: bool)
    ensures
        b == typed_relative(path@),
{
    Utf8TypedPath::derive(path).is_relative()
}

/// A file system backed by the operating system's.
#[derive(Debug)]
pub struct OsFileSystem {}

impl OsFileSystem {
    /// The operating system's file system.
    pub fn new() -> (fs: Self) {
        OsFileSystem {}
    }

    /// Refuses a relative path, as every operation of this file system
    /// does before it reaches the operating system.
    pub fn ensure_absolute(path: &str) -> (r: Result<(), FsError>)
        ensures
            r == if typed_relative(path@) {
                Err::<(), FsError>(FsError::RelativePath)
            } else {
                Ok(())
            },
    {
        if typed_is_relative(path) {
            Err(FsError::RelativePath)
        } else {
            Ok(())
        }
    }
}

/// The node type of an entry of the operating system's file system, from
/// what its file type says it is.
pub fn file_type_to_vfs(is_file: bool, is_dir: bool, is_symlink: bool) -> (t: VfsNodeType)
    ensures
        t == if is_file {
            VfsNodeType::File
        } else if is_dir {
            VfsNodeType::Directory
        } else if is_symlink {
            VfsNodeType::Symlink
        } else {
            VfsNodeType::Unknown
        },
{
    if is_file {
        VfsNodeType::File
    } else if is_dir {
        VfsNodeType::Directory
    } else if is_symlink {
        VfsNodeType::Symlink
    } else {
        VfsNodeType::Unknown
    }
}

/// The metadata of an entry of the operating system's file system: read
/// access only when it is read-only, read and write access otherwise.
pub fn into_vfs_metadata(readonly: bool, size: u64, ty: VfsNodeType) -> (m: VfsMetadata)
    ensures
        m.mode == (if readonly { Permissions { bits: 2 } } else { Permissions { bits: 3 } }),
        m.size == size,
        m.ty == ty,
{
    let mode = if readonly { Permissions::read_only() } else { Permissions::read_write() };
    VfsMetadata { mode, size, ty }
}

} // verus!
