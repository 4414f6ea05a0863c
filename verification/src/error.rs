//! Errors reported by the file system and its node store.

use vstd::prelude::*;

verus! {

/// The broad category of an error, mirroring the kinds of `std::io::ErrorKind`
/// that the file system reports.
#[derive(Clone, Copy, Debug, PartialEq, Eq, Structural)]
pub enum ErrorKind {
    NotFound,
    PermissionDenied,
    AlreadyExists,
    InvalidInput,
    InvalidData,
    NotADirectory,
    IsADirectory,
    DirectoryNotEmpty,
    QuotaExceeded,
    Unsupported,
    InvalidFilename,
    Other,
}

/// Every error the file system can report, one variant per cause.
#[derive(Clone, Copy, Debug, PartialEq, Eq, Structural)]
pub enum FsError {
    /// No slot was ever allocated at the handle's index, or the slot is vacant.
    SlotNotFound,
    /// The handle's generation does not match the slot's: the node was removed.
    StaleNode,
    /// Every index of the node store is in use.
    NodeIdsExhausted,
    /// A directory was expected, a file was found.
    NotADirectory,
    /// A file was expected, a directory was found.
    IsADirectory,
    /// A path component does not exist.
    PathNotFound,
    /// The path (or file) already exists.
    AlreadyExists,
    /// The path has no final file name (it is the root).
    NoFileName,
    /// The path is relative.
    RelativePath,
    /// The path holds a character that Unix paths do not allow.
    InvalidPath,
    /// Reading or writing is not permitted on a directory.
    DirectoryAccessDenied,
    /// Reading or writing is not permitted on a file.
    FileAccessDenied,
    /// The root directory cannot be removed.
    CannotRemoveRoot,
    /// Permissions cannot be set below a read-only directory.
    ReadOnlyDirectory,
    /// A directory that had to be empty is not.
    DirectoryNotEmpty,
    /// The directory to remove is not empty.
    RemoveNonEmptyDirectory,
    /// A chain of parents or children is longer than the store has nodes.
    TooDeep,
    /// A file was opened for truncation without write access.
    TruncateWithoutWrite,
    /// A file was opened for creation without write access.
    CreateWithoutWrite,
    /// A file was opened with neither read, write nor append access.
    UnknownAccess,
    /// A file's contents are not valid UTF-8.
    InvalidUtf8,
    /// A name cannot be joined onto a path.
    InvalidJoin,
    /// The snapshot's root is not a directory.
    SnapshotRootNotDirectory,
    /// Symbolic links are not supported.
    SymlinksUnsupported,
    /// A handle was not opened for reading.
    HandleNotReadable,
    /// A handle was not opened for writing.
    HandleNotWritable,
    /// A seek went before the start of the stream or past `u64::MAX`.
    InvalidSeek,
    /// A write would reach past the largest possible buffer length.
    PositionTooLarge,
    /// A path does not end in a file name.
    MissingFileName,
    /// A walk went deeper than the largest depth it can count.
    DepthExceeded,
}

impl FsError {
    /// The category of this error.
    pub open spec fn spec_kind(&self) -> ErrorKind {
        match self {
            FsError::SlotNotFound => ErrorKind::NotFound,
            FsError::StaleNode => ErrorKind::Other,
            FsError::NodeIdsExhausted => ErrorKind::QuotaExceeded,
            FsError::NotADirectory => ErrorKind::NotADirectory,
            FsError::IsADirectory => ErrorKind::IsADirectory,
            FsError::PathNotFound => ErrorKind::NotFound,
            FsError::AlreadyExists => ErrorKind::AlreadyExists,
            FsError::NoFileName => ErrorKind::InvalidInput,
            FsError::RelativePath => ErrorKind::InvalidInput,
            FsError::InvalidPath => ErrorKind::InvalidInput,
            FsError::DirectoryAccessDenied => ErrorKind::PermissionDenied,
            FsError::FileAccessDenied => ErrorKind::PermissionDenied,
            FsError::CannotRemoveRoot => ErrorKind::PermissionDenied,
            FsError::ReadOnlyDirectory => ErrorKind::PermissionDenied,
            FsError::DirectoryNotEmpty => ErrorKind::DirectoryNotEmpty,
            FsError::RemoveNonEmptyDirectory => ErrorKind::AlreadyExists,
            FsError::TooDeep => ErrorKind::Other,
            FsError::TruncateWithoutWrite => ErrorKind::InvalidInput,
            FsError::CreateWithoutWrite => ErrorKind::InvalidInput,
            FsError::UnknownAccess => ErrorKind::InvalidInput,
            FsError::InvalidUtf8 => ErrorKind::InvalidData,
            FsError::InvalidJoin => ErrorKind::Other,
            FsError::SnapshotRootNotDirectory => ErrorKind::InvalidInput,
            FsError::SymlinksUnsupported => ErrorKind::Unsupported,
            FsError::HandleNotReadable => ErrorKind::PermissionDenied,
            FsError::HandleNotWritable => ErrorKind::PermissionDenied,
            FsError::InvalidSeek => ErrorKind::InvalidInput,
            FsError::PositionTooLarge => ErrorKind::InvalidInput,
            FsError::MissingFileName => ErrorKind::InvalidFilename,
            FsError::DepthExceeded => ErrorKind::Other,
        }
    }

    /// The category of this error.
    #[verifier::when_used_as_spec(spec_kind)]
    pub fn kind(&self) -> (k: ErrorKind)
        ensures
            k == self.spec_kind(),
    {
        match self {
            FsError::SlotNotFound => ErrorKind::NotFound,
            FsError::StaleNode => ErrorKind::Other,
            FsError::NodeIdsExhausted => ErrorKind::QuotaExceeded,
            FsError::NotADirectory => ErrorKind::NotADirectory,
            FsError::IsADirectory => ErrorKind::IsADirectory,
            FsError::PathNotFound => ErrorKind::NotFound,
            FsError::AlreadyExists => ErrorKind::AlreadyExists,
            FsError::NoFileName => ErrorKind::InvalidInput,
            FsError::RelativePath => ErrorKind::InvalidInput,
            FsError::InvalidPath => ErrorKind::InvalidInput,
            FsError::DirectoryAccessDenied => ErrorKind::PermissionDenied,
            FsError::FileAccessDenied => ErrorKind::PermissionDenied,
            FsError::CannotRemoveRoot => ErrorKind::PermissionDenied,
            FsError::ReadOnlyDirectory => ErrorKind::PermissionDenied,
            FsError::DirectoryNotEmpty => ErrorKind::DirectoryNotEmpty,
            FsError::RemoveNonEmptyDirectory => ErrorKind::AlreadyExists,
            FsError::TooDeep => ErrorKind::Other,
            FsError::TruncateWithoutWrite => ErrorKind::InvalidInput,
            FsError::CreateWithoutWrite => ErrorKind::InvalidInput,
            FsError::UnknownAccess => ErrorKind::InvalidInput,
            FsError::InvalidUtf8 => ErrorKind::InvalidData,
            FsError::InvalidJoin => ErrorKind::Other,
            FsError::SnapshotRootNotDirectory => ErrorKind::InvalidInput,
            FsError::SymlinksUnsupported => ErrorKind::Unsupported,
            FsError::HandleNotReadable => ErrorKind::PermissionDenied,
            FsError::HandleNotWritable => ErrorKind::PermissionDenied,
            FsError::InvalidSeek => ErrorKind::InvalidInput,
            FsError::PositionTooLarge => ErrorKind::InvalidInput,
            FsError::MissingFileName => ErrorKind::InvalidFilename,
            FsError::DepthExceeded => ErrorKind::Other,
        }
    }

    /// The human-readable description of this error.
    pub open spec fn spec_message(&self) -> Seq<char> {
        match self {
            FsError::SlotNotFound => "cannot find specified node slot"@,
            FsError::StaleNode => "stale node"@,
            FsError::NodeIdsExhausted => "node id exhausted"@,
            FsError::NotADirectory => "expected a directory, found a file"@,
            FsError::IsADirectory => "expected a file, found a directory"@,
            FsError::PathNotFound => "specified path not found"@,
            FsError::AlreadyExists => "specified path already exists"@,
            FsError::NoFileName => "path has no file name"@,
            FsError::RelativePath => "relative paths are prohibited (use absolute paths instead)"@,
            FsError::InvalidPath => "invalid Unix path"@,
            FsError::DirectoryAccessDenied => "could not access directory"@,
            FsError::FileAccessDenied => "could not access file"@,
            FsError::CannotRemoveRoot => "cannot remove root directory"@,
            FsError::ReadOnlyDirectory => "cannot set permissions on a read-only directory"@,
            FsError::DirectoryNotEmpty => "target directory not empty"@,
            FsError::RemoveNonEmptyDirectory => "directory not empty"@,
            FsError::TooDeep => "specified path has entries that are too nested"@,
            FsError::TruncateWithoutWrite => "attempt to truncate file with no write access"@,
            FsError::CreateWithoutWrite => "attempt to create file with no write access"@,
            FsError::UnknownAccess => "unknown open access"@,
            FsError::InvalidUtf8 => "stream did not contain valid UTF-8"@,
            FsError::InvalidJoin => "name cannot be joined onto the path"@,
            FsError::SnapshotRootNotDirectory => "root snapshot node should be a directory"@,
            FsError::SymlinksUnsupported => "symbolic links are not supported in InMemoryFs (yet)"@,
            FsError::HandleNotReadable => "handle not open for reading"@,
            FsError::HandleNotWritable => "handle not open for writing"@,
            FsError::InvalidSeek => "invalid seek to a negative or overflowing position"@,
            FsError::PositionTooLarge => "cursor position exceeds maximum possible vector length"@,
            FsError::MissingFileName => "path has no file name"@,
            FsError::DepthExceeded => "exceeded maximum depth"@,
        }
    }

    /// A human-readable description of this error.
    pub fn message(&self) -> (m: &'static str)
        ensures
            m@ == self.spec_message(),
    {
        match self {
            FsError::SlotNotFound => "cannot find specified node slot",
            FsError::StaleNode => "stale node",
            FsError::NodeIdsExhausted => "node id exhausted",
            FsError::NotADirectory => "expected a directory, found a file",
            FsError::IsADirectory => "expected a file, found a directory",
            FsError::PathNotFound => "specified path not found",
            FsError::AlreadyExists => "specified path already exists",
            FsError::NoFileName => "path has no file name",
            FsError::RelativePath => "relative paths are prohibited (use absolute paths instead)",
            FsError::InvalidPath => "invalid Unix path",
            FsError::DirectoryAccessDenied => "could not access directory",
            FsError::FileAccessDenied => "could not access file",
            FsError::CannotRemoveRoot => "cannot remove root directory",
            FsError::ReadOnlyDirectory => "cannot set permissions on a read-only directory",
            FsError::DirectoryNotEmpty => "target directory not empty",
            FsError::RemoveNonEmptyDirectory => "directory not empty",
            FsError::TooDeep => "specified path has entries that are too nested",
            FsError::TruncateWithoutWrite => "attempt to truncate file with no write access",
            FsError::CreateWithoutWrite => "attempt to create file with no write access",
            FsError::UnknownAccess => "unknown open access",
            FsError::InvalidUtf8 => "stream did not contain valid UTF-8",
            FsError::InvalidJoin => "name cannot be joined onto the path",
            FsError::SnapshotRootNotDirectory => "root snapshot node should be a directory",
            FsError::SymlinksUnsupported => "symbolic links are not supported in InMemoryFs (yet)",
            FsError::HandleNotReadable => "handle not open for reading",
            FsError::HandleNotWritable => "handle not open for writing",
            FsError::InvalidSeek => "invalid seek to a negative or overflowing position",
            FsError::PositionTooLarge => "cursor position exceeds maximum possible vector length",
            FsError::MissingFileName => "path has no file name",
            FsError::DepthExceeded => "exceeded maximum depth",
        }
    }
}

} // verus!
