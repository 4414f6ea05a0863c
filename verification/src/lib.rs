//! A verified in-memory file system with a generational node store,
//! pluggable checksums and the configuration types of its walkers.

pub mod error;
pub mod vfs;
pub mod node;
pub mod store;
pub mod model;
pub mod inner;
pub mod path;
pub mod fs;
pub mod handle;
pub mod dir;
pub mod names;
pub mod snapshot;
pub mod checksum;
pub mod walker;
pub mod parallel;
pub mod walk;
pub mod duplicates;
pub mod os;
pub mod laws;
pub mod tidy;
pub mod snapshot_laws;
