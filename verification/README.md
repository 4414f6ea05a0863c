# fat

An in-memory file system with a generational node store, snapshots, open
files, checksums and the decisions of a parallel directory walker and
duplicate finder, verified with Verus.

## Layout

- `src/` is the verified library.
  - `store.rs`: the generational arena of nodes (`NodeStore`) and its
    specification (`StoreView`).
  - `node.rs`: nodes, directory entries and permission settings.
  - `model.rs`: what every file system operation does, as specification
    functions over the store's view.
  - `inner.rs`, `fs.rs`: the file system (`InMemoryFs`), each operation
    proved to do what `model.rs` says.
  - `path.rs`: path normalization through `typed_path`.
  - `handle.rs`: open files (a cursor over a copy of the contents).
  - `dir.rs`: directory listings and the ordered tree walk.
  - `snapshot.rs`: snapshots and their builders, and what a chain of
    builder calls gives (the last node added under each name, the last
    permissions set).
  - `checksum.rs`: checksums and the SHA-256, XXH3 and BLAKE3 hash
    functions (the digests are computed by `sha2`, `xxhash-rust` and
    `blake3`).
  - `vfs.rs`, `error.rs`, `names.rs`: permissions, metadata, open options,
    errors and the order of names.
  - `walker.rs`, `parallel.rs`, `walk.rs`, `duplicates.rs`, `os.rs`: the
    configuration and the per-step decisions of the walkers, the parallel
    iterator and the duplicate finder, a one-thread walk whose count is
    specified (it counts the entries of the directories below the root),
    and the grouping of files by size and BLAKE3 digests, each group
    returned with its digest.
  - `laws.rs`: properties that span operations (a read gives back a write,
    a removed file is gone, a renamed file moves its contents, a removed
    node's handle goes stale, applying a snapshot replaces the contents,
    ...). Permissions are inherited along each node's parent pointer; a
    directory's permissions bound every node whose parent pointers lead to
    it. Renaming a directory leaves the parent pointer of the moved
    directory where it was, so its permissions still come from its old
    parent.
  - `snapshot_laws.rs`: applying a snapshot and taking one gives the
    snapshot back.
  - `tidy.rs`: what every operation keeps: the root stays a live
    directory with no directory above it, and no directory holds the root
    or a name twice; the file system's invariant includes it.
- `tests/` runs the library on concrete values.
- `app/` is the program around the library: the `std::io` file system
  interface, the operating system's file system, the worker threads and the
  duplicate finder's `main`.
