use fat::dir::ImfsDirEntry;
use fat::error::{ErrorKind, FsError};
use fat::fs::InMemoryFs;
use fat::handle::{FileReadHandle, ImfsFile, SeekPosition, VfsFileStream};
use fat::node::NodeId;
use fat::os::OsFileSystem;
use fat::snapshot::{SnapshotEntry, VfsSnapshotNode};
use fat::vfs::{Permissions, VfsNodeType, VfsOpenOptions};

fn err<T: std::fmt::Debug>(result: Result<T, FsError>) -> FsError {
    match result {
        Ok(value) => panic!("unexpected Ok({:?})", value),
        Err(error) => error,
    }
}

fn opts(read: bool, write: bool, append: bool, truncate: bool, create: bool, create_new: bool) -> VfsOpenOptions {
    let mut o = VfsOpenOptions::new();
    o.read(read).write(write).append(append).truncate(truncate).create(create).create_new(create_new);
    o
}

fn nested(depth: usize) -> VfsSnapshotNode {
    let mut node = VfsSnapshotNode::empty_dir();
    for _ in 0..depth {
        node = VfsSnapshotNode::directory().add("d", node).build();
    }
    node
}

#[test]
fn write_then_read_gives_back_the_bytes() {
    let mut fs = InMemoryFs::new();
    fs.create_dir("/a").unwrap();
    fs.write("/a/f", b"first").unwrap();
    assert_eq!(fs.read("/a/f").unwrap(), b"first");
    fs.write("/a/f", b"second").unwrap();
    assert_eq!(fs.read("/a/f").unwrap(), b"second");
    assert_eq!(fs.metadata("/a/f").unwrap().size, 6);
}

#[test]
fn write_into_a_read_only_file_is_denied() {
    let mut fs = InMemoryFs::new();
    fs.write("/f", b"x").unwrap();
    fs.set_permissions("/f", Permissions::read_only()).unwrap();
    assert_eq!(err(fs.write("/f", b"y")), FsError::FileAccessDenied);
    assert_eq!(fs.read("/f").unwrap(), b"x");
}

#[test]
fn create_dir_then_exists_and_is_empty() {
    let mut fs = InMemoryFs::new();
    fs.create_dir("/d").unwrap();
    assert!(fs.path_exists("/d").unwrap());
    let m = fs.metadata("/d").unwrap();
    assert_eq!(m.ty, VfsNodeType::Directory);
    assert_eq!(fs.read_dir("/d").unwrap().len(), 0);
}

#[test]
fn remove_file_then_not_found() {
    let mut fs = InMemoryFs::new();
    fs.write("/f", b"x").unwrap();
    let before = fs.nodes();
    fs.remove_file("/f").unwrap();
    assert_eq!(err(fs.read("/f")).kind(), ErrorKind::NotFound);
    assert!(!fs.path_exists("/f").unwrap());
    assert_eq!(fs.nodes(), before - 1);
}

#[test]
fn wipe_leaves_only_the_root() {
    let mut fs = InMemoryFs::new();
    fs.create_dir_all("/a/b/c").unwrap();
    fs.write("/a/f", b"x").unwrap();
    assert_eq!(fs.nodes(), 5);
    fs.wipe().unwrap();
    assert_eq!(fs.nodes(), 1);
    assert_eq!(fs.node_slots(), 5);
    assert_eq!(fs.generate_snapshot().unwrap(), VfsSnapshotNode::empty_dir());
}

#[test]
fn remove_dir_all_frees_the_subtree() {
    let mut fs = InMemoryFs::new();
    fs.create_dir_all("/a/b").unwrap();
    fs.write("/a/b/f", b"x").unwrap();
    assert_eq!(err(fs.remove_dir("/a")), FsError::RemoveNonEmptyDirectory);
    fs.remove_dir_all("/a").unwrap();
    // Everything below `/a` is freed; the node of `/a` itself is only unlinked.
    assert_eq!(fs.nodes(), 2);
    assert!(!fs.path_exists("/a").unwrap());
    assert_eq!(err(fs.remove_dir_all("/")), FsError::CannotRemoveRoot);
}

#[test]
fn rename_moves_files_and_directories() {
    let mut fs = InMemoryFs::new();
    fs.write("/f", b"data").unwrap();
    fs.rename("/f", "/g").unwrap();
    assert_eq!(fs.read("/g").unwrap(), b"data");
    assert!(!fs.path_exists("/f").unwrap());

    fs.create_dir_all("/d/e").unwrap();
    fs.rename("/d", "/x").unwrap();
    assert!(fs.path_exists("/x/e").unwrap());
    assert!(!fs.path_exists("/d").unwrap());

    fs.create_dir("/y").unwrap();
    fs.write("/y/z", b"").unwrap();
    assert_eq!(err(fs.rename("/x", "/y")), FsError::DirectoryNotEmpty);
}

#[test]
fn rename_replaces_an_existing_file() {
    let mut fs = InMemoryFs::new();
    fs.create_dir("/dir").unwrap();
    fs.write("/a", b"new").unwrap();
    fs.write("/dir/b", b"old contents").unwrap();
    fs.rename("/a", "/dir/b").unwrap();
    assert_eq!(fs.read("/dir/b").unwrap(), b"new");
    assert!(!fs.path_exists("/a").unwrap());
    assert_eq!(err(fs.read("/a")), FsError::PathNotFound);
}

#[test]
fn entries_never_exceed_their_directory() {
    let mut fs = InMemoryFs::new();
    fs.create_dir("/d").unwrap();
    fs.write("/d/f", b"x").unwrap();
    assert_eq!(fs.metadata("/d/f").unwrap().mode, Permissions::read_write());
    fs.set_permissions("/d", Permissions::read_only()).unwrap();
    assert_eq!(fs.metadata("/d").unwrap().mode, Permissions::read_only());
    assert_eq!(fs.metadata("/d/f").unwrap().mode, Permissions::read_only());
}

#[test]
fn create_dir_twice_is_refused() {
    let mut fs = InMemoryFs::new();
    fs.create_dir("/a").unwrap();
    assert_eq!(err(fs.create_dir("/a")), FsError::AlreadyExists);
    fs.create_dir("/a/b").unwrap();
    assert_eq!(err(fs.create_dir("/a/b")), FsError::AlreadyExists);
}

#[test]
fn set_permissions_recursive_resets_the_subtree() {
    let mut fs = InMemoryFs::new();
    fs.create_dir_all("/a/b").unwrap();
    fs.set_permissions("/a/b", Permissions::write_only()).unwrap();
    fs.set_permissions_recursive("/a", Permissions::read_only()).unwrap();
    // The subtree inherits again, so `/a/b` is now read-only too ...
    assert_eq!(fs.metadata("/a/b").unwrap().mode, Permissions::read_only());
    // ... and can no longer be reset, as it is not writable.
    assert_eq!(err(fs.set_permissions_recursive("/a", Permissions::read_write())), FsError::DirectoryAccessDenied);
}

#[test]
fn current_dir_follows_set_current_dir() {
    let mut fs = InMemoryFs::new();
    assert_eq!(fs.current_dir().unwrap(), "/");
    fs.create_dir("/work").unwrap();
    fs.set_current_dir("/work").unwrap();
    assert_eq!(fs.current_dir().unwrap(), "/work");
    fs.write("/file", b"").unwrap();
    assert_eq!(err(fs.set_current_dir("/file")), FsError::NotADirectory);
}

#[test]
fn join_adjoins_a_safe_name() {
    let fs = InMemoryFs::new();
    assert_eq!(fs.join("/a/./b", "c").unwrap(), "/a/b/c");
    assert_eq!(err(fs.join("/a", "../c")), FsError::InvalidJoin);
}

#[test]
fn paths_are_normalized_and_checked() {
    let mut fs = InMemoryFs::new();
    fs.create_dir("/a").unwrap();
    assert!(fs.path_exists("/a/../a/./").unwrap());
    assert_eq!(err(fs.create_dir("relative")), FsError::RelativePath);
    assert_eq!(err(fs.create_dir("/a\0b")), FsError::InvalidPath);
    assert_eq!(err(fs.write("/", b"x")), FsError::NoFileName);
}

#[test]
fn errors_for_wrong_node_kinds() {
    let mut fs = InMemoryFs::new();
    fs.write("/f", b"x").unwrap();
    fs.create_dir("/d").unwrap();
    assert_eq!(err(fs.create_dir("/f/g")), FsError::NotADirectory);
    assert_eq!(err(fs.read("/d")), FsError::IsADirectory);
    assert_eq!(err(fs.remove_file("/d")), FsError::IsADirectory);
    assert_eq!(err(fs.read("/missing")), FsError::PathNotFound);
}

#[test]
fn permission_errors_name_the_node_kind() {
    let mut fs = InMemoryFs::new();
    fs.create_dir("/d").unwrap();
    fs.set_permissions("/d", Permissions::read_only()).unwrap();
    assert_eq!(err(fs.create_dir("/d/e")), FsError::DirectoryAccessDenied);
    fs.set_permissions("/", Permissions::read_only()).unwrap();
    assert_eq!(err(fs.set_permissions("/d", Permissions::read_write())), FsError::ReadOnlyDirectory);
}

#[test]
fn snapshots_round_trip_and_refuse_bad_roots() {
    let mut fs = InMemoryFs::new();
    let snapshot = VfsSnapshotNode::directory()
        .file("a", b"1")
        .add("b", VfsSnapshotNode::directory().empty_file("c").build())
        .build();
    fs.apply_from_snapshot(&snapshot).unwrap();
    assert_eq!(fs.generate_snapshot().unwrap(), snapshot);
    assert_eq!(err(fs.apply_from_snapshot(&VfsSnapshotNode::empty_file())), FsError::SnapshotRootNotDirectory);
    assert_eq!(err(fs.apply_from_snapshot(&nested(60))), FsError::TooDeep);
    fs.apply_from_snapshot(&nested(10)).unwrap();
    assert_eq!(fs.generate_snapshot().unwrap(), nested(10));
}

#[test]
fn snapshot_permissions_become_effective_permissions() {
    let mut fs = InMemoryFs::new();
    let snapshot = VfsSnapshotNode::directory()
        .add(
            "ro",
            VfsSnapshotNode::directory()
                .file("f", b"x")
                .permissions(Permissions::read_only())
                .build(),
        )
        .build();
    fs.apply_from_snapshot(&snapshot).unwrap();
    assert_eq!(fs.metadata("/ro/f").unwrap().mode, Permissions::read_only());
    let generated = fs.generate_snapshot().unwrap();
    let expected = VfsSnapshotNode::directory()
        .add(
            "ro",
            VfsSnapshotNode::directory()
                .add("f", VfsSnapshotNode::file(b"x").permissions(Permissions::read_only()))
                .permissions(Permissions::read_only())
                .build(),
        )
        .build();
    assert_eq!(generated, expected);
}

#[test]
fn soft_links_are_unsupported() {
    let mut fs = InMemoryFs::new();
    let e = err(fs.soft_link("/a", "/b"));
    assert_eq!(e, FsError::SymlinksUnsupported);
    assert_eq!(e.kind(), ErrorKind::Unsupported);
}

#[test]
fn open_for_reading_reads_and_refuses_writes() {
    let mut fs = InMemoryFs::new();
    fs.write("/f", b"hello world").unwrap();
    let file = fs.open("/f", &opts(true, false, false, false, false, false)).unwrap();
    let mut handle = match file {
        ImfsFile::Read(h) => h,
        ImfsFile::Write(_) => panic!("expected a read handle"),
    };
    assert_eq!(handle.read(5), b"hello");
    assert_eq!(handle.stream_position(), 5);
    assert_eq!(handle.read_to_end(), b" world");
    assert_eq!(handle.read(4), b"");
    assert_eq!(handle.write(b"x").unwrap_err(), FsError::HandleNotWritable);
    assert_eq!(handle.seek(SeekPosition::End(-5)).unwrap(), 6);
    assert_eq!(handle.read(100), b"world");
    assert_eq!(handle.seek(SeekPosition::Current(-100)).unwrap_err(), FsError::InvalidSeek);
    assert_eq!(handle.metadata(&fs).unwrap().size, 11);
}

#[test]
fn open_for_writing_creates_writes_and_flushes() {
    let mut fs = InMemoryFs::new();
    let file = fs.open("/new", &opts(false, true, false, false, true, false)).unwrap();
    let mut handle = match file {
        ImfsFile::Write(h) => h,
        ImfsFile::Read(_) => panic!("expected a write handle"),
    };
    assert!(fs.path_exists("/new").unwrap());
    assert_eq!(handle.write(b"abc").unwrap(), 3);
    assert_eq!(fs.read("/new").unwrap(), b"");
    handle.flush(&mut fs).unwrap();
    assert_eq!(fs.read("/new").unwrap(), b"abc");
    assert_eq!(handle.read(1).unwrap_err(), FsError::HandleNotReadable);

    // Writing past the end fills the gap with zeros.
    handle.seek(SeekPosition::Start(5)).unwrap();
    handle.write(b"z").unwrap();
    handle.flush(&mut fs).unwrap();
    assert_eq!(fs.read("/new").unwrap(), vec![b'a', b'b', b'c', 0, 0, b'z']);
}

#[test]
fn open_append_and_truncate() {
    let mut fs = InMemoryFs::new();
    fs.write("/f", b"abc").unwrap();
    let mut h = match fs.open("/f", &opts(false, false, true, false, false, false)).unwrap() {
        ImfsFile::Write(h) => h,
        ImfsFile::Read(_) => panic!("expected a write handle"),
    };
    assert_eq!(h.stream_position(), 3);
    h.write(b"def").unwrap();
    h.flush(&mut fs).unwrap();
    assert_eq!(fs.read("/f").unwrap(), b"abcdef");

    let h = match fs.open("/f", &opts(false, true, false, true, false, false)).unwrap() {
        ImfsFile::Write(h) => h,
        ImfsFile::Read(_) => panic!("expected a write handle"),
    };
    h.flush(&mut fs).unwrap();
    assert_eq!(fs.read("/f").unwrap(), b"");
}

#[test]
fn open_refuses_bad_options() {
    let mut fs = InMemoryFs::new();
    fs.write("/f", b"x").unwrap();
    fs.create_dir("/d").unwrap();
    assert_eq!(err(fs.open("/f", &opts(true, false, false, true, false, false))), FsError::TruncateWithoutWrite);
    assert_eq!(err(fs.open("/g", &opts(true, false, false, false, true, false))), FsError::CreateWithoutWrite);
    assert_eq!(err(fs.open("/f", &opts(false, false, false, false, false, false))), FsError::UnknownAccess);
    assert_eq!(err(fs.open("/f", &opts(false, true, false, false, false, true))), FsError::AlreadyExists);
    assert_eq!(err(fs.open("/missing", &opts(true, false, false, false, false, false))), FsError::PathNotFound);
    assert_eq!(err(fs.open("/d", &opts(true, false, false, false, false, false))), FsError::IsADirectory);
}

#[test]
fn a_write_past_the_largest_length_is_refused() {
    let mut fs = InMemoryFs::new();
    fs.write("/f", b"").unwrap();
    let mut h = match fs.open("/f", &opts(false, true, false, false, false, false)).unwrap() {
        ImfsFile::Write(h) => h,
        ImfsFile::Read(_) => panic!("expected a write handle"),
    };
    h.seek(SeekPosition::Start(u64::MAX)).unwrap();
    assert_eq!(h.write(b"x").unwrap_err(), FsError::PositionTooLarge);
}

#[test]
fn sync_data_reloads_the_file() {
    let mut fs = InMemoryFs::new();
    fs.write("/f", b"abcdef").unwrap();
    let id = match fs.open("/f", &opts(true, false, false, false, false, false)).unwrap() {
        ImfsFile::Read(h) => h,
        ImfsFile::Write(_) => panic!("expected a read handle"),
    };
    let mut h = id;
    h.seek(SeekPosition::Start(5)).unwrap();
    fs.write("/f", b"ab").unwrap();
    h.sync_data(&fs).unwrap();
    assert_eq!(h.stream_position(), 2);
    assert_eq!(h.read_to_end(), b"");
    assert!(FileReadHandle::new(&fs, NodeId::new(40, 0)).is_err());
}

#[test]
fn read_dir_and_walkdir_list_entries() {
    let mut fs = InMemoryFs::new();
    fs.create_dir_all("/r/b").unwrap();
    fs.write("/r/a", b"").unwrap();
    fs.write("/r/b/c", b"").unwrap();
    let listed: Vec<String> = fs.read_dir("/r").unwrap().into_iter().map(|e| e.unwrap().path).collect();
    assert_eq!(listed, vec!["/r/b".to_string(), "/r/a".to_string()]);

    let mut walk = fs.walkdir("/r").unwrap();
    let mut seen = Vec::new();
    while let Some(entry) = walk.next(&fs) {
        let entry = entry.unwrap();
        seen.push((entry.depth, entry.path.clone()));
    }
    assert_eq!(
        seen,
        vec![
            (0, "/r".to_string()),
            (1, "/r/a".to_string()),
            (1, "/r/b".to_string()),
            (2, "/r/b/c".to_string()),
        ]
    );
}

#[test]
fn walkdir_reports_an_unreadable_directory_after_its_entry() {
    let mut fs = InMemoryFs::new();
    fs.create_dir_all("/r/locked").unwrap();
    fs.set_permissions("/r/locked", Permissions::write_only()).unwrap();
    let mut walk = fs.walkdir("/r").unwrap();
    assert_eq!(walk.next(&fs).unwrap().unwrap().path, "/r");
    assert_eq!(walk.next(&fs).unwrap().unwrap().path, "/r/locked");
    assert_eq!(walk.next(&fs).unwrap().unwrap_err(), FsError::DirectoryAccessDenied);
    assert!(walk.next(&fs).is_none());
}

#[test]
fn dir_entries_know_their_names_and_kinds() {
    let mut fs = InMemoryFs::new();
    fs.create_dir("/d").unwrap();
    fs.write("/d/f", b"xyz").unwrap();
    let entry = ImfsDirEntry::base("/d/f".to_string());
    assert_eq!(entry.depth(), 0);
    assert_eq!(entry.file_name().unwrap(), "f");
    assert_eq!(entry.node_type(&fs).unwrap(), VfsNodeType::File);
    assert_eq!(entry.metadata(&fs).unwrap().size, 3);
    let root = ImfsDirEntry::nested(2, "/".to_string());
    assert_eq!(root.depth(), 2);
    assert_eq!(root.file_name().unwrap_err(), FsError::MissingFileName);
    assert_eq!(FsError::MissingFileName.kind(), ErrorKind::InvalidFilename);
}

#[test]
fn os_file_system_refuses_relative_paths() {
    let _fs = OsFileSystem::new();
    assert!(OsFileSystem::ensure_absolute("/tmp").is_ok());
    assert_eq!(OsFileSystem::ensure_absolute("tmp").unwrap_err(), FsError::RelativePath);
}

#[test]
fn file_names_split_off_their_parent() {
    let inner = fat::inner::ImfsInner::empty();
    assert_eq!(inner.get_file_name("/foo/bar"), ("/foo".to_string(), Some("bar".to_string())));
    assert_eq!(inner.get_file_name("/foo"), ("/".to_string(), Some("foo".to_string())));
    assert_eq!(inner.get_file_name("/"), ("/".to_string(), None));
    assert_eq!(inner.get_file_name("/foo/.."), ("/foo".to_string(), None));
    assert_eq!(inner.require_file_name("/a/b/c").unwrap(), ("/a/b".to_string(), "c".to_string()));
    assert_eq!(err(inner.require_file_name("/")), FsError::NoFileName);
    assert_eq!(err(inner.require_file_name("/")).kind(), ErrorKind::InvalidInput);
}

#[test]
fn a_refused_write_creates_nothing() {
    let mut fs = InMemoryFs::new();
    fs.create_dir("/d").unwrap();
    fs.set_permissions("/d", Permissions::read_only()).unwrap();
    let before = fs.nodes();
    assert_eq!(err(fs.write("/d/f", b"x")), FsError::DirectoryAccessDenied);
    assert_eq!(fs.nodes(), before);
    assert!(!fs.path_exists("/d/f").unwrap());
}

#[test]
fn a_snapshot_with_unsorted_entries_comes_back_sorted() {
    let mut fs = InMemoryFs::new();
    let unsorted = VfsSnapshotNode::Directory {
        children: vec![
            SnapshotEntry { name: "b".to_string(), node: VfsSnapshotNode::file(b"2") },
            SnapshotEntry { name: "a".to_string(), node: VfsSnapshotNode::file(b"1") },
        ],
        permissions: Permissions::read_write(),
    };
    fs.apply_from_snapshot(&unsorted).unwrap();
    let expected = VfsSnapshotNode::directory().file("a", b"1").file("b", b"2").build();
    assert_eq!(fs.generate_snapshot().unwrap(), expected);
}
