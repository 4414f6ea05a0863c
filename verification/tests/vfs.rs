use fat::error::{ErrorKind, FsError};
use fat::fs::InMemoryFs;
use fat::snapshot::VfsSnapshotNode;
use fat::vfs::{Permissions, VfsNodeType};

fn expect_err<T: std::fmt::Debug>(result: Result<T, FsError>, kind: ErrorKind) {
    match result {
        Ok(value) => panic!("unexpected Ok({:?})", value),
        Err(error) => assert_eq!(
            error.kind(),
            kind,
            "unexpected given different error ({:?}): {}",
            error.kind(),
            error.message()
        ),
    }
}

fn read() -> Permissions {
    Permissions::read_only()
}

fn write() -> Permissions {
    Permissions::write_only()
}

fn read_write() -> Permissions {
    Permissions::read_write()
}

fn sample_tree() -> VfsSnapshotNode {
    // {"file": {"$data": [1, 2, 3]},
    //  "directory": {"entry1": {}, "entry2": {"$data": []}}}
    VfsSnapshotNode::directory()
        .file("file", &[1, 2, 3])
        .add(
            "directory",
            VfsSnapshotNode::directory()
                .add("entry1", VfsSnapshotNode::directory().build())
                .add("entry2", VfsSnapshotNode::file(&[]))
                .build(),
        )
        .build()
}

#[test]
fn test_create_dir() {
    let mut fs = InMemoryFs::new();

    // It should create a new directory
    fs.create_dir("/foo").unwrap();

    let expected = VfsSnapshotNode::directory()
        .add("foo", VfsSnapshotNode::empty_dir())
        .build();

    let result = fs.generate_snapshot().unwrap();
    assert_eq!(expected, result);

    // It should throw an error if user lacks permissions
    fs.set_permissions("/", read()).unwrap();
    expect_err(fs.create_dir("/example"), ErrorKind::PermissionDenied);

    // It should throw an error if a parent of the given path
    // does not exist.
    fs.set_permissions("/", read_write()).unwrap();

    expect_err(fs.create_dir("/nested/example"), ErrorKind::NotFound);

    // Path already exists
    expect_err(fs.create_dir("/foo"), ErrorKind::AlreadyExists);
}

#[test]
fn test_create_dir_all() {
    let mut fs = InMemoryFs::new();

    // It should create a new directory (same with create_dir)
    fs.create_dir("/foo").unwrap();

    let expected = VfsSnapshotNode::directory()
        .add("foo", VfsSnapshotNode::empty_dir())
        .build();

    let result = fs.generate_snapshot().unwrap();
    assert_eq!(expected, result);

    // It should recursively create a directory and its missing parent components
    let mut fs = InMemoryFs::new();
    fs.create_dir_all("/part1/part2/part3").unwrap();

    // {"part1":{"part2":{"part3":{}}}}
    let expected = VfsSnapshotNode::directory()
        .add(
            "part1",
            VfsSnapshotNode::directory()
                .add(
                    "part2",
                    VfsSnapshotNode::directory()
                        .add("part3", VfsSnapshotNode::directory().build())
                        .build(),
                )
                .build(),
        )
        .build();
    let result = fs.generate_snapshot().unwrap();
    assert_eq!(expected, result);
}

#[test]
fn test_exists() {
    let mut fs = InMemoryFs::new();
    let snapshot = sample_tree();

    fs.apply_from_snapshot(&snapshot).unwrap();

    // It should return Ok(true) if a path points to a node
    assert_eq!(fs.path_exists("/file").unwrap(), true);
    assert_eq!(fs.path_exists("/directory").unwrap(), true);

    // It should return Ok(true) if a path cannot point to a node
    assert_eq!(fs.path_exists("/file1").unwrap(), false);
    assert_eq!(fs.path_exists("/directory1").unwrap(), false);

    // It should throw an error if the specified path's parent has no permission to read
    fs.set_permissions("/directory", write()).unwrap();

    expect_err(fs.path_exists("/directory/example.txt"), ErrorKind::PermissionDenied);
}

#[test]
fn test_metadata() {
    let mut fs = InMemoryFs::new();
    let snapshot = sample_tree();

    fs.apply_from_snapshot(&snapshot).unwrap();

    // It should provide node metadata for every file/directory
    let metadata = fs.metadata("/file").unwrap();
    assert_eq!(metadata.mode, read_write());
    assert_eq!(metadata.size, 3);
    assert_eq!(metadata.ty, VfsNodeType::File);

    let metadata = fs.metadata("/directory").unwrap();
    assert_eq!(metadata.mode, read_write());
    assert_eq!(metadata.size, 0);
    assert_eq!(metadata.ty, VfsNodeType::Directory);

    let metadata = fs.metadata("/directory/entry2").unwrap();
    assert_eq!(metadata.mode, read_write());
    assert_eq!(metadata.size, 0);
    assert_eq!(metadata.ty, VfsNodeType::File);

    // How about a node permission change?
    fs.set_permissions("/file", read()).unwrap();

    let metadata = fs.metadata("/file").unwrap();
    assert_eq!(metadata.mode, read());
}

#[test]
fn test_read() {
    let mut fs = InMemoryFs::new();
    let snapshot = VfsSnapshotNode::directory()
        .add("directory", VfsSnapshotNode::empty_dir())
        .file("example", b"This is a sample file.")
        .build();

    fs.apply_from_snapshot(&snapshot).unwrap();
    fs.write("/directory/sample", b"Hello, World!").unwrap();

    // It should return a byte vector upon successful read
    let content = fs.read("/example").unwrap();
    assert_eq!(content, b"This is a sample file.");

    // It should return NotFound error if it has not found the file
    expect_err(fs.read("/example2"), ErrorKind::NotFound);

    // It should return NotFound error if one of the directory
    // components of the file path does not exist.
    expect_err(fs.read("/etc/hostname"), ErrorKind::NotFound);

    // It should return PermissionDenied if the user lacks permissions
    fs.set_permissions("/directory", write()).unwrap();

    expect_err(fs.read("/directory/sample"), ErrorKind::PermissionDenied);

    fs.set_permissions("/directory", read_write()).unwrap();

    fs.set_permissions("/directory/sample", write()).unwrap();

    expect_err(fs.read("/directory/sample"), ErrorKind::PermissionDenied);
}

#[test]
fn test_read_to_string() {
    let mut fs = InMemoryFs::new();
    let snapshot = VfsSnapshotNode::directory()
        .add("directory", VfsSnapshotNode::empty_dir())
        .file("example", b"This is a sample file.")
        .file("invalid-utf8", &[0xFF, 0xFE])
        .build();

    fs.apply_from_snapshot(&snapshot).unwrap();
    fs.write("/directory/sample", b"Hello, World!").unwrap();

    // It should return a byte vector upon successful read
    let content = fs.read_to_string("/example").unwrap();
    assert_eq!(content, "This is a sample file.");

    // It should return NotFound error if it has not found the file
    expect_err(fs.read_to_string("/example2"), ErrorKind::NotFound);

    // It should return NotFound error if one of the directory
    // components of the file path does not exist.
    expect_err(fs.read_to_string("/etc/hostname"), ErrorKind::NotFound);

    // It should return PermissionDenied if the user lacks permissions
    fs.set_permissions("/directory", write()).unwrap();

    expect_err(fs.read_to_string("/directory/sample"), ErrorKind::PermissionDenied);

    fs.set_permissions("/directory", read_write()).unwrap();

    fs.set_permissions("/directory/sample", write()).unwrap();

    expect_err(fs.read_to_string("/directory/sample"), ErrorKind::PermissionDenied);

    // It should return InvalidData for UTF-8 conversion error
    expect_err(fs.read_to_string("/invalid-utf8"), ErrorKind::InvalidData);
}
