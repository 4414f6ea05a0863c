use fat::fs::InMemoryFs;
use fat::walk::{list_dir, walk_in_order, WalkConfig};

#[test]
fn test_walker() {
    let mut fs = InMemoryFs::new();
    // Create a basic directory structure:
    // /root
    // /root/dir1
    // /root/dir1/file1
    // /root/dir2
    // /root/dir2/file2
    fs.create_dir_all("/root/dir1").unwrap();
    fs.create_dir_all("/root/dir2").unwrap();
    fs.write("/root/dir1/file1", b"hello").unwrap();
    fs.write("/root/dir2/file2", b"world").unwrap();

    let config = WalkConfig::new("/root".to_string(), 4);
    let result = walk_in_order(&fs, &config);

    // Inside the worker threads, we read /root/dir1 and /root/dir2.
    // We find /root/dir1/file1 and /root/dir2/file2, and increment the count.
    assert_eq!(result.entries_scanned, 2);
}

#[test]
fn list_dir_counts_entries_and_finds_directories() {
    let mut fs = InMemoryFs::new();
    fs.create_dir_all("/a/b").unwrap();
    fs.write("/a/f", b"x").unwrap();
    fs.create_dir("/a/c").unwrap();
    let listing = list_dir(&fs, "/a").unwrap();
    assert_eq!(listing.entries, 3);
    assert_eq!(listing.directories, vec!["/a/b".to_string(), "/a/c".to_string()]);
    assert!(list_dir(&fs, "/a/f").is_err());
    assert!(list_dir(&fs, "/missing").is_err());
}

#[test]
fn a_walk_counts_everything_below_its_root_but_not_the_root_entries() {
    let mut fs = InMemoryFs::new();
    fs.create_dir_all("/r/a/b/c").unwrap();
    fs.write("/r/top", b"").unwrap();
    fs.write("/r/a/f", b"x").unwrap();
    fs.write("/r/a/b/g", b"y").unwrap();
    // Below /r/a: f, b; below /r/a/b: c, g; below /r/a/b/c: nothing.
    let result = walk_in_order(&fs, &WalkConfig::new("/r".to_string(), 1));
    assert_eq!(result.entries_scanned, 4);
    let missing = walk_in_order(&fs, &WalkConfig::new("/none".to_string(), 1));
    assert_eq!(missing.entries_scanned, 0);
}
