use fat::checksum::{Blake3, Checksum, HashFunction, Sha256, Xxh3};
use fat::duplicates::duplicate_groups;
use fat::error::{ErrorKind, FsError};
use fat::handle::ImfsFile;
use fat::os::{file_type_to_vfs, into_vfs_metadata};
use fat::fs::InMemoryFs;
use fat::names::{compare_names, NameOrder};
use fat::parallel::{distribute, ParallelIter};
use fat::snapshot::{SnapshotEntry, VfsSnapshotDir, VfsSnapshotNode};
use fat::node::Node;
use fat::vfs::{Permissions, VfsMetadata, VfsNodeType, VfsOpenOptions};
use fat::walker::{duplicate_finder_action, plan_visit, Walker, WalkerAction};

fn hex(bytes: &[u8]) -> String {
    Checksum::new(bytes.to_vec()).unwrap().encode()
}

#[test]
fn checksum_encodes_as_lowercase_hex() {
    assert_eq!(hex(&[0x00, 0x0f, 0xa0, 0xff]), "000fa0ff");
    let c = Checksum::new(vec![1, 2, 3]).unwrap();
    assert_eq!(c.len(), 3);
    assert_eq!(c.as_bytes(), &[1, 2, 3]);
    assert!(Checksum::new(Vec::new()).is_err());
}

#[test]
fn sha256_digests_known_input() {
    let mut h = Sha256::new();
    h.update(b"a");
    h.update(b"bc");
    let c = h.digest();
    assert_eq!(c.encode(), "ba7816bf8f01cfea414140de5dae2223b00361a396177a9cb410ff61f20015ad");
    // The digest does not reset the hasher.
    assert_eq!(h.digest(), c);
    h.reset();
    h.update(b"abc");
    assert_eq!(h.digest(), c);
}

#[test]
fn blake3_digests_known_input() {
    let mut h = Blake3::new();
    let c = h.digest();
    assert_eq!(c.encode(), "af1349b9f5f9a1a6a0404dea36dcc9499bcb25c9adc112b7cc9a93cae41f3262");
}

#[test]
fn xxh3_gives_eight_bytes_that_depend_on_the_input() {
    let mut a = Xxh3::new();
    a.update(b"hello");
    let da = a.digest();
    assert_eq!(da.len(), 8);
    assert_ne!(da.as_bytes(), b"hello");
    let mut b = Xxh3::new();
    b.update(b"hel");
    b.update(b"lo");
    assert_eq!(b.digest(), da);
    let mut c = Xxh3::new();
    c.update(b"world");
    assert_ne!(c.digest(), da);
}

#[test]
fn file_hash_digests_the_file_contents() {
    let mut fs = InMemoryFs::new();
    fs.write("/f", b"abc").unwrap();
    let c = fs.hash("/f", Sha256::new()).unwrap();
    assert_eq!(c.encode(), "ba7816bf8f01cfea414140de5dae2223b00361a396177a9cb410ff61f20015ad");
    fs.set_permissions("/f", Permissions::write_only()).unwrap();
    assert!(fs.hash("/f", Sha256::new()).is_err());
}

#[test]
fn names_compare_as_strings_do() {
    assert_eq!(compare_names("a", "b"), NameOrder::Less);
    assert_eq!(compare_names("b", "a"), NameOrder::Greater);
    assert_eq!(compare_names("ab", "ab"), NameOrder::Equal);
    assert_eq!(compare_names("a", "ab"), NameOrder::Less);
    assert_eq!(compare_names("Z", "a"), NameOrder::Less);
    assert_eq!(compare_names("é", "z"), NameOrder::Greater);
}

#[test]
fn distribute_deals_items_from_the_last() {
    let queues = distribute(2, vec![1, 2, 3, 4, 5]);
    assert_eq!(queues, vec![vec![5, 3, 1], vec![4, 2]]);
    let queues = distribute(4, vec![1]);
    assert_eq!(queues, vec![vec![1], vec![], vec![], vec![]]);
    let queues: Vec<Vec<u8>> = distribute(3, vec![]);
    assert_eq!(queues.len(), 3);
}

#[test]
fn parallel_iter_keeps_items_and_threads() {
    let p = ParallelIter::new(vec!["a", "b"]).threads(3);
    let (items, threads) = p.into_parts();
    assert_eq!(items, vec!["a", "b"]);
    assert_eq!(threads, 3);
    let (_, one) = ParallelIter::new(vec![0u8]).into_parts();
    assert_eq!(one, 1);
}

#[test]
fn walker_actions_and_plans() {
    assert!(WalkerAction::Continue.is_continue());
    assert!(WalkerAction::Skip.is_skip());
    assert!(WalkerAction::Quit.is_quit());
    assert!(!WalkerAction::Quit.is_skip());
    assert_eq!(plan_visit(WalkerAction::Quit, false), (WalkerAction::Quit, false));
    assert_eq!(plan_visit(WalkerAction::Continue, true), (WalkerAction::Continue, false));
    assert_eq!(plan_visit(WalkerAction::Skip, false), (WalkerAction::Continue, false));
    assert_eq!(plan_visit(WalkerAction::Continue, false), (WalkerAction::Continue, true));
}

#[test]
fn duplicate_finder_skips_hidden_and_node_modules() {
    assert_eq!(duplicate_finder_action(false, Some(".git")), WalkerAction::Skip);
    assert_eq!(duplicate_finder_action(false, Some("node_modules")), WalkerAction::Skip);
    assert_eq!(duplicate_finder_action(false, Some("src")), WalkerAction::Continue);
    assert_eq!(duplicate_finder_action(true, Some(".hidden")), WalkerAction::Continue);
    assert_eq!(duplicate_finder_action(false, None), WalkerAction::Continue);
}

#[test]
fn walker_collects_roots_and_threads() {
    let mut w = Walker::new("/a").add("/b");
    w.threads(4);
    assert_eq!(w.paths(), &vec!["/a".to_string(), "/b".to_string()]);
    assert_eq!(w.get_threads(), 4);
    assert_eq!(Walker::empty().paths().len(), 0);
}

#[test]
fn permissions_combine_bitwise() {
    let rw = Permissions::read_write();
    let r = Permissions::read_only();
    let w = Permissions::write_only();
    assert!(rw.contains(r) && rw.contains(w));
    assert_eq!(r.intersection(w), Permissions::empty());
    assert_eq!(r.union(w), rw);
    assert!(r.can_read() && !r.can_write());
    assert!(w.can_write() && !w.can_read());
    assert_eq!(Permissions::default(), rw);
}

#[test]
fn open_options_setters_chain() {
    let mut o = VfsOpenOptions::new();
    o.read(true).append(true).create(true);
    assert!(o.read && o.append && o.create && !o.write && !o.truncate && !o.create_new);
}

#[test]
fn snapshot_builders_sort_and_replace_entries() {
    let a = VfsSnapshotDir::new().file("b", b"2").empty_file("a").file("b", b"3").build();
    let b = VfsSnapshotNode::directory().add("a", VfsSnapshotNode::empty_file()).add("b", VfsSnapshotNode::file(b"3")).build();
    assert_eq!(a, b);
    let p = VfsSnapshotNode::empty_file().permissions(Permissions::read_only());
    assert_eq!(p, VfsSnapshotNode::File { data: Vec::new(), permissions: Permissions::read_only() });
    let d = VfsSnapshotNode::directory().permissions(Permissions::write_only()).build();
    assert_eq!(d, VfsSnapshotNode::empty_dir().permissions(Permissions::write_only()));
}

#[test]
fn duplicate_groups_keep_repeated_keys_in_order() {
    let keys = vec![vec![1u8], vec![2], vec![1], vec![3], vec![2], vec![1]];
    assert_eq!(duplicate_groups(&keys), vec![vec![0, 2, 5], vec![1, 4]]);
    let unique = vec![vec![1u8], vec![2]];
    assert!(duplicate_groups(&unique).is_empty());
    let empty: Vec<Vec<u8>> = Vec::new();
    assert!(duplicate_groups(&empty).is_empty());
}

#[test]
fn open_options_open_a_file() {
    let mut fs = InMemoryFs::new();
    let mut o = VfsOpenOptions::new();
    o.write(true).create_new(true);
    match o.open("/n", &mut fs).unwrap() {
        ImfsFile::Write(h) => h.flush(&mut fs).unwrap(),
        ImfsFile::Read(_) => panic!("expected a write handle"),
    }
    assert!(fs.path_exists("/n").unwrap());
    assert!(o.open("/n", &mut fs).is_err());
}

#[test]
fn os_metadata_conversions() {
    assert_eq!(file_type_to_vfs(true, false, false), VfsNodeType::File);
    assert_eq!(file_type_to_vfs(false, true, false), VfsNodeType::Directory);
    assert_eq!(file_type_to_vfs(false, false, true), VfsNodeType::Symlink);
    assert_eq!(file_type_to_vfs(false, false, false), VfsNodeType::Unknown);
    let m = into_vfs_metadata(true, 7, VfsNodeType::File);
    assert_eq!((m.mode, m.size, m.ty), (Permissions::read_only(), 7, VfsNodeType::File));
    assert_eq!(into_vfs_metadata(false, 0, VfsNodeType::Directory).mode, Permissions::read_write());
}

#[test]
fn error_messages_and_kinds() {
    assert_eq!(FsError::StaleNode.message(), "stale node");
    assert_eq!(FsError::PathNotFound.kind(), ErrorKind::NotFound);
    assert_eq!(FsError::NodeIdsExhausted.kind(), ErrorKind::QuotaExceeded);
    assert_eq!(FsError::DepthExceeded.message(), "exceeded maximum depth");
    assert_eq!(FsError::DepthExceeded.kind(), ErrorKind::Other);
}

#[test]
fn node_metadata_shows_the_node_alone() {
    let file = Node::with_file(vec![1, 2, 3]);
    assert_eq!(
        file.metadata(),
        VfsMetadata { mode: Permissions::read_write(), size: 3, ty: VfsNodeType::File }
    );
    let dir = Node::empty_dir();
    assert_eq!(
        dir.metadata(),
        VfsMetadata { mode: Permissions::read_write(), size: 0, ty: VfsNodeType::Directory }
    );
}

#[test]
fn walker_from_paths_keeps_their_order() {
    let paths = vec!["/a".to_string(), "/b".to_string(), "/a".to_string()];
    let w = Walker::from_iter(&paths);
    assert_eq!(w.paths(), &paths);
    assert_eq!(w.get_threads(), 1);
    assert!(Walker::from_iter(&Vec::new()).paths().is_empty());
}

#[test]
fn a_builder_converts_into_its_directory() {
    let node: VfsSnapshotNode = VfsSnapshotDir::new().file("b", b"x").file("a", b"").into();
    let built = VfsSnapshotDir::new().file("a", b"").file("b", b"x").build();
    assert_eq!(node, built);
}

#[test]
fn files_with_equal_contents_are_grouped() {
    let contents = vec![
        b"abc".to_vec(),
        b"xyz".to_vec(),
        b"abc".to_vec(),
        Vec::new(),
        Vec::new(),
        b"0123456789abcdefXXXX".to_vec(),
        b"0123456789abcdefYYYY".to_vec(),
        b"0123456789abcdefXXXX".to_vec(),
    ];
    let groups = fat::duplicates::duplicate_files(&contents);
    let positions: Vec<Vec<usize>> = groups.iter().map(|(_, g)| g.clone()).collect();
    assert_eq!(positions, vec![vec![0, 2], vec![3, 4], vec![5, 7]]);
    for (digest, g) in &groups {
        let mut h = Blake3::new();
        h.update(&contents[g[0]]);
        assert_eq!(digest.as_slice(), h.digest().as_bytes());
        assert_eq!(digest.len(), 32);
    }
    assert!(fat::duplicates::duplicate_files(&vec![b"a".to_vec(), b"b".to_vec()]).is_empty());
}

#[test]
fn a_builder_keeps_the_last_call_for_each_name_and_for_permissions() {
    let built = VfsSnapshotDir::new()
        .file("a", b"1")
        .permissions(Permissions::read_only())
        .empty_file("a")
        .file("c", b"3")
        .permissions(Permissions::read_write())
        .build();
    let expected = VfsSnapshotNode::Directory {
        children: vec![
            SnapshotEntry { name: "a".to_string(), node: VfsSnapshotNode::empty_file() },
            SnapshotEntry { name: "c".to_string(), node: VfsSnapshotNode::file(b"3") },
        ],
        permissions: Permissions::read_write(),
    };
    assert_eq!(built, expected);
    let untouched = VfsSnapshotDir::new().file("x", b"").build();
    assert_eq!(untouched, VfsSnapshotNode::directory().add("x", VfsSnapshotNode::empty_file()).build());
}
