use fat::error::ErrorKind;
use fat::node::{Node, NodeId};
use fat::store::NodeStore;
use fat::vfs::VfsNodeType;

#[test]
fn test_clear() {
    let mut store = NodeStore::new();
    let root = store.insert(Node::empty_dir()).unwrap();
    store.insert(Node::empty_file()).unwrap();
    store.clear(root);

    // It should have one index in the free list and vacated
    // one node in the nodes field.
    assert_eq!(store.free_indices().first().copied(), Some(1));
    assert_eq!(store.slots(), 2);

    assert_eq!(store.is_occupied(0), Some(true));
    assert_eq!(store.is_occupied(1), Some(false));
}

#[test]
fn test_clear_with_stale_id() {
    let mut store = NodeStore::new();
    store.insert(Node::empty_dir()).unwrap();
    store.insert(Node::empty_file()).unwrap();
    store.clear(NodeId {
        index: 0,
        generation: 10,
    });

    // Both slots are vacated and queued for recycling.
    assert_eq!(store.free_indices().len(), 2);
    assert_eq!(store.is_occupied(0), Some(false));
    assert_eq!(store.is_occupied(1), Some(false));
}

#[test]
fn test_get() {
    let mut store = NodeStore::new();
    let node = store.insert(Node::empty_dir()).unwrap();

    let result = store.get(node);
    assert!(result.is_ok());

    let result = result.unwrap();
    assert_eq!(result.ty(), VfsNodeType::Directory);
}

#[test]
fn test_get_with_stale_id() {
    let mut store = NodeStore::new();
    let staled = store.insert(Node::empty_dir()).unwrap();
    store.remove(staled).unwrap();

    let new = store.insert(Node::empty_dir()).unwrap();
    assert_eq!(new.index, 0);

    let result = store.get(staled);
    assert!(result.is_err());
}

#[test]
fn test_insert() {
    // Case: empty node store
    let mut store = NodeStore::new();
    let node1 = store.insert(Node::empty_dir()).unwrap();
    assert_eq!(node1.index, 0);
    assert_eq!(node1.generation, 0);

    // Case: at least one had occupied a node slot
    let node2 = store.insert(Node::empty_file()).unwrap();
    assert_eq!(node2.index, 1);
    assert_eq!(node2.generation, 0);

    // Case: one node slot had vacated
    store.remove(node1).unwrap();

    assert_eq!(store.slots(), 2);
    assert_eq!(store.free_indices().len(), 1);
    assert!(!store.free_indices().is_empty());

    let mut file_node = Node::empty_file();
    match &mut file_node {
        Node::File(file) => file.replace(b"Hello!"),
        Node::Directory(_) => unreachable!(),
    }

    let node1 = store.insert(file_node).unwrap();
    assert_eq!(node1.index, 0);
    assert_eq!(node1.generation, 1); // got incremented by 1
}

#[test]
fn test_remove() {
    let mut store = NodeStore::new();
    let node = store.insert(Node::empty_dir()).unwrap();

    // Remove the existing node successfuly
    store.remove(node).unwrap();

    assert_eq!(store.is_occupied(node.index), Some(false));
    assert_eq!(store.free_indices().len(), 1);

    // Attempting to remove a stale node
    let error = store.remove(node).unwrap_err();
    assert_eq!(error.message(), "stale node");

    // Attempt to remove a node slot index that had not inserted before
    let node = NodeId {
        index: 99,
        generation: 0,
    };

    let error = store.remove(node).unwrap_err();
    assert_eq!(error.kind(), ErrorKind::NotFound);
}

#[test]
fn store_counts_active_slots() {
    let mut store = NodeStore::new();
    let a = store.insert(Node::empty_dir()).unwrap();
    let b = store.insert(Node::empty_file()).unwrap();
    assert_eq!(store.active_slots(), 2);
    store.remove(b).unwrap();
    assert_eq!(store.active_slots(), 1);
    assert_eq!(store.slots(), 2);
    store.clear(a);
    assert_eq!(store.active_slots(), 1);
}

#[test]
fn store_reuses_slots_first_in_first_out() {
    let mut store = NodeStore::new();
    let a = store.insert(Node::empty_file()).unwrap();
    let b = store.insert(Node::empty_file()).unwrap();
    store.remove(b).unwrap();
    store.remove(a).unwrap();
    let c = store.insert(Node::empty_dir()).unwrap();
    let d = store.insert(Node::empty_dir()).unwrap();
    assert_eq!((c.index, c.generation), (1, 1));
    assert_eq!((d.index, d.generation), (0, 1));
    assert_eq!(store.get(a).unwrap_err().message(), "stale node");
    assert_eq!(store.get(c).unwrap().ty(), VfsNodeType::Directory);
}

#[test]
fn store_reports_missing_and_stale_slots() {
    let mut store = NodeStore::new();
    let a = store.insert(Node::empty_file()).unwrap();
    assert_eq!(store.get(NodeId::new(5, 0)).unwrap_err().kind(), ErrorKind::NotFound);
    assert_eq!(store.get(NodeId::new(a.index, 3)).unwrap_err().kind(), ErrorKind::Other);
    assert_eq!(store.is_occupied(7), None);
}
