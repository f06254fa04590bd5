use journal_storage::binary_storage;
use journal_storage::bp_tree::bp_storage::BPStorage;
use journal_storage::bp_tree::bp_tree::{BPTree, ERR_EMPTY_INNER_NODE, ERR_NODE_CORRUPTED};
use journal_storage::bp_tree::node::Node;
use journal_storage::bplus_tree::BPlusTree;
use journal_storage::memory_binary_storage::MemoryBinaryStorage;

fn leaf_bytes(parent: u64, prev: u64, next: u64) -> Vec<u8> {
    let mut d = vec![2u8];
    d.extend_from_slice(&parent.to_le_bytes());
    d.extend_from_slice(&prev.to_le_bytes());
    d.extend_from_slice(&next.to_le_bytes());
    d.extend_from_slice(&0u32.to_le_bytes());
    d.extend_from_slice(&[0u8; 35]);
    d
}

fn inner_bytes(parent: u64) -> Vec<u8> {
    let mut d = vec![1u8];
    d.extend_from_slice(&parent.to_le_bytes());
    d.extend_from_slice(&0u32.to_le_bytes());
    d.extend_from_slice(&[0u8; 51]);
    d
}

/// A closed storage whose first block holds `root`.
fn storage_with(root: &[u8]) -> MemoryBinaryStorage {
    let mut s = MemoryBinaryStorage::new(256, 256, false).unwrap();
    s.open().unwrap();
    s.w_bytes(0, root).unwrap();
    s.close().unwrap();
    s
}

fn cmp(a: &[u8], b: &[u8]) -> bool {
    a < b
}

#[test]
fn bp_storage_reads_leaf_block() {
    let mut st = BPStorage::new(storage_with(&leaf_bytes(0, 5, 6)), 64, 1, 1);
    st.open().unwrap();
    match st.read_node(0).unwrap() {
        Node::Leaf(l) => {
            assert_eq!(0, l.node_ptr());
            assert_eq!(Some(5), l.prev_ptr());
            assert_eq!(Some(6), l.next_ptr());
        },
        Node::Inner(_) => panic!("leaf block read as inner node"),
    }
}

#[test]
fn bp_storage_read_node_returns_err_when_closed() {
    let st = BPStorage::new(storage_with(&leaf_bytes(0, 0, 0)), 64, 1, 1);
    match st.read_node(0) {
        Err(e) => assert_eq!(binary_storage::ERR_OPERATION_INVALID_WHEN_CLOSED, e.description()),
        Ok(_) => panic!("read from a closed storage"),
    }
}

#[test]
fn bp_storage_open_returns_err_when_already_open() {
    let mut st = BPStorage::new(storage_with(&leaf_bytes(0, 0, 0)), 64, 1, 1);
    st.open().unwrap();
    assert_eq!(
        binary_storage::ERR_OPERATION_INVALID_WHEN_OPEN,
        st.open().unwrap_err().description()
    );
    st.close().unwrap();
    assert_eq!(
        binary_storage::ERR_OPERATION_INVALID_WHEN_CLOSED,
        st.close().unwrap_err().description()
    );
}

#[test]
fn bp_tree_search_returns_root_leaf() {
    let mut t = BPTree::new(storage_with(&leaf_bytes(0, 0, 9)), 64, 1, 1, cmp);
    t.open().unwrap();
    let leaf = t.search(&[1]).unwrap();
    assert_eq!(0, leaf.node_ptr());
    assert_eq!(Some(9), leaf.next_ptr());
    assert_eq!(None, leaf.prev_ptr());
}

#[test]
fn bp_tree_search_refuses_empty_inner_root() {
    let mut t = BPTree::new(storage_with(&inner_bytes(0)), 64, 1, 1, cmp);
    t.open().unwrap();
    match t.search(&[1]) {
        Err(e) => assert_eq!(ERR_EMPTY_INNER_NODE, e.description()),
        Ok(_) => panic!("empty inner node searched"),
    }
}

#[test]
fn bp_tree_search_returns_err_when_closed() {
    let t = BPTree::new(storage_with(&leaf_bytes(0, 0, 0)), 64, 1, 1, cmp);
    match t.search(&[1]) {
        Err(e) => assert_eq!(binary_storage::ERR_OPERATION_INVALID_WHEN_CLOSED, e.description()),
        Ok(_) => panic!("searched a closed tree"),
    }
}

#[test]
fn bplus_tree_opens_and_closes() {
    let mut t = BPlusTree::new(MemoryBinaryStorage::new(256, 256, false).unwrap(), 4, 4, 64);
    assert!(t.open().is_ok());
    assert_eq!(
        binary_storage::ERR_OPERATION_INVALID_WHEN_OPEN,
        t.open().unwrap_err().description()
    );
    assert!(t.close().is_ok());
    assert_eq!(
        binary_storage::ERR_OPERATION_INVALID_WHEN_CLOSED,
        t.close().unwrap_err().description()
    );
}

#[test]
fn bp_tree_search_refuses_inner_root_without_first_bounds() {
    let mut root = vec![1u8];
    root.extend_from_slice(&0u64.to_le_bytes());
    root.extend_from_slice(&26u32.to_le_bytes());
    root.extend_from_slice(&64u64.to_le_bytes());
    root.push(3);
    root.extend_from_slice(&128u64.to_le_bytes());
    root.push(6);
    root.extend_from_slice(&192u64.to_le_bytes());
    root.extend_from_slice(&[0u8; 25]);
    let mut t = BPTree::new(storage_with(&root), 64, 1, 1, cmp);
    t.open().unwrap();
    match t.search(&[4]) {
        Err(e) => assert_eq!(ERR_NODE_CORRUPTED, e.description()),
        Ok(_) => panic!("inner node without bounds searched"),
    }
}
