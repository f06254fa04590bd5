use journal_storage::bp_tree::inner_node::InnerNode;
use journal_storage::bp_tree::leaf_node::LeafNode;
use journal_storage::bp_tree::node::{Node, ERR_BLOCK_SIZE_TOO_SMALL, ERR_INVALID_BLOCK_NUM, ERR_INVALID_NODE_TYPE};
use journal_storage::error::Error;

fn leaf_bytes(parent: u64, prev: u64, next: u64, records: &[u8]) -> Vec<u8> {
    let mut d = vec![2u8];
    d.extend_from_slice(&parent.to_le_bytes());
    d.extend_from_slice(&prev.to_le_bytes());
    d.extend_from_slice(&next.to_le_bytes());
    d.extend_from_slice(&(records.len() as u32).to_le_bytes());
    d.extend_from_slice(records);
    d
}

fn inner_bytes(parent: u64, records_len: u32, rest: &[u8]) -> Vec<u8> {
    let mut d = vec![1u8];
    d.extend_from_slice(&parent.to_le_bytes());
    d.extend_from_slice(&records_len.to_le_bytes());
    d.extend_from_slice(rest);
    d
}

#[test]
fn leaf_from_bytes_reads_header() {
    let data = leaf_bytes(7, 11, 13, &[]);
    let n = LeafNode::from_bytes(&data, 4096, 1, 1).unwrap();
    assert_eq!(4096, n.node_ptr());
    assert_eq!(Some(7), n.parent_ptr());
    assert_eq!(Some(11), n.prev_ptr());
    assert_eq!(Some(13), n.next_ptr());
    assert!(n.has_parent() && n.has_prev() && n.has_next());
    assert_eq!(0, n.len());
}

#[test]
fn leaf_from_bytes_reads_records() {
    let data = leaf_bytes(0, 0, 0, &[0x0a, 0x0b, 0x0c, 0x0d]);
    assert_eq!(33, data.len());
    let n = LeafNode::from_bytes(&data, 64, 2, 2).unwrap();
    assert_eq!(64, n.node_ptr());
    assert_eq!(1, n.len());
    assert_eq!(None, n.parent_ptr());
    assert_eq!(None, n.prev_ptr());
    assert_eq!(None, n.next_ptr());
    let mut it = n.into_iter();
    let r = it.next().unwrap();
    assert_eq!(vec![0x0a, 0x0b], r.key);
    assert_eq!(vec![0x0c, 0x0d], r.val);
    assert!(it.next().is_none());
}

#[test]
fn leaf_from_bytes_reads_whole_records_only() {
    let data = leaf_bytes(0, 0, 0, &[1, 2, 3, 4, 5]);
    let n = LeafNode::from_bytes(&data, 0, 1, 1).unwrap();
    assert_eq!(2, n.len());
    let mut it = n.into_iter();
    assert_eq!(vec![1], it.next().unwrap().key);
    let r = it.next().unwrap();
    assert_eq!(vec![3], r.key);
    assert_eq!(vec![4], r.val);
    assert!(it.next().is_none());
}

#[test]
fn leaf_from_bytes_refuses_short_data() {
    let data = vec![2u8; 28];
    match LeafNode::from_bytes(&data, 0, 1, 1) {
        Err(e) => assert_eq!(ERR_BLOCK_SIZE_TOO_SMALL, e.description()),
        Ok(_) => panic!("short data accepted"),
    }
}

#[test]
fn leaf_links_and_unlinks() {
    let mut n = LeafNode::from_bytes(&leaf_bytes(0, 0, 0, &[]), 1, 1, 1).unwrap();
    assert_eq!(None, n.parent_ptr());
    assert!(!n.has_prev());
    assert_eq!(ERR_INVALID_BLOCK_NUM, n.link_parent(0).unwrap_err().description());
    n.link_parent(5).unwrap();
    n.link_prev(6).unwrap();
    n.link_next(8).unwrap();
    assert_eq!(Some(5), n.parent_ptr());
    assert_eq!(Some(6), n.prev_ptr());
    assert_eq!(Some(8), n.next_ptr());
    n.unlink_parent();
    n.unlink_prev();
    n.unlink_next();
    assert_eq!(None, n.parent_ptr());
    assert_eq!(None, n.prev_ptr());
    assert_eq!(None, n.next_ptr());
    let mut it = n.into_iter();
    assert!(it.next().is_none());
}

#[test]
fn inner_from_bytes_without_records() {
    let data = inner_bytes(3, 8, &[0u8; 8]);
    let n = InnerNode::from_bytes(&data, 64, 4).unwrap();
    assert_eq!(64, n.node_ptr());
    assert_eq!(Some(3), n.parent_ptr());
    assert_eq!(0, n.len());
    let mut it = n.into_iter();
    assert!(it.next().is_none());
}

#[test]
fn inner_from_bytes_reads_pointers_and_keys() {
    let mut rest = vec![];
    rest.extend_from_slice(&5u64.to_le_bytes());
    rest.push(0x07);
    rest.extend_from_slice(&9u64.to_le_bytes());
    let data = inner_bytes(0, 17, &rest);
    assert_eq!(30, data.len());
    let n = InnerNode::from_bytes(&data, 128, 1).unwrap();
    assert_eq!(128, n.node_ptr());
    assert_eq!(None, n.parent_ptr());
    assert!(!n.has_parent());
    assert_eq!(1, n.len());
}

#[test]
fn inner_from_bytes_reports_missing_pointer_bytes() {
    let data = inner_bytes(0, 10, &[0, 0]);
    match InnerNode::from_bytes(&data, 0, 2) {
        Err(Error::Io(_)) => {},
        _ => panic!("missing bytes not reported"),
    }
}

#[test]
fn inner_links_and_unlinks() {
    let mut n = InnerNode::from_bytes(&inner_bytes(0, 0, &[]), 0, 1).unwrap();
    assert_eq!(ERR_INVALID_BLOCK_NUM, n.link_parent(0).unwrap_err().description());
    n.link_parent(9).unwrap();
    assert_eq!(Some(9), n.parent_ptr());
    n.unlink_parent();
    assert!(!n.has_parent());
}

#[test]
fn node_from_bytes_selects_kind() {
    match Node::from_bytes(&leaf_bytes(1, 0, 0, &[]), 0, 1, 1).unwrap() {
        Node::Leaf(l) => assert_eq!(Some(1), l.parent_ptr()),
        Node::Inner(_) => panic!("leaf read as inner node"),
    }
    match Node::from_bytes(&inner_bytes(2, 0, &[]), 0, 1, 1).unwrap() {
        Node::Inner(i) => assert_eq!(Some(2), i.parent_ptr()),
        Node::Leaf(_) => panic!("inner node read as leaf"),
    }
    match Node::from_bytes(&[3u8; 40], 0, 1, 1) {
        Err(e) => assert_eq!(ERR_INVALID_NODE_TYPE, e.description()),
        Ok(_) => panic!("unknown node type accepted"),
    }
}
