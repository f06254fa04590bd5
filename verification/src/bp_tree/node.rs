//! A stored node of either kind, told apart by its first byte.
use vstd::prelude::*;
use crate::error::{AssertionError, Error, is_assertion};
use crate::bp_tree::inner_node::{InnerNode, inner_outcome};
use crate::bp_tree::leaf_node::{LeafNode, leaf_outcome};

verus! {

pub const ERR_INVALID_NODE_TYPE: &'static str = "Node type not recognized";
pub const ERR_NODE_DATA_WRONG_LENGTH: &'static str = "Invalid node block size";
pub const ERR_BLOCK_SIZE_TOO_SMALL: &'static str = "Data too small to read inner block";
pub const ERR_INVALID_BLOCK_NUM: &'static str = "Invalid block number";

/// The type byte of an inner node.
pub const INNER_NODE_TYPE: u8 = 1;

/// The type byte of a leaf node.
pub const LEAF_NODE_TYPE: u8 = 2;

/// A node of either kind.
pub enum Node {
    Inner(InnerNode),
    Leaf(LeafNode),
}

/// What reading the node of `data` gives: as an inner node when the first
/// byte is 1, as a leaf node when it is 2, an error otherwise.
pub open spec fn node_outcome(data: Seq<u8>, node_ptr: u64, key_len: u8, val_len: u8, r: Result<Node, Error>) -> bool {
    if data[0] == INNER_NODE_TYPE {
        match r {
            Ok(Node::Inner(n)) => n.wf() && inner_outcome(data, node_ptr, key_len, Ok(n@)),
            Ok(Node::Leaf(_)) => false,
            Err(e) => inner_outcome(data, node_ptr, key_len, Err(e)),
        }
    } else if data[0] == LEAF_NODE_TYPE {
        match r {
            Ok(Node::Leaf(n)) => n.wf() && leaf_outcome(data, node_ptr, key_len, val_len, Ok(n@)),
            Ok(Node::Inner(_)) => false,
            Err(e) => leaf_outcome(data, node_ptr, key_len, val_len, Err(e)),
        }
    } else {
        r matches Err(e) && is_assertion(e, ERR_INVALID_NODE_TYPE@)
    }
}

impl Node {
    /// Reads the node stored in `data` at `node_ptr`: an inner node when the
    /// first byte is 1, a leaf node when it is 2, an error otherwise.
    pub fn from_bytes(data: &[u8], node_ptr: u64, key_len: u8, val_len: u8) -> (r: Result<Node, Error>)
        requires
            data@.len() > 0,
        ensures
            node_outcome(data@, node_ptr, key_len, val_len, r),
    {
        if data[0] == INNER_NODE_TYPE {
            match InnerNode::from_bytes(data, node_ptr, key_len) {
                Ok(node) => Ok(Node::Inner(node)),
                Err(e) => Err(e),
            }
        } else if data[0] == LEAF_NODE_TYPE {
            match LeafNode::from_bytes(data, node_ptr, key_len, val_len) {
                Ok(node) => Ok(Node::Leaf(node)),
                Err(e) => Err(e),
            }
        } else {
            Err(Error::Assertion(AssertionError::new(ERR_INVALID_NODE_TYPE)))
        }
    }
}

} // verus!
