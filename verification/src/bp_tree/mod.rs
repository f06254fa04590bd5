//! The nodes of a B+ tree index as they are stored in blocks: inner nodes
//! hold keys and pointers to child nodes, leaf nodes hold keys and values.
pub mod node;
pub mod leaf_node;
pub mod inner_node;
pub mod bp_storage;
pub mod bp_tree;
