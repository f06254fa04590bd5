//! Searching a B+ tree stored as node blocks, from the root block at 0.
use vstd::prelude::*;
use crate::binary_storage::{ERR_OPERATION_INVALID_WHEN_CLOSED, ERR_OPERATION_INVALID_WHEN_OPEN};
use crate::bp_tree::bp_storage::{BPStorage, BPStorageState, node_block_nonempty, node_read_outcome};
use crate::bp_tree::inner_node::InnerNodeRecord;
use crate::bp_tree::leaf_node::LeafNode;
use crate::bp_tree::node::Node;
use crate::error::{AssertionError, Error, is_assertion};
use crate::memory_binary_storage::{MemoryBinaryStorage, StorageState};
use crate::util::bytes_less;

verus! {

pub const ERR_EMPTY_INNER_NODE: &'static str = "Empty inner node";
pub const ERR_NODE_CORRUPTED: &'static str = "Node data corrupted";

/// A node the search can start from: a consistent leaf, or an inner node
/// that does not hold exactly one key. The record iteration of an inner
/// node gives its first record no bounds at all when there is more than one
/// key, and looks up a key past the last one when there is exactly one,
/// which is not there; so only the latter node cannot be searched.
pub open spec fn searchable(node: Node) -> bool {
    match node {
        Node::Leaf(l) => l.wf(),
        Node::Inner(i) => i.wf() && i@.keys.len() != 1,
    }
}

/// The outcome of searching from `node`: a leaf is the answer; an inner
/// node without keys is refused as empty, and one with keys as corrupted,
/// since its first record comes without bounds.
pub open spec fn search_from(node: Node, r: Result<LeafNode, Error>) -> bool {
    match node {
        Node::Leaf(l) => r matches Ok(x) && x@ == l@ && x.wf(),
        Node::Inner(i) => if i@.keys.len() == 0 {
            r matches Err(e) && is_assertion(e, ERR_EMPTY_INNER_NODE@)
        } else {
            r matches Err(e) && is_assertion(e, ERR_NODE_CORRUPTED@)
        },
    }
}

/// A B+ tree over node blocks, with a key order that it keeps.
pub struct BPTree<F> {
    storage: BPStorage,
    node_size: u64,
    key_len: u8,
    val_len: u8,
    key_cmp: F,
}

impl<F> View for BPTree<F> {
    type V = BPStorageState;

    closed spec fn view(&self) -> BPStorageState {
        self.storage@
    }
}

impl<F: Fn(&[u8], &[u8]) -> bool> BPTree<F> {
    /// The internal consistency of a tree: its node storage is consistent
    /// and has the tree's block, key and value sizes.
    pub closed spec fn wf(&self) -> bool {
        &&& self.storage.wf()
        &&& self.storage@.node_size == self.node_size
        &&& self.storage@.key_len == self.key_len
        &&& self.storage@.val_len == self.val_len
    }

    /// A tree over node blocks of `node_size` bytes in `storage`.
    pub fn new(storage: MemoryBinaryStorage, node_size: u64, key_len: u8, val_len: u8, key_cmp: F) -> (r: BPTree<F>)
        requires
            storage.wf(),
        ensures
            r.wf(),
            r@ == (BPStorageState { storage: storage@, node_size, key_len, val_len }),
    {
        let bp_storage = BPStorage::new(storage, node_size, key_len, val_len);
        BPTree { storage: bp_storage, node_size, key_len, val_len, key_cmp }
    }

    /// Opens the storage.
    pub fn open(&mut self) -> (r: Result<(), Error>)
        requires
            old(self).wf(),
        ensures
            final(self).wf(),
            old(self)@.storage.open ==> (r matches Err(e) && is_assertion(e, ERR_OPERATION_INVALID_WHEN_OPEN@))
                && final(self)@ == old(self)@,
            !old(self)@.storage.open ==> r is Ok && final(self)@ == (BPStorageState {
                storage: StorageState { open: true, ..old(self)@.storage },
                ..old(self)@
            }),
    {
        self.storage.open()
    }

    /// Closes the storage.
    pub fn close(&mut self) -> (r: Result<(), Error>)
        requires
            old(self).wf(),
        ensures
            final(self).wf(),
            !old(self)@.storage.open ==> (r matches Err(e) && is_assertion(e, ERR_OPERATION_INVALID_WHEN_CLOSED@))
                && final(self)@ == old(self)@,
            old(self)@.storage.open ==> r is Ok && final(self)@ == (BPStorageState {
                storage: StorageState { open: false, ..old(self)@.storage },
                ..old(self)@
            }),
    {
        self.storage.close()
    }

    /// Searches for the leaf that holds `k`, from the root block at 0.
    pub fn search(&self, k: &[u8]) -> (r: Result<LeafNode, Error>)
        requires
            self.wf(),
            node_block_nonempty(self@, 0),
            forall|n: Node| #[trigger] node_read_outcome(self@, 0, Ok(n)) ==> searchable(n),
        ensures
            exists|read: Result<Node, Error>|
                #[trigger] node_read_outcome(self@, 0, read) && match read {
                    Ok(n) => search_from(n, r),
                    Err(e) => r matches Err(x) && x == e,
                },
    {
        let read = self.storage.read_node(0);
        let ghost g = read;
        let root = match read {
            Ok(n) => n,
            Err(e) => {
                assert(node_read_outcome(self@, 0, g));
                return Err(e);
            },
        };
        let res = self.tree_search(k, root);
        assert(node_read_outcome(self@, 0, g));
        res
    }

    /// Whether `k` lies in the key range of `r`, by the tree's key order:
    /// below its upper bound when it has one, else at least its lower bound.
    /// The answer is the key order's, of which nothing is known here.
    fn is_in_range(&self, k: &[u8], r: &InnerNodeRecord) -> (res: Result<bool, Error>)
        requires
            forall|a: &[u8], b: &[u8]| #[trigger] call_requires(self.key_cmp, (a, b)),
        ensures
            r.min_key is None && r.max_key is None ==> (res matches Err(e) && is_assertion(
                e,
                ERR_NODE_CORRUPTED@,
            )),
            r.min_key is Some || r.max_key is Some ==> res is Ok,
    {
        match &r.min_key {
            None => match &r.max_key {
                None => Err(Error::Assertion(AssertionError::new(ERR_NODE_CORRUPTED))),
                Some(max) => Ok(!(self.key_cmp)(k, max.as_slice())),
            },
            Some(min) => match &r.max_key {
                None => Ok((self.key_cmp)(k, min.as_slice())),
                Some(max) => Ok(!(self.key_cmp)(k, max.as_slice())),
            },
        }
    }

    /// Searches down from `node` for the leaf that holds `k`.
    fn tree_search(&self, k: &[u8], node: Node) -> (r: Result<LeafNode, Error>)
        requires
            self.wf(),
            searchable(node),
        ensures
            search_from(node, r),
        decreases 0nat,
    {
        let inner = match node {
            Node::Leaf(l) => {
                return Ok(l);
            },
            Node::Inner(i) => i,
        };
        match AssertionError::assert_true(inner.len() > 0, ERR_EMPTY_INNER_NODE) {
            Ok(()) => {},
            Err(e) => return Err(Error::Assertion(e)),
        }
        let ghost n = inner@;
        let mut records = inner.into_iter();
        loop
            invariant
                records.wf(),
                records@.0 == n,
                n.keys.len() >= 2,
                records@.1 == 0,
                (node matches Node::Inner(x) && x@.keys.len() >= 2),
            decreases records@.0.keys.len() - records@.1,
        {
            match records.next() {
                Some(record) => match (record.min_key, record.max_key) {
                    (None, Some(max)) => {
                        if bytes_less(k, max.as_slice()) {
                            let next = match self.storage.read_node(record.pointer) {
                                Ok(n) => n,
                                Err(e) => return Err(e),
                            };
                            return self.tree_search(k, next);
                        }
                    },
                    (Some(min), Some(max)) => {
                        if !bytes_less(k, min.as_slice()) && bytes_less(k, max.as_slice()) {
                            let next = match self.storage.read_node(record.pointer) {
                                Ok(n) => n,
                                Err(e) => return Err(e),
                            };
                            return self.tree_search(k, next);
                        }
                    },
                    (Some(min), None) => {
                        if !bytes_less(k, min.as_slice()) {
                            let next = match self.storage.read_node(record.pointer) {
                                Ok(n) => n,
                                Err(e) => return Err(e),
                            };
                            return self.tree_search(k, next);
                        }
                    },
                    (None, None) => {
                        return Err(Error::Assertion(AssertionError::new(ERR_NODE_CORRUPTED)));
                    },
                },
                None => {
                    break;
                },
            }
        }
        Err(Error::Assertion(AssertionError::new(ERR_NODE_CORRUPTED)))
    }
}

} // verus!
