//! Reading the nodes of a B+ tree out of a storage, one fixed-size block
//! each.
use vstd::prelude::*;
use crate::binary_storage::{ERR_OPERATION_INVALID_WHEN_CLOSED, ERR_OPERATION_INVALID_WHEN_OPEN};
use crate::bp_tree::node::{Node, node_outcome};
use crate::error::{Error, is_assertion};
use crate::memory_binary_storage::{MemoryBinaryStorage, StorageState, read_error, stored};

verus! {

/// The abstract state of a node storage: the storage and the sizes of its
/// blocks, keys and values.
pub struct BPStorageState {
    pub storage: StorageState,
    pub node_size: u64,
    pub key_len: u8,
    pub val_len: u8,
}

/// The block at `node_ptr` holds a byte to tell the kind of its node by,
/// whenever it can be read (a block size of at least one byte ensures it).
pub open spec fn node_block_nonempty(s: BPStorageState, node_ptr: u64) -> bool {
    let len = (s.node_size as usize) as int;
    read_error(s.storage, node_ptr as int, len) is None ==> len > 0
}

/// The outcome of reading the node at `node_ptr`: the read's error, or the
/// node read from the block.
pub open spec fn node_read_outcome(s: BPStorageState, node_ptr: u64, r: Result<Node, Error>) -> bool {
    let len = (s.node_size as usize) as int;
    match read_error(s.storage, node_ptr as int, len) {
        Some(m) => r matches Err(e) && is_assertion(e, m),
        None => node_outcome(stored(s.storage, node_ptr as int, len), node_ptr, s.key_len, s.val_len, r),
    }
}

/// Node blocks in a storage.
pub struct BPStorage {
    storage: MemoryBinaryStorage,
    node_size: u64,
    key_len: u8,
    val_len: u8,
}

impl View for BPStorage {
    type V = BPStorageState;

    closed spec fn view(&self) -> BPStorageState {
        BPStorageState {
            storage: self.storage@,
            node_size: self.node_size,
            key_len: self.key_len,
            val_len: self.val_len,
        }
    }
}

impl BPStorage {
    /// The internal consistency of a node storage: its storage is consistent.
    pub closed spec fn wf(&self) -> bool {
        self.storage.wf()
    }

    /// Node blocks of `node_size` bytes in `storage`.
    pub fn new(storage: MemoryBinaryStorage, node_size: u64, key_len: u8, val_len: u8) -> (r: BPStorage)
        requires
            storage.wf(),
        ensures
            r.wf(),
            r@ == (BPStorageState { storage: storage@, node_size, key_len, val_len }),
    {
        BPStorage { storage, node_size, key_len, val_len }
    }

    /// Opens the storage.
    pub fn open(&mut self) -> (r: Result<(), Error>)
        requires
            old(self).wf(),
        ensures
            final(self).wf(),
            old(self)@.storage.open ==> (r matches Err(e) && is_assertion(e, ERR_OPERATION_INVALID_WHEN_OPEN@))
                && final(self)@ == old(self)@,
            !old(self)@.storage.open ==> r is Ok && final(self)@ == (BPStorageState {
                storage: StorageState { open: true, ..old(self)@.storage },
                ..old(self)@
            }),
    {
        self.storage.open()
    }

    /// Closes the storage.
    pub fn close(&mut self) -> (r: Result<(), Error>)
        requires
            old(self).wf(),
        ensures
            final(self).wf(),
            !old(self)@.storage.open ==> (r matches Err(e) && is_assertion(e, ERR_OPERATION_INVALID_WHEN_CLOSED@))
                && final(self)@ == old(self)@,
            old(self)@.storage.open ==> r is Ok && final(self)@ == (BPStorageState {
                storage: StorageState { open: false, ..old(self)@.storage },
                ..old(self)@
            }),
    {
        self.storage.close()
    }

    /// The size of a node block.
    pub fn node_size(&self) -> (r: u64)
        ensures
            r == self@.node_size,
    {
        self.node_size
    }

    /// Reads the node whose block starts at `node_ptr`.
    pub fn read_node(&self, node_ptr: u64) -> (r: Result<Node, Error>)
        requires
            self.wf(),
            node_block_nonempty(self@, node_ptr),
        ensures
            node_read_outcome(self@, node_ptr, r),
    {
        let data = match self.storage.r_bytes(node_ptr, self.node_size as usize) {
            Ok(d) => d,
            Err(e) => return Err(e),
        };
        Node::from_bytes(data.as_slice(), node_ptr, self.key_len, self.val_len)
    }
}

} // verus!
