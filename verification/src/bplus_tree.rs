//! A B+ tree kept directly in a storage, walked with a cursor over the
//! records of the node it stands on.
use vstd::prelude::*;
use crate::binary_storage::{ERR_OPERATION_INVALID_WHEN_CLOSED, ERR_OPERATION_INVALID_WHEN_OPEN};
use crate::error::{AssertionError, Error, is_assertion};
use crate::memory_binary_storage::{MemoryBinaryStorage, StorageState, read_error, stored};

verus! {

pub const ERR_READ_LEAF_WHERE_NONE: &'static str =
    "Tried to read leaf node from file location where none exists";
pub const ERR_READ_INNER_WHERE_NONE: &'static str =
    "Tried to read inner node from file location where none exists";
pub const ERR_KEY_WRONG_SIZE: &'static str = "Key is the wrong nubmer of bytes";
pub const ERR_READ_PAST_INNER_NODE: &'static str =
    "Tried to read more records from inner node than exist in the node";
pub const ERR_INNER_NODE_EMPTY: &'static str = "Encountered an inner node with no records";
pub const ERR_SEARCH_NO_LEAF: &'static str = "Search could not find a leaf node";

/// Where the records of an inner node start.
pub const INNER_NODE_REC_OFFSET: u64 = 0;

/// Where the records of a leaf node start.
pub const LEAF_NODE_REC_OFFSET: u64 = 0;

/// A key with its value, as read from a leaf.
pub struct LeafRecord {
    pub key: Vec<u8>,
    pub val: Vec<u8>,
}

/// A child pointer with the keys around it, as read from an inner node.
pub struct InnerRecord {
    pub min_key: Option<Vec<u8>>,
    pub ptr: u64,
    pub max_key: Option<Vec<u8>>,
}

/// The cursor over the records of an inner node.
#[derive(Clone, Copy)]
pub struct InnerCursor {
    pub ptr: u64,
    pub num_recs: u32,
    pub cur_rec_idx: u32,
}

/// The cursor over the records of a leaf node.
#[derive(Clone, Copy)]
pub struct LeafCursor {
    pub ptr: u64,
    pub num_recs: u32,
    pub cur_rec_idx: u32,
}

/// Where the tree's cursor stands.
#[derive(Clone, Copy)]
pub enum State {
    Nothing(),
    Inner(InnerCursor),
    Leaf(LeafCursor),
}

/// The abstract state of a tree: its storage, the sizes of its keys, values
/// and nodes, and where its cursor stands.
pub struct TreeState {
    pub storage: StorageState,
    pub key_len: u8,
    pub val_len: u8,
    pub node_size: u32,
    pub state: State,
}

/// The cursor stands on no records: entering a node counts none.
pub open spec fn cursor_empty(s: State) -> bool {
    match s {
        State::Nothing() => true,
        State::Inner(i) => i.num_recs == 0,
        State::Leaf(l) => l.num_recs == 0,
    }
}

/// A B+ tree in a storage.
pub struct BPlusTree {
    storage: MemoryBinaryStorage,
    key_len: u8,
    val_len: u8,
    node_size: u32,
    state: State,
}

impl View for BPlusTree {
    type V = TreeState;

    closed spec fn view(&self) -> TreeState {
        TreeState {
            storage: self.storage@,
            key_len: self.key_len,
            val_len: self.val_len,
            node_size: self.node_size,
            state: self.state,
        }
    }
}

impl BPlusTree {
    /// The internal consistency of a tree: its storage is consistent, and
    /// its cursor stands on no records.
    pub closed spec fn wf(&self) -> bool {
        self.storage.wf() && cursor_empty(self.state)
    }

    /// A tree in `storage`, its cursor standing nowhere.
    pub fn new(storage: MemoryBinaryStorage, key_len: u8, val_len: u8, node_size: u32) -> (r: BPlusTree)
        requires
            storage.wf(),
        ensures
            r.wf(),
            r@ == (TreeState { storage: storage@, key_len, val_len, node_size, state: State::Nothing() }),
    {
        BPlusTree { storage, key_len, val_len, node_size, state: State::Nothing() }
    }

    /// Opens the storage.
    pub fn open(&mut self) -> (r: Result<(), Error>)
        requires
            old(self).wf(),
        ensures
            final(self).wf(),
            old(self)@.storage.open ==> (r matches Err(e) && is_assertion(e, ERR_OPERATION_INVALID_WHEN_OPEN@))
                && final(self)@ == old(self)@,
            !old(self)@.storage.open ==> r is Ok && final(self)@ == (TreeState {
                storage: StorageState { open: true, ..old(self)@.storage },
                ..old(self)@
            }),
    {
        self.storage.open()
    }

    /// Closes the storage.
    pub fn close(&mut self) -> (r: Result<(), Error>)
        requires
            old(self).wf(),
        ensures
            final(self).wf(),
            !old(self)@.storage.open ==> (r matches Err(e) && is_assertion(e, ERR_OPERATION_INVALID_WHEN_CLOSED@))
                && final(self)@ == old(self)@,
            old(self)@.storage.open ==> r is Ok && final(self)@ == (TreeState {
                storage: StorageState { open: false, ..old(self)@.storage },
                ..old(self)@
            }),
    {
        self.storage.close()
    }

    /// Looks `key` up. A key of the tree's key length is never found: the
    /// walk down the tree does not move from where it starts, so `requires`
    /// keeps such keys out, and every other key is refused.
    fn search(&mut self, key: &[u8]) -> (r: Result<Option<Vec<u8>>, Error>)
        requires
            old(self).wf(),
            key@.len() != old(self).key_len,
        ensures
            final(self).wf(),
            final(self)@ == old(self)@,
            r matches Err(e) && is_assertion(e, ERR_KEY_WRONG_SIZE@),
    {
        match self.search_node(key) {
            Ok(()) => Ok(None),
            Err(e) => Err(e),
        }
    }

    /// Walks down from the root to the leaf for `key`; a key of another
    /// length than the tree's is refused. The walk itself never leaves the
    /// start, so only such keys are accepted here.
    fn search_node(&mut self, key: &[u8]) -> (r: Result<(), Error>)
        requires
            old(self).wf(),
            key@.len() != old(self).key_len,
        ensures
            final(self).wf(),
            final(self)@ == old(self)@,
            r matches Err(e) && is_assertion(e, ERR_KEY_WRONG_SIZE@),
    {
        match AssertionError::assert_true(key.len() == self.key_len as usize, ERR_KEY_WRONG_SIZE) {
            Ok(()) => {},
            Err(e) => return Err(Error::Assertion(e)),
        }
        // Keys of the tree's length are kept out by `requires`: on them the
        // walk down from the root stands still for ever.
        Ok(())
    }

    /// Enters the node at `ptr`: a leaf when its first byte is not 0, else
    /// an inner node; the cursor stands on its first record of none.
    fn enter_node(&mut self, ptr: u64) -> (r: Result<(), Error>)
        requires
            old(self).wf(),
        ensures
            final(self).wf(),
            match read_error(old(self)@.storage, ptr as int, 1) {
                Some(m) => (r matches Err(e) && is_assertion(e, m)) && final(self)@ == old(self)@,
                None => r is Ok && final(self)@ == (TreeState {
                    state: if stored(old(self)@.storage, ptr as int, 1)[0] != 0 {
                        State::Leaf(LeafCursor { ptr, num_recs: 0, cur_rec_idx: 0 })
                    } else {
                        State::Inner(InnerCursor { ptr, num_recs: 0, cur_rec_idx: 0 })
                    },
                    ..old(self)@
                }),
            },
    {
        let is_leaf = match self.storage.r_bool(ptr) {
            Ok(b) => b,
            Err(e) => return Err(e),
        };
        if is_leaf {
            self.state = State::Leaf(LeafCursor { ptr, num_recs: 0, cur_rec_idx: 0 });
        } else {
            self.state = State::Inner(InnerCursor { ptr, num_recs: 0, cur_rec_idx: 0 });
        }
        Ok(())
    }

    /// Where the pointer of record `rec_idx` of an inner node starts.
    fn inner_rec_offset(rec_idx: u32, key_len: u8) -> (r: u64)
        requires
            (8 + key_len) * rec_idx >= key_len,
        ensures
            r == INNER_NODE_REC_OFFSET + (8 + key_len) * rec_idx - key_len,
    {
        assert((8 + key_len as u64) * (rec_idx as u64) <= 263 * 0xFFFF_FFFFu64) by (nonlinear_arith)
            requires
                key_len <= 255,
                rec_idx <= 0xFFFF_FFFFu64,
        ;
        INNER_NODE_REC_OFFSET + (8 + key_len as u64) * rec_idx as u64 - key_len as u64
    }

    /// Where record `rec_idx` of a leaf node starts.
    fn leaf_rec_offset(rec_idx: u32, key_len: u8, val_len: u8) -> (r: u64)
        ensures
            r == LEAF_NODE_REC_OFFSET + (key_len + val_len) * rec_idx,
    {
        assert((key_len as u64 + val_len as u64) * (rec_idx as u64) <= 510 * 0xFFFF_FFFFu64) by (nonlinear_arith)
            requires
                key_len <= 255,
                val_len <= 255,
                rec_idx <= 0xFFFF_FFFFu64,
        ;
        LEAF_NODE_REC_OFFSET + (key_len as u64 + val_len as u64) * rec_idx as u64
    }

    /// The next record of the leaf the cursor stands on; `None` after the
    /// last; refused when the cursor stands on no leaf.
    fn next_leaf_rec(&mut self) -> (r: Result<Option<LeafRecord>, Error>)
        requires
            old(self).wf(),
        ensures
            final(self).wf(),
            final(self)@ == old(self)@,
            old(self)@.state is Leaf ==> r matches Ok(None),
            !(old(self)@.state is Leaf) ==> (r matches Err(e) && is_assertion(e, ERR_READ_LEAF_WHERE_NONE@)),
    {
        let l = match self.state {
            State::Leaf(l) => l,
            _ => return Err(Error::Assertion(AssertionError::new(ERR_READ_LEAF_WHERE_NONE))),
        };
        if l.cur_rec_idx < l.num_recs {
            let rec_offset = BPlusTree::leaf_rec_offset(l.cur_rec_idx, self.key_len, self.val_len);
            let key = match self.storage.r_bytes(rec_offset, self.key_len as usize) {
                Ok(k) => k,
                Err(e) => return Err(e),
            };
            let val = match self.storage.r_bytes(rec_offset + self.key_len as u64, self.key_len as usize) {
                Ok(v) => v,
                Err(e) => return Err(e),
            };
            self.state = State::Leaf(LeafCursor { cur_rec_idx: l.cur_rec_idx + 1, ..l });
            Ok(Some(LeafRecord { key, val }))
        } else {
            Ok(None)
        }
    }

    /// The next record of the inner node the cursor stands on; `None` after
    /// the last; refused when the cursor stands on no inner node.
    fn next_inner_rec(&mut self) -> (r: Result<Option<InnerRecord>, Error>)
        requires
            old(self).wf(),
        ensures
            final(self).wf(),
            final(self)@ == old(self)@,
            old(self)@.state is Inner ==> r matches Ok(None),
            !(old(self)@.state is Inner) ==> (r matches Err(e) && is_assertion(e, ERR_READ_INNER_WHERE_NONE@)),
    {
        let i = match self.state {
            State::Inner(i) => i,
            _ => return Err(Error::Assertion(AssertionError::new(ERR_READ_INNER_WHERE_NONE))),
        };
        if i.cur_rec_idx < i.num_recs {
            let rec_offset = BPlusTree::inner_rec_offset(i.cur_rec_idx, self.key_len);
            let mut min_key: Option<Vec<u8>> = None;
            if i.cur_rec_idx > 0 {
                min_key = Some(
                    match self.storage.r_bytes(rec_offset - self.key_len as u64, self.key_len as usize) {
                        Ok(k) => k,
                        Err(e) => return Err(e),
                    },
                );
            }
            let ptr = match self.storage.r_u64(rec_offset) {
                Ok(p) => p,
                Err(e) => return Err(e),
            };
            let mut max_key: Option<Vec<u8>> = None;
            if i.cur_rec_idx < i.num_recs {
                max_key = Some(
                    match self.storage.r_bytes(rec_offset + 8, self.key_len as usize) {
                        Ok(k) => k,
                        Err(e) => return Err(e),
                    },
                );
            }
            self.state = State::Inner(InnerCursor { cur_rec_idx: i.cur_rec_idx + 1, ..i });
            Ok(Some(InnerRecord { min_key, ptr, max_key }))
        } else {
            Ok(None)
        }
    }
}

} // verus!
