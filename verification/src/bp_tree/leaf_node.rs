//! Leaf nodes: keys with their values, and links to the parent and to the
//! neighbouring leaves.
use vstd::prelude::*;
use vstd::bytes::*;
use crate::error::{AssertionError, Error, is_assertion};
use crate::bp_tree::node::{ERR_BLOCK_SIZE_TOO_SMALL, ERR_INVALID_BLOCK_NUM};
use crate::le_bytes::{cursor_read_u32, cursor_read_u64};
use crate::util::{bytes_from, lemma_stride, read_up_to};

verus! {

/// Where the records of a leaf node start: after the type byte, the parent
/// pointer, the two sibling pointers and the length of the records.
pub const LEAF_RECORD_START_OFFSET: usize = 29;

/// The abstract state of a leaf node.
pub struct LeafState {
    pub node_ptr: u64,
    pub parent_ptr: u64,
    pub node_size: u32,
    pub keys: Seq<Seq<u8>>,
    pub vals: Seq<Seq<u8>>,
    pub key_len: u8,
    pub val_len: u8,
    pub prev_ptr: u64,
    pub next_ptr: u64,
}

/// The little-endian `u64` stored at `pos`.
pub open spec fn u64_at(data: Seq<u8>, pos: int) -> u64 {
    spec_u64_from_le_bytes(data.subrange(pos, pos + 8))
}

/// The little-endian `u32` stored at `pos`.
pub open spec fn u32_at(data: Seq<u8>, pos: int) -> u32 {
    spec_u32_from_le_bytes(data.subrange(pos, pos + 4))
}

/// The data holds a whole leaf header (its length taken as a `u32`): the
/// type byte, the parent, previous and next pointers, and the length of the
/// records.
pub open spec fn leaf_header_fits(data: Seq<u8>) -> bool {
    (data.len() as u32) >= LEAF_RECORD_START_OFFSET
}

/// Where the records of a leaf end, as its header gives their length.
pub open spec fn leaf_records_end(data: Seq<u8>) -> int {
    LEAF_RECORD_START_OFFSET + u32_at(data, 25)
}

/// The keys and values of the records from `pos` on: a key of `kl` bytes
/// then a value of `vl` bytes each, as long as a whole record fits before
/// `end` (bytes past the end of the data read short, as a reader limited to
/// that many bytes reads them).
pub open spec fn leaf_records(data: Seq<u8>, kl: int, vl: int, end: int, pos: int) -> (
    Seq<Seq<u8>>,
    Seq<Seq<u8>>,
)
    decreases end - pos,
{
    if kl + vl > 0 && pos + kl + vl <= end {
        let rest = leaf_records(data, kl, vl, end, pos + kl + vl);
        (seq![bytes_from(data, pos, kl)] + rest.0, seq![bytes_from(data, pos + kl, vl)] + rest.1)
    } else {
        (Seq::empty(), Seq::empty())
    }
}

/// What reading the leaf node of `data` at `node_ptr` gives: an error when
/// the header does not fit, else the node with the parent pointer at byte 1,
/// the previous and next pointers at bytes 9 and 17, and the records that
/// the length at byte 25 gives, from byte 29 on.
pub open spec fn leaf_outcome(
    data: Seq<u8>,
    node_ptr: u64,
    key_len: u8,
    val_len: u8,
    r: Result<LeafState, Error>,
) -> bool {
    if !leaf_header_fits(data) {
        r matches Err(e) && is_assertion(e, ERR_BLOCK_SIZE_TOO_SMALL@)
    } else {
        let recs = leaf_records(
            data,
            key_len as int,
            val_len as int,
            leaf_records_end(data),
            LEAF_RECORD_START_OFFSET as int,
        );
        r == Ok::<LeafState, Error>(
            LeafState {
                node_ptr,
                parent_ptr: u64_at(data, 1),
                node_size: data.len() as u32,
                keys: recs.0,
                vals: recs.1,
                key_len,
                val_len,
                prev_ptr: u64_at(data, 9),
                next_ptr: u64_at(data, 17),
            },
        )
    }
}

/// The records from `pos` on, one every `kl + vl` bytes: as many as whole
/// records fit before `end`, each key at the start of its record and its
/// value right after the key.
proof fn lemma_leaf_records_layout(data: Seq<u8>, kl: int, vl: int, end: int, pos: int)
    requires
        0 <= kl,
        0 <= vl,
        pos <= end,
    ensures
        ({
            let r = leaf_records(data, kl, vl, end, pos);
            let s = kl + vl;
            &&& r.0.len() == r.1.len()
            &&& s == 0 ==> r.0.len() == 0
            &&& s > 0 ==> r.0.len() == (end - pos) / s
            &&& forall|i: int|
                0 <= i < r.0.len() ==> #[trigger] r.0[i] == bytes_from(data, pos + i * s, kl)
            &&& forall|i: int|
                0 <= i < r.1.len() ==> #[trigger] r.1[i] == bytes_from(data, pos + i * s + kl, vl)
        }),
    decreases end - pos,
{
    let s = kl + vl;
    if s > 0 && pos + s <= end {
        lemma_leaf_records_layout(data, kl, vl, end, pos + s);
        let r = leaf_records(data, kl, vl, end, pos);
        let rest = leaf_records(data, kl, vl, end, pos + s);
        assert(r.0 == seq![bytes_from(data, pos, kl)] + rest.0);
        assert(r.1 == seq![bytes_from(data, pos + kl, vl)] + rest.1);
        assert(0 * s == 0);
        let x = end - pos;
        assert((x - s) / s + 1 == x / s) by (nonlinear_arith)
            requires
                x >= s,
                s > 0,
        ;
        assert forall|i: int| 0 <= i < r.0.len() implies #[trigger] r.0[i] == bytes_from(
            data,
            pos + i * s,
            kl,
        ) by {
            if i > 0 {
                lemma_stride(i - 1, s);
                assert(r.0[i] == rest.0[i - 1]);
            }
        }
        assert forall|i: int| 0 <= i < r.1.len() implies #[trigger] r.1[i] == bytes_from(
            data,
            pos + i * s + kl,
            vl,
        ) by {
            if i > 0 {
                lemma_stride(i - 1, s);
                assert(r.1[i] == rest.1[i - 1]);
            }
        }
    } else if s > 0 {
        let x = end - pos;
        assert(x / s == 0) by (nonlinear_arith)
            requires
                0 <= x < s,
        ;
    }
}

/// Reading a leaf node lays its records out one after the other from byte
/// 29, each `key_len + val_len` bytes long: the i-th key is the `key_len`
/// bytes at `29 + i * (key_len + val_len)` and its value the `val_len` bytes
/// right after that key (for each record that lies within the data), and
/// there are as many records as whole records fit in the length that the
/// header stores at byte 25 (none when both lengths are 0). The header
/// gives the parent, previous and next pointers at bytes 1, 9 and 17.
pub proof fn law_leaf_record_layout(data: Seq<u8>, node_ptr: u64, key_len: u8, val_len: u8, n: LeafState)
    requires
        leaf_outcome(data, node_ptr, key_len, val_len, Ok(n)),
    ensures
        n.node_ptr == node_ptr,
        n.node_size == data.len() as u32,
        n.key_len == key_len && n.val_len == val_len,
        n.parent_ptr == spec_u64_from_le_bytes(data.subrange(1, 9)),
        n.prev_ptr == spec_u64_from_le_bytes(data.subrange(9, 17)),
        n.next_ptr == spec_u64_from_le_bytes(data.subrange(17, 25)),
        n.keys.len() == n.vals.len(),
        key_len + val_len == 0 ==> n.keys.len() == 0,
        key_len + val_len > 0 ==> n.keys.len() == (spec_u32_from_le_bytes(data.subrange(25, 29)) as int) / (
        key_len + val_len),
        forall|i: int|
            #![trigger n.keys[i]]
            #![trigger n.vals[i]]
            0 <= i < n.keys.len() && 29 + (i + 1) * (key_len + val_len) <= data.len() ==> {
                let at = 29 + i * (key_len + val_len);
                &&& n.keys[i] == data.subrange(at, at + key_len)
                &&& n.vals[i] == data.subrange(at + key_len, at + key_len + val_len)
            },
{
    let kl = key_len as int;
    let vl = val_len as int;
    let s = kl + vl;
    let end = leaf_records_end(data);
    lemma_leaf_records_layout(data, kl, vl, end, 29);
    assert forall|i: int|
        #![trigger n.keys[i]]
        #![trigger n.vals[i]]
        0 <= i < n.keys.len() && 29 + (i + 1) * s <= data.len() implies {
            let at = 29 + i * s;
            &&& n.keys[i] == data.subrange(at, at + kl)
            &&& n.vals[i] == data.subrange(at + kl, at + kl + vl)
        } by {
        lemma_stride(i, s);
        assert(n.keys[i] == bytes_from(data, 29 + i * s, kl));
        assert(n.vals[i] == bytes_from(data, 29 + i * s + kl, vl));
    }
}

/// A leaf node.
pub struct LeafNode {
    node_ptr: u64,
    parent_ptr: u64,
    node_size: u32,
    keys: Vec<Vec<u8>>,
    vals: Vec<Vec<u8>>,
    key_len: u8,
    val_len: u8,
    prev_ptr: u64,
    next_ptr: u64,
}

impl View for LeafNode {
    type V = LeafState;

    closed spec fn view(&self) -> LeafState {
        LeafState {
            node_ptr: self.node_ptr,
            parent_ptr: self.parent_ptr,
            node_size: self.node_size,
            keys: self.keys.deep_view(),
            vals: self.vals.deep_view(),
            key_len: self.key_len,
            val_len: self.val_len,
            prev_ptr: self.prev_ptr,
            next_ptr: self.next_ptr,
        }
    }
}

impl LeafNode {
    /// The internal consistency of a leaf node: one value per key.
    pub closed spec fn wf(&self) -> bool {
        self.keys@.len() == self.vals@.len()
    }

    /// A well-formed leaf node has as many values as keys.
    pub proof fn lemma_wf(&self)
        requires
            self.wf(),
        ensures
            self@.keys.len() == self@.vals.len(),
    {
    }

    /// Reads the leaf node stored in `data` at `node_ptr`.
    pub fn from_bytes(data: &[u8], node_ptr: u64, key_len: u8, val_len: u8) -> (r: Result<LeafNode, Error>)
        ensures
            r matches Ok(n) ==> n.wf(),
            leaf_outcome(
                data@,
                node_ptr,
                key_len,
                val_len,
                match r {
                    Ok(n) => Ok(n@),
                    Err(e) => Err(e),
                },
            ),
    {
        let node_size = data.len() as u32;
        match AssertionError::assert_true(
            node_size >= LEAF_RECORD_START_OFFSET as u32,
            ERR_BLOCK_SIZE_TOO_SMALL,
        ) {
            Ok(()) => {},
            Err(e) => return Err(Error::Assertion(e)),
        }
        let parent_ptr = match cursor_read_u64(data, 1) {
            Ok(v) => v,
            Err(t) => return Err(Error::Io(t)),
        };
        let prev_ptr = match cursor_read_u64(data, 9) {
            Ok(v) => v,
            Err(t) => return Err(Error::Io(t)),
        };
        let next_ptr = match cursor_read_u64(data, 17) {
            Ok(v) => v,
            Err(t) => return Err(Error::Io(t)),
        };
        let records_len = match cursor_read_u32(data, 25) {
            Ok(v) => v,
            Err(t) => return Err(Error::Io(t)),
        };
        let ghost d = data@;
        let ghost kl = key_len as int;
        let ghost vl = val_len as int;
        let end: u64 = LEAF_RECORD_START_OFFSET as u64 + records_len as u64;
        let rec_size: u64 = key_len as u64 + val_len as u64;
        let mut cur_pos: u64 = LEAF_RECORD_START_OFFSET as u64;
        let mut keys: Vec<Vec<u8>> = Vec::new();
        let mut vals: Vec<Vec<u8>> = Vec::new();
        assert(keys.deep_view() =~= Seq::<Seq<u8>>::empty());
        assert(vals.deep_view() =~= Seq::<Seq<u8>>::empty());
        if rec_size > 0 {
            while cur_pos + rec_size <= end
                invariant
                    d == data@,
                    kl == key_len,
                    vl == val_len,
                    rec_size == kl + vl,
                    rec_size > 0,
                    rec_size <= 510,
                    end == leaf_records_end(d),
                    end <= LEAF_RECORD_START_OFFSET + u32::MAX,
                    cur_pos <= end,
                    keys@.len() == vals@.len(),
                    leaf_records(d, kl, vl, end as int, LEAF_RECORD_START_OFFSET as int) == (
                        keys.deep_view() + leaf_records(d, kl, vl, end as int, cur_pos as int).0,
                        vals.deep_view() + leaf_records(d, kl, vl, end as int, cur_pos as int).1,
                    ),
                decreases end - cur_pos,
            {
                let ghost rest = leaf_records(d, kl, vl, end as int, (cur_pos + rec_size) as int);
                let key = read_up_to(data, cur_pos, key_len as u64);
                let val = read_up_to(data, cur_pos + key_len as u64, val_len as u64);
                let ghost kv = key@;
                let ghost vv = val@;
                let ghost k0 = keys.deep_view();
                let ghost v0 = vals.deep_view();
                let ghost old_keys = keys@;
                let ghost old_vals = vals@;
                keys.push(key);
                vals.push(val);
                proof {
                    assert forall|i: int| 0 <= i < keys@.len() implies #[trigger] keys.deep_view()[i] == k0.push(kv)[i] by {
                        if i < keys@.len() - 1 {
                            assert(keys@[i] == old_keys[i]);
                        }
                    }
                    assert forall|i: int| 0 <= i < vals@.len() implies #[trigger] vals.deep_view()[i] == v0.push(vv)[i] by {
                        if i < vals@.len() - 1 {
                            assert(vals@[i] == old_vals[i]);
                        }
                    }
                    assert(keys.deep_view() =~= k0.push(kv));
                    assert(vals.deep_view() =~= v0.push(vv));
                    assert(k0 + (seq![kv] + rest.0) =~= k0.push(kv) + rest.0);
                    assert(v0 + (seq![vv] + rest.1) =~= v0.push(vv) + rest.1);
                }
                cur_pos = cur_pos + rec_size;
            }
        }
        assert(keys.deep_view() + leaf_records(d, kl, vl, end as int, cur_pos as int).0 =~= keys.deep_view());
        assert(vals.deep_view() + leaf_records(d, kl, vl, end as int, cur_pos as int).1 =~= vals.deep_view());
        let node = LeafNode {
            node_ptr,
            parent_ptr,
            node_size,
            keys,
            vals,
            key_len,
            val_len,
            prev_ptr,
            next_ptr,
        };
        Ok(node)
    }

    /// The pointer the node was read at.
    pub fn node_ptr(&self) -> (r: u64)
        ensures
            r == self@.node_ptr,
    {
        self.node_ptr
    }

    /// Whether the node has a parent (a pointer of 0 means none).
    pub fn has_parent(&self) -> (r: bool)
        ensures
            r == (self@.parent_ptr != 0),
    {
        self.parent_ptr != 0
    }

    /// Whether the node has a previous leaf.
    pub fn has_prev(&self) -> (r: bool)
        ensures
            r == (self@.prev_ptr != 0),
    {
        self.prev_ptr != 0
    }

    /// Whether the node has a next leaf.
    pub fn has_next(&self) -> (r: bool)
        ensures
            r == (self@.next_ptr != 0),
    {
        self.next_ptr != 0
    }

    /// The parent pointer, if there is a parent.
    pub fn parent_ptr(&self) -> (r: Option<u64>)
        ensures
            r == (if self@.parent_ptr == 0 { None } else { Some(self@.parent_ptr) }),
    {
        if self.parent_ptr == 0 {
            None
        } else {
            Some(self.parent_ptr)
        }
    }

    /// The previous leaf's pointer, if there is one.
    pub fn prev_ptr(&self) -> (r: Option<u64>)
        ensures
            r == (if self@.prev_ptr == 0 { None } else { Some(self@.prev_ptr) }),
    {
        if self.prev_ptr == 0 {
            None
        } else {
            Some(self.prev_ptr)
        }
    }

    /// The next leaf's pointer, if there is one.
    pub fn next_ptr(&self) -> (r: Option<u64>)
        ensures
            r == (if self@.next_ptr == 0 { None } else { Some(self@.next_ptr) }),
    {
        if self.next_ptr == 0 {
            None
        } else {
            Some(self.next_ptr)
        }
    }

    /// Links the node to a parent; a pointer of 0 is refused.
    pub fn link_parent(&mut self, parent_ptr: u64) -> (r: Result<(), Error>)
        requires
            old(self).wf(),
        ensures
            final(self).wf(),
            parent_ptr == 0 ==> (r matches Err(e) && is_assertion(e, ERR_INVALID_BLOCK_NUM@)) && final(self)@ == old(
                self,
            )@,
            parent_ptr != 0 ==> r is Ok && final(self)@ == (LeafState { parent_ptr, ..old(self)@ }),
    {
        match AssertionError::assert_not(parent_ptr == 0, ERR_INVALID_BLOCK_NUM) {
            Ok(()) => {},
            Err(e) => return Err(Error::Assertion(e)),
        }
        self.parent_ptr = parent_ptr;
        Ok(())
    }

    /// Links the node to a previous leaf; a pointer of 0 is refused.
    pub fn link_prev(&mut self, prev_ptr: u64) -> (r: Result<(), Error>)
        requires
            old(self).wf(),
        ensures
            final(self).wf(),
            prev_ptr == 0 ==> (r matches Err(e) && is_assertion(e, ERR_INVALID_BLOCK_NUM@)) && final(self)@ == old(
                self,
            )@,
            prev_ptr != 0 ==> r is Ok && final(self)@ == (LeafState { prev_ptr, ..old(self)@ }),
    {
        match AssertionError::assert_not(prev_ptr == 0, ERR_INVALID_BLOCK_NUM) {
            Ok(()) => {},
            Err(e) => return Err(Error::Assertion(e)),
        }
        self.prev_ptr = prev_ptr;
        Ok(())
    }

    /// Links the node to a next leaf; a pointer of 0 is refused.
    pub fn link_next(&mut self, next_ptr: u64) -> (r: Result<(), Error>)
        requires
            old(self).wf(),
        ensures
            final(self).wf(),
            next_ptr == 0 ==> (r matches Err(e) && is_assertion(e, ERR_INVALID_BLOCK_NUM@)) && final(self)@ == old(
                self,
            )@,
            next_ptr != 0 ==> r is Ok && final(self)@ == (LeafState { next_ptr, ..old(self)@ }),
    {
        match AssertionError::assert_not(next_ptr == 0, ERR_INVALID_BLOCK_NUM) {
            Ok(()) => {},
            Err(e) => return Err(Error::Assertion(e)),
        }
        self.next_ptr = next_ptr;
        Ok(())
    }

    /// Removes the link to the parent.
    pub fn unlink_parent(&mut self)
        requires
            old(self).wf(),
        ensures
            final(self).wf(),
            final(self)@ == (LeafState { parent_ptr: 0, ..old(self)@ }),
    {
        self.parent_ptr = 0;
    }

    /// Removes the link to the previous leaf.
    pub fn unlink_prev(&mut self)
        requires
            old(self).wf(),
        ensures
            final(self).wf(),
            final(self)@ == (LeafState { prev_ptr: 0, ..old(self)@ }),
    {
        self.prev_ptr = 0;
    }

    /// Removes the link to the next leaf.
    pub fn unlink_next(&mut self)
        requires
            old(self).wf(),
        ensures
            final(self).wf(),
            final(self)@ == (LeafState { next_ptr: 0, ..old(self)@ }),
    {
        self.next_ptr = 0;
    }

    /// The number of keys.
    pub fn len(&self) -> (r: usize)
        ensures
            r == self@.keys.len(),
    {
        self.keys.len()
    }

    /// An iterator over the node's records, from the first on.
    pub fn into_iter(self) -> (r: LeafNodeIterator)
        requires
            self.wf(),
        ensures
            r.wf(),
            r@ == (self@, 0nat),
    {
        LeafNodeIterator { node: self, current: 0 }
    }
}

/// A key of a leaf node with its value.
pub struct LeafNodeRecord {
    pub key: Vec<u8>,
    pub val: Vec<u8>,
}

/// An iterator over the records of a leaf node.
pub struct LeafNodeIterator {
    node: LeafNode,
    current: usize,
}

impl View for LeafNodeIterator {
    type V = (LeafState, nat);

    closed spec fn view(&self) -> (LeafState, nat) {
        (self.node@, self.current as nat)
    }
}

impl LeafNodeIterator {
    /// The internal consistency of the iterator: its node is consistent.
    pub closed spec fn wf(&self) -> bool {
        self.node.wf()
    }

    /// The record at the current position, moving on past it; `None` after
    /// the last one.
    pub fn next(&mut self) -> (r: Option<LeafNodeRecord>)
        requires
            old(self).wf(),
        ensures
            final(self).wf(),
            ({
                let (n, i) = old(self)@;
                if i < n.keys.len() {
                    &&& r matches Some(rec) && rec.key@ == n.keys[i as int] && rec.val@ == n.vals[i as int]
                    &&& final(self)@ == (n, i + 1)
                } else {
                    r is None && final(self)@ == old(self)@
                }
            }),
    {
        if self.current < self.node.len() {
            let i = self.current;
            self.current = self.current + 1;
            let key = self.node.keys[i].clone();
            let val = self.node.vals[i].clone();
            proof {
                assert(key@ =~= self.node.keys@[i as int]@);
                assert(val@ =~= self.node.vals@[i as int]@);
            }
            Some(LeafNodeRecord { key, val })
        } else {
            None
        }
    }
}

} // verus!
