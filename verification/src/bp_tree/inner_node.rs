//! Inner nodes: keys with the pointers to the child nodes between them, and
//! a link to the parent.
use vstd::prelude::*;
use vstd::bytes::*;
use crate::error::{AssertionError, Error, is_assertion};
use crate::bp_tree::node::{ERR_BLOCK_SIZE_TOO_SMALL, ERR_INVALID_BLOCK_NUM};
use crate::bp_tree::leaf_node::{u32_at, u64_at};
use crate::le_bytes::{cursor_read_u32, cursor_read_u64};
use crate::util::{bytes_from, lemma_stride, read_up_to};

verus! {

/// Where the records of an inner node start: after the type byte, the
/// parent pointer and the length of the records.
pub const INNER_RECORD_START_OFFSET: usize = 13;

/// The size of a child pointer.
pub const PTR_LEN: usize = 8;

/// The abstract state of an inner node.
pub struct InnerState {
    pub node_ptr: u64,
    pub parent_ptr: u64,
    pub node_size: u32,
    pub keys: Seq<Seq<u8>>,
    pub pointers: Seq<u64>,
    pub key_len: u8,
}

/// The data holds a whole inner header (its length taken as a `u32`): the
/// type byte, the parent pointer and the length of the records.
pub open spec fn inner_header_fits(data: Seq<u8>) -> bool {
    (data.len() as u32) >= INNER_RECORD_START_OFFSET
}

/// Where the records of an inner node end, as its header gives their
/// length.
pub open spec fn inner_records_end(data: Seq<u8>) -> int {
    INNER_RECORD_START_OFFSET + u32_at(data, 9)
}

/// The pointers and keys of the records from `pos` on, read alternately (a
/// pointer first when `next_is_ptr`) as long as the next one fits before
/// `end`: a pointer of eight bytes, a key of `kl` bytes (which reads short
/// past the end of the data). `None` when a pointer lies past the end of the
/// data.
pub open spec fn inner_records(data: Seq<u8>, kl: int, end: int, pos: int, next_is_ptr: bool) -> Option<
    (Seq<u64>, Seq<Seq<u8>>),
>
    decreases end - pos, (if next_is_ptr {
        0int
    } else {
        1int
    }),
{
    if next_is_ptr {
        if pos + PTR_LEN <= end {
            if pos + PTR_LEN > data.len() {
                None
            } else {
                match inner_records(data, kl, end, pos + PTR_LEN, false) {
                    Some(r) => Some((seq![u64_at(data, pos)] + r.0, r.1)),
                    None => None,
                }
            }
        } else {
            Some((Seq::empty(), Seq::empty()))
        }
    } else {
        if kl >= 0 && pos + kl <= end {
            match inner_records(data, kl, end, pos + kl, true) {
                Some(r) => Some((r.0, seq![bytes_from(data, pos, kl)] + r.1)),
                None => None,
            }
        } else {
            Some((Seq::empty(), Seq::empty()))
        }
    }
}

/// What reading the inner node of `data` at `node_ptr` gives: an error when
/// the header does not fit, an I/O error when a pointer lies past the end of
/// the data, else the node with the parent pointer at byte 1 and the
/// pointers and keys that the length at byte 9 gives, from byte 13 on.
pub open spec fn inner_outcome(data: Seq<u8>, node_ptr: u64, key_len: u8, r: Result<InnerState, Error>) -> bool {
    if !inner_header_fits(data) {
        r matches Err(e) && is_assertion(e, ERR_BLOCK_SIZE_TOO_SMALL@)
    } else {
        match inner_records(
            data,
            key_len as int,
            inner_records_end(data),
            INNER_RECORD_START_OFFSET as int,
            true,
        ) {
            None => r matches Err(Error::Io(_)),
            Some(recs) => r == Ok::<InnerState, Error>(
                InnerState {
                    node_ptr,
                    parent_ptr: u64_at(data, 1),
                    node_size: data.len() as u32,
                    keys: recs.1,
                    pointers: recs.0,
                    key_len,
                },
            ),
        }
    }
}

/// The records read from `pos` on hold no more keys than pointers when they
/// start with a pointer, and at most one more otherwise.
proof fn lemma_inner_records_counts(data: Seq<u8>, kl: int, end: int, pos: int, next_is_ptr: bool)
    ensures
        inner_records(data, kl, end, pos, next_is_ptr) matches Some(r) ==> if next_is_ptr {
            r.1.len() <= r.0.len()
        } else {
            r.1.len() <= r.0.len() + 1
        },
    decreases end - pos, (if next_is_ptr {
        0int
    } else {
        1int
    }),
{
    if next_is_ptr {
        if pos + PTR_LEN <= end && pos + PTR_LEN <= data.len() {
            lemma_inner_records_counts(data, kl, end, pos + PTR_LEN, false);
        }
    } else {
        if kl >= 0 && pos + kl <= end {
            lemma_inner_records_counts(data, kl, end, pos + kl, true);
        }
    }
}

/// The records from `pos` on, one every `kl + 8` bytes: pointers and keys
/// alternate (a pointer first when `ptr_first`), each read where the one
/// before it ends, for as long as the next one fits before `end`.
proof fn lemma_inner_records_layout(data: Seq<u8>, kl: int, end: int, pos: int, ptr_first: bool)
    requires
        0 <= kl,
    ensures
        inner_records(data, kl, end, pos, ptr_first) matches Some(r) ==> {
            let s = kl + 8;
            let np = r.0.len() as int;
            let nk = r.1.len() as int;
            if ptr_first {
                &&& nk <= np <= nk + 1
                &&& forall|i: int|
                    0 <= i < np ==> #[trigger] r.0[i] == u64_at(data, pos + i * s) && pos + i * s + 8
                        <= end && pos + i * s + 8 <= data.len()
                &&& forall|i: int|
                    0 <= i < nk ==> #[trigger] r.1[i] == bytes_from(data, pos + i * s + 8, kl) && pos
                        + (i + 1) * s <= end
                &&& np == nk ==> pos + np * s + 8 > end
                &&& np == nk + 1 ==> pos + np * s > end
            } else {
                &&& np <= nk <= np + 1
                &&& forall|i: int|
                    0 <= i < nk ==> #[trigger] r.1[i] == bytes_from(data, pos + i * s, kl) && pos + i
                        * s + kl <= end
                &&& forall|i: int|
                    0 <= i < np ==> #[trigger] r.0[i] == u64_at(data, pos + i * s + kl) && pos + (i
                        + 1) * s <= end && pos + (i + 1) * s <= data.len()
                &&& nk == np ==> pos + nk * s + kl > end
                &&& nk == np + 1 ==> pos + nk * s > end
            }
        },
    decreases end - pos, (if ptr_first {
        0int
    } else {
        1int
    }),
{
    let s = kl + 8;
    assert(0 * s == 0);
    if ptr_first {
        if pos + PTR_LEN <= end && pos + PTR_LEN <= data.len() {
            lemma_inner_records_layout(data, kl, end, pos + PTR_LEN, false);
            if let Some(rest) = inner_records(data, kl, end, pos + PTR_LEN, false) {
                let r = inner_records(data, kl, end, pos, true)->0;
                assert(r.0 == seq![u64_at(data, pos)] + rest.0);
                assert(r.1 == rest.1);
                lemma_stride(rest.1.len() as int, s);
                assert forall|i: int| 0 <= i < r.0.len() implies #[trigger] r.0[i] == u64_at(
                    data,
                    pos + i * s,
                ) && pos + i * s + 8 <= end && pos + i * s + 8 <= data.len() by {
                    if i > 0 {
                        lemma_stride(i - 1, s);
                        assert(r.0[i] == rest.0[i - 1]);
                    }
                }
                assert forall|i: int| 0 <= i < r.1.len() implies #[trigger] r.1[i] == bytes_from(
                    data,
                    pos + i * s + 8,
                    kl,
                ) && pos + (i + 1) * s <= end by {
                    lemma_stride(i, s);
                    assert(r.1[i] == rest.1[i]);
                }
            }
        }
    } else {
        if pos + kl <= end {
            lemma_inner_records_layout(data, kl, end, pos + kl, true);
            if let Some(rest) = inner_records(data, kl, end, pos + kl, true) {
                let r = inner_records(data, kl, end, pos, false)->0;
                assert(r.1 == seq![bytes_from(data, pos, kl)] + rest.1);
                assert(r.0 == rest.0);
                lemma_stride(rest.0.len() as int, s);
                assert forall|i: int| 0 <= i < r.1.len() implies #[trigger] r.1[i] == bytes_from(
                    data,
                    pos + i * s,
                    kl,
                ) && pos + i * s + kl <= end by {
                    if i > 0 {
                        lemma_stride(i - 1, s);
                        assert(r.1[i] == rest.1[i - 1]);
                    }
                }
                assert forall|i: int| 0 <= i < r.0.len() implies #[trigger] r.0[i] == u64_at(
                    data,
                    pos + i * s + kl,
                ) && pos + (i + 1) * s <= end && pos + (i + 1) * s <= data.len() by {
                    lemma_stride(i, s);
                    assert(r.0[i] == rest.0[i]);
                }
            }
        }
    }
}

/// Reading an inner node lays its records out from byte 13 as a pointer of
/// eight bytes, a key of `key_len` bytes, a pointer, and so on: the i-th
/// pointer is the little-endian `u64` at `13 + i * (8 + key_len)` and the
/// i-th key the `key_len` bytes right after it (for each key that lies within
/// the data). Every pointer and key read lies within the records length that
/// the header stores at byte 9, there is one more pointer than keys or as
/// many, and reading stops exactly where the next pointer or key would no
/// longer fit. The header gives the parent pointer at byte 1.
pub proof fn law_inner_record_layout(data: Seq<u8>, node_ptr: u64, key_len: u8, n: InnerState)
    requires
        inner_outcome(data, node_ptr, key_len, Ok(n)),
    ensures
        n.node_ptr == node_ptr,
        n.node_size == data.len() as u32,
        n.key_len == key_len,
        n.parent_ptr == spec_u64_from_le_bytes(data.subrange(1, 9)),
        n.keys.len() <= n.pointers.len() <= n.keys.len() + 1,
        forall|i: int|
            0 <= i < n.pointers.len() ==> #[trigger] n.pointers[i] == spec_u64_from_le_bytes(
                data.subrange(13 + i * (8 + key_len), 13 + i * (8 + key_len) + 8),
            ),
        forall|i: int|
            0 <= i < n.keys.len() && 13 + (i + 1) * (8 + key_len) <= data.len() ==> #[trigger] n.keys[i]
                == data.subrange(13 + i * (8 + key_len) + 8, 13 + (i + 1) * (8 + key_len)),
        n.pointers.len() > 0 ==> 13 + (n.pointers.len() - 1) * (8 + key_len) + 8 <= 13
            + spec_u32_from_le_bytes(data.subrange(9, 13)) as int,
        n.keys.len() > 0 ==> 13 + n.keys.len() * (8 + key_len) <= 13 + spec_u32_from_le_bytes(
            data.subrange(9, 13),
        ) as int,
        n.pointers.len() == n.keys.len() ==> 13 + n.pointers.len() * (8 + key_len) + 8 > 13
            + spec_u32_from_le_bytes(data.subrange(9, 13)) as int,
        n.pointers.len() == n.keys.len() + 1 ==> 13 + n.pointers.len() * (8 + key_len) > 13
            + spec_u32_from_le_bytes(data.subrange(9, 13)) as int,
{
    let kl = key_len as int;
    let s = 8 + kl;
    let end = inner_records_end(data);
    lemma_inner_records_layout(data, kl, end, 13, true);
    let r = inner_records(data, kl, end, 13, true)->0;
    assert(n.pointers == r.0 && n.keys == r.1);
    assert(end == 13 + spec_u32_from_le_bytes(data.subrange(9, 13)) as int);
    assert forall|i: int|
        0 <= i < n.keys.len() && 13 + (i + 1) * s <= data.len() implies #[trigger] n.keys[i]
            == data.subrange(13 + i * s + 8, 13 + (i + 1) * s) by {
        lemma_stride(i, s);
        assert(r.1[i] == bytes_from(data, 13 + i * s + 8, kl));
    }
    assert forall|i: int| 0 <= i < n.pointers.len() implies #[trigger] n.pointers[i]
        == spec_u64_from_le_bytes(data.subrange(13 + i * s, 13 + i * s + 8)) by {
        assert(r.0[i] == u64_at(data, 13 + i * s));
    }
    if n.pointers.len() > 0 {
        let i = n.pointers.len() - 1;
        assert(r.0[i] == u64_at(data, 13 + i * s));
    }
    if n.keys.len() > 0 {
        let i = n.keys.len() - 1;
        assert(r.1[i] == bytes_from(data, 13 + i * s + 8, kl));
        assert(i + 1 == n.keys.len());
    }
}

/// An inner node.
pub struct InnerNode {
    node_ptr: u64,
    parent_ptr: u64,
    node_size: u32,
    keys: Vec<Vec<u8>>,
    pointers: Vec<u64>,
    key_len: u8,
}

impl View for InnerNode {
    type V = InnerState;

    closed spec fn view(&self) -> InnerState {
        InnerState {
            node_ptr: self.node_ptr,
            parent_ptr: self.parent_ptr,
            node_size: self.node_size,
            keys: self.keys.deep_view(),
            pointers: self.pointers@,
            key_len: self.key_len,
        }
    }
}

impl InnerNode {
    /// The internal consistency of an inner node: a pointer for every key.
    pub closed spec fn wf(&self) -> bool {
        self.keys@.len() <= self.pointers@.len()
    }

    /// A well-formed inner node has at least as many pointers as keys.
    pub proof fn lemma_wf(&self)
        requires
            self.wf(),
        ensures
            self@.keys.len() <= self@.pointers.len(),
    {
    }

    /// Reads the inner node stored in `data` at `node_ptr`.
    pub fn from_bytes(data: &[u8], node_ptr: u64, key_len: u8) -> (r: Result<InnerNode, Error>)
        ensures
            r matches Ok(n) ==> n.wf(),
            inner_outcome(
                data@,
                node_ptr,
                key_len,
                match r {
                    Ok(n) => Ok(n@),
                    Err(e) => Err(e),
                },
            ),
    {
        let node_size = data.len() as u32;
        match AssertionError::assert_true(
            node_size >= INNER_RECORD_START_OFFSET as u32,
            ERR_BLOCK_SIZE_TOO_SMALL,
        ) {
            Ok(()) => {},
            Err(e) => return Err(Error::Assertion(e)),
        }
        let parent_ptr = match cursor_read_u64(data, 1) {
            Ok(v) => v,
            Err(t) => return Err(Error::Io(t)),
        };
        let records_len = match cursor_read_u32(data, 9) {
            Ok(v) => v,
            Err(t) => return Err(Error::Io(t)),
        };
        let ghost d = data@;
        let ghost kl = key_len as int;
        let ghost start = INNER_RECORD_START_OFFSET as int;
        let end: u64 = INNER_RECORD_START_OFFSET as u64 + records_len as u64;
        let mut next_is_ptr = true;
        let mut cur_pos: u64 = INNER_RECORD_START_OFFSET as u64;
        let mut keys: Vec<Vec<u8>> = Vec::new();
        let mut pointers: Vec<u64> = Vec::new();
        assert(keys.deep_view() =~= Seq::<Seq<u8>>::empty());
        assert(pointers@ =~= Seq::<u64>::empty());
        loop
            invariant
                d == data@,
                kl == key_len,
                start == INNER_RECORD_START_OFFSET,
                inner_header_fits(d),
                end == inner_records_end(d),
                end <= INNER_RECORD_START_OFFSET + u32::MAX,
                cur_pos <= end,
                match inner_records(d, kl, end as int, cur_pos as int, next_is_ptr) {
                    Some(rest) => inner_records(d, kl, end as int, start, true) == Some(
                        (pointers@ + rest.0, keys.deep_view() + rest.1),
                    ),
                    None => inner_records(d, kl, end as int, start, true) is None,
                },
            ensures
                inner_records(d, kl, end as int, start, true) == Some((pointers@, keys.deep_view())),
            decreases end - cur_pos, (if next_is_ptr {
                0int
            } else {
                1int
            }),
        {
            if next_is_ptr {
                if cur_pos + PTR_LEN as u64 > end {
                    proof {
                        assert(inner_records(d, kl, end as int, cur_pos as int, true) == Some(
                            (Seq::<u64>::empty(), Seq::<Seq<u8>>::empty()),
                        ));
                        assert(pointers@ + Seq::<u64>::empty() =~= pointers@);
                        assert(keys.deep_view() + Seq::<Seq<u8>>::empty() =~= keys.deep_view());
                    }
                    break;
                }
                let ghost rest = inner_records(d, kl, end as int, cur_pos + PTR_LEN, false);
                let p = match cursor_read_u64(data, cur_pos) {
                    Ok(p) => p,
                    Err(t) => {
                        assert(inner_records(d, kl, end as int, cur_pos as int, true) is None);
                        return Err(Error::Io(t));
                    },
                };
                let ghost p0 = pointers@;
                pointers.push(p);
                proof {
                    if let Some(r) = rest {
                        assert(p0 + (seq![p] + r.0) =~= p0.push(p) + r.0);
                    }
                }
                cur_pos = cur_pos + PTR_LEN as u64;
            } else {
                if cur_pos + key_len as u64 > end {
                    proof {
                        assert(inner_records(d, kl, end as int, cur_pos as int, false) == Some(
                            (Seq::<u64>::empty(), Seq::<Seq<u8>>::empty()),
                        ));
                        assert(pointers@ + Seq::<u64>::empty() =~= pointers@);
                        assert(keys.deep_view() + Seq::<Seq<u8>>::empty() =~= keys.deep_view());
                    }
                    break;
                }
                let ghost rest = inner_records(d, kl, end as int, cur_pos + key_len, true);
                let key = read_up_to(data, cur_pos, key_len as u64);
                let ghost kv = key@;
                let ghost k0 = keys.deep_view();
                let ghost old_keys = keys@;
                keys.push(key);
                proof {
                    assert(keys@[keys@.len() - 1]@ == kv);
                    assert forall|i: int| 0 <= i < keys@.len() implies #[trigger] keys.deep_view()[i] == k0.push(kv)[i] by {
                        if i < keys@.len() - 1 {
                            assert(keys@[i] == old_keys[i]);
                        }
                    }
                    assert(keys.deep_view() =~= k0.push(kv));
                    if let Some(r) = rest {
                        assert(k0 + (seq![kv] + r.1) =~= k0.push(kv) + r.1);
                    }
                }
                cur_pos = cur_pos + key_len as u64;
            }
            next_is_ptr = !next_is_ptr;
        }
        proof {
            lemma_inner_records_counts(d, kl, end as int, start, true);
        }
        Ok(InnerNode { node_ptr, parent_ptr, node_size, keys, pointers, key_len })
    }

    /// The pointer the node was read at.
    pub fn node_ptr(&self) -> (r: u64)
        ensures
            r == self@.node_ptr,
    {
        self.node_ptr
    }

    /// Whether the node has a parent (a pointer of 0 means none).
    pub fn has_parent(&self) -> (r: bool)
        ensures
            r == (self@.parent_ptr != 0),
    {
        self.parent_ptr != 0
    }

    /// The parent pointer, if there is a parent.
    pub fn parent_ptr(&self) -> (r: Option<u64>)
        ensures
            r == (if self@.parent_ptr == 0 { None } else { Some(self@.parent_ptr) }),
    {
        if self.parent_ptr == 0 {
            None
        } else {
            Some(self.parent_ptr)
        }
    }

    /// Links the node to a parent; a pointer of 0 is refused.
    pub fn link_parent(&mut self, parent_ptr: u64) -> (r: Result<(), Error>)
        requires
            old(self).wf(),
        ensures
            final(self).wf(),
            parent_ptr == 0 ==> (r matches Err(e) && is_assertion(e, ERR_INVALID_BLOCK_NUM@)) && final(self)@ == old(
                self,
            )@,
            parent_ptr != 0 ==> r is Ok && final(self)@ == (InnerState { parent_ptr, ..old(self)@ }),
    {
        match AssertionError::assert_not(parent_ptr == 0, ERR_INVALID_BLOCK_NUM) {
            Ok(()) => {},
            Err(e) => return Err(Error::Assertion(e)),
        }
        self.parent_ptr = parent_ptr;
        Ok(())
    }

    /// Removes the link to the parent.
    pub fn unlink_parent(&mut self)
        requires
            old(self).wf(),
        ensures
            final(self).wf(),
            final(self)@ == (InnerState { parent_ptr: 0, ..old(self)@ }),
    {
        self.parent_ptr = 0;
    }

    /// The number of keys.
    pub fn len(&self) -> (r: usize)
        ensures
            r == self@.keys.len(),
    {
        self.keys.len()
    }

    /// An iterator over the node's records, from the first on.
    pub fn into_iter(self) -> (r: InnerNodeIterator)
        requires
            self.wf(),
        ensures
            r.wf(),
            r@ == (self@, 0nat),
    {
        InnerNodeIterator { node: self, current: 0 }
    }
}

/// A child pointer of an inner node with the keys that bound it: no lower
/// bound for the first, no upper bound for the last.
pub struct InnerNodeRecord {
    pub min_key: Option<Vec<u8>>,
    pub max_key: Option<Vec<u8>>,
    pub pointer: u64,
}

/// An iterator over the records of an inner node.
pub struct InnerNodeIterator {
    node: InnerNode,
    current: usize,
}

impl View for InnerNodeIterator {
    type V = (InnerState, nat);

    closed spec fn view(&self) -> (InnerState, nat) {
        (self.node@, self.current as nat)
    }
}

impl InnerNodeIterator {
    /// The internal consistency of the iterator: its node is consistent.
    pub closed spec fn wf(&self) -> bool {
        self.node.wf()
    }

    /// The record at the current position, moving on past it; `None` after
    /// the last key. The upper bound of a record is looked up as the key
    /// after it, which the last key does not have, so the iterator must not
    /// stand on the last key.
    pub fn next(&mut self) -> (r: Option<InnerNodeRecord>)
        requires
            old(self).wf(),
            old(self)@.1 + 1 != old(self)@.0.keys.len(),
        ensures
            final(self).wf(),
            ({
                let (n, i) = old(self)@;
                if i < n.keys.len() {
                    &&& r matches Some(rec) && {
                        &&& (if i == 0 {
                            rec.min_key is None
                        } else {
                            rec.min_key matches Some(k) && k@ == n.keys[i as int]
                        })
                        &&& rec.max_key is None
                        &&& rec.pointer == n.pointers[i as int]
                    }
                    &&& final(self)@ == (n, i + 1)
                } else {
                    r is None && final(self)@ == old(self)@
                }
            }),
    {
        if self.current < self.node.len() {
            let i = self.current;
            self.current = self.current + 1;
            let is_first = i == 0;
            let is_last = i < self.node.len() - 1;
            let min_key = if is_first {
                None
            } else {
                let k = self.node.keys[i].clone();
                assert(k@ =~= self.node.keys@[i as int]@);
                Some(k)
            };
            let max_key = if is_last {
                None
            } else {
                Some(self.node.keys[i + 1].clone())
            };
            Some(InnerNodeRecord { min_key, max_key, pointer: self.node.pointers[i] })
        } else {
            None
        }
    }
}

} // verus!
