//! Growable byte storage held in memory, with an optional transaction boundary
//! that protects committed bytes from writes and hides uncommitted bytes from
//! reads.
use vstd::prelude::*;
use vstd::bytes::*;
use vstd::utf8::{decode_utf8, valid_utf8};
use vstd::string::StringSliceAdditionalSpecFns;
use crate::binary_storage::{
    ERR_ARITHMETIC_OVERFLOW, ERR_EXPAND_SIZE_NOT_POWER_OF_2, ERR_EXPAND_SIZE_TOO_SMALL,
    ERR_INITIAL_CAP_NOT_POWER_OF_2, ERR_INITIAL_CAP_TOO_SMALL, ERR_OPERATION_INVALID_WHEN_CLOSED,
    ERR_OPERATION_INVALID_WHEN_OPEN, ERR_READ_NOTHING, ERR_READ_PAST_END, ERR_STORAGE_ALLOC,
    ERR_WRITE_NOTHING, ERR_WRITE_PAST_END,
};
use crate::error::{AssertionError, Error, MemoryError, is_assertion};
use crate::le_bytes::{encode_u16, encode_u32, encode_u64, decode_u16, decode_u32, decode_u64};
use crate::util::{
    all_equal, ceil_div, is_power_of_2, is_power_of_two_u64, lemma_round_up, round_up, splice, u64_as_usize,
    usize_add, zero_extend,
};

verus! {

pub const ERR_WRITE_BEFORE_TXN_BOUNDARY: &'static str = "Cannot write before transaction boundary";
pub const ERR_READ_AFTER_TXN_BOUNDARY: &'static str = "Cannot read after transaction boundary";
pub const ERR_SET_TXN_BOUNDARY_PAST_END: &'static str =
    "Cannot set transaction boundary past end of allocated storage";
pub const ERR_TXN_BOUNDARY_NOT_IN_USE: &'static str =
    "Cannot perform this operation when the transaction boundary is not in use";

/// The abstract state of a storage: whether it is open, its bytes (whose
/// number is the capacity), its expansion step, and its transaction boundary.
pub struct StorageState {
    pub open: bool,
    pub bytes: Seq<u8>,
    pub expand_size: nat,
    pub use_txn_boundary: bool,
    pub txn_boundary: nat,
}

/// The state of a storage after a successful write of `data` at `offset`:
/// grown to the next multiple of the expansion step that covers the write,
/// with the new bytes zero, then overwritten by `data`.
pub open spec fn state_after_write(s: StorageState, offset: int, data: Seq<u8>) -> StorageState {
    StorageState {
        bytes: splice(
            zero_extend(s.bytes, round_up((offset + data.len()) as nat, s.expand_size)),
            offset,
            data,
        ),
        ..s
    }
}

/// The error a write of `len` bytes at `offset` reports before any memory is
/// allocated, if any.
pub open spec fn write_error(s: StorageState, offset: int, len: int) -> Option<Seq<char>> {
    if !s.open {
        Some(ERR_OPERATION_INVALID_WHEN_CLOSED@)
    } else if s.use_txn_boundary && offset < s.txn_boundary {
        Some(ERR_WRITE_BEFORE_TXN_BOUNDARY@)
    } else if offset + len > usize::MAX {
        Some(ERR_ARITHMETIC_OVERFLOW@)
    } else {
        expand_error(s, offset + len)
    }
}

/// The error an expansion to at least `min_capacity` bytes reports before any
/// memory is allocated, if any.
pub open spec fn expand_error(s: StorageState, min_capacity: int) -> Option<Seq<char>> {
    if !s.open {
        Some(ERR_OPERATION_INVALID_WHEN_CLOSED@)
    } else if round_up(min_capacity as nat, s.expand_size) > u64::MAX {
        Some(ERR_ARITHMETIC_OVERFLOW@)
    } else if round_up(min_capacity as nat, s.expand_size) > usize::MAX {
        Some(ERR_ARITHMETIC_OVERFLOW@)
    } else {
        None
    }
}

/// An expansion to at least `min_capacity` bytes has to allocate memory.
pub open spec fn needs_growth(s: StorageState, min_capacity: int) -> bool {
    round_up(min_capacity as nat, s.expand_size) > s.bytes.len()
}

/// The outcome of a write of `data` at `offset` from state `s`: the reported
/// error and an unchanged state when a check fails; otherwise either the
/// written state, or (only when memory had to be allocated) an allocation
/// failure with an unchanged state.
pub open spec fn write_outcome(
    s: StorageState,
    offset: int,
    data: Seq<u8>,
    r: Result<(), Error>,
    t: StorageState,
) -> bool {
    match write_error(s, offset, data.len() as int) {
        Some(msg) => r matches Err(e) && is_assertion(e, msg) && t == s,
        None => match r {
            Ok(_) => t == state_after_write(s, offset, data),
            Err(e) => {
                &&& is_assertion(e, ERR_STORAGE_ALLOC@)
                &&& needs_growth(s, offset + data.len())
                &&& t == s
            },
        },
    }
}

/// The error a read of `len` bytes at `offset` reports, if any.
pub open spec fn read_error(s: StorageState, offset: int, len: int) -> Option<Seq<char>> {
    if !s.open {
        Some(ERR_OPERATION_INVALID_WHEN_CLOSED@)
    } else if offset + len > usize::MAX {
        Some(ERR_ARITHMETIC_OVERFLOW@)
    } else if s.use_txn_boundary && offset + len > s.txn_boundary {
        Some(ERR_READ_AFTER_TXN_BOUNDARY@)
    } else if offset + len > s.bytes.len() {
        Some(ERR_READ_PAST_END@)
    } else {
        None
    }
}

/// The outcome of a read of `len` bytes at `offset`: the reported error, or
/// the bytes stored there.
pub open spec fn read_outcome(s: StorageState, offset: int, len: int, r: Result<Seq<u8>, Error>) -> bool {
    match read_error(s, offset, len) {
        Some(msg) => r matches Err(e) && is_assertion(e, msg),
        None => r == Ok::<Seq<u8>, Error>(s.bytes.subrange(offset, offset + len)),
    }
}

/// The error of the parameter check: expansion step and capacity must both be
/// positive powers of two (checked in that order).
pub open spec fn params_error(expand_size: int, capacity: int) -> Option<Seq<char>> {
    if expand_size <= 0 {
        Some(ERR_EXPAND_SIZE_TOO_SMALL@)
    } else if capacity <= 0 {
        Some(ERR_INITIAL_CAP_TOO_SMALL@)
    } else if !is_power_of_2(capacity) {
        Some(ERR_INITIAL_CAP_NOT_POWER_OF_2@)
    } else if !is_power_of_2(expand_size) {
        Some(ERR_EXPAND_SIZE_NOT_POWER_OF_2@)
    } else {
        None
    }
}

/// The bounds `[start, end)` that a fill or a fill check covers: the whole
/// storage where a bound is absent.
pub open spec fn range_start(start: Option<u64>) -> int {
    match start {
        Some(s) => s as int,
        None => 0,
    }
}

pub open spec fn range_end(s: StorageState, end: Option<u64>) -> int {
    match end {
        Some(e) => e as int,
        None => s.bytes.len() as int,
    }
}

/// The error a fill of `[start, end)` reports, if any.
pub open spec fn fill_error(s: StorageState, start: Option<u64>, end: Option<u64>) -> Option<Seq<char>> {
    let lo = range_start(start);
    let hi = range_end(s, end);
    if !s.open {
        Some(ERR_OPERATION_INVALID_WHEN_CLOSED@)
    } else if s.use_txn_boundary && (lo < s.txn_boundary || hi < s.txn_boundary) {
        Some(ERR_WRITE_BEFORE_TXN_BOUNDARY@)
    } else if lo > usize::MAX || hi > usize::MAX {
        Some(ERR_ARITHMETIC_OVERFLOW@)
    } else if lo >= s.bytes.len() || hi > s.bytes.len() {
        Some(ERR_WRITE_PAST_END@)
    } else if hi <= lo {
        Some(ERR_WRITE_NOTHING@)
    } else {
        None
    }
}

/// The error a fill check of `[start, end)` reports, if any.
pub open spec fn is_filled_error(s: StorageState, start: Option<u64>, end: Option<u64>) -> Option<Seq<char>> {
    let lo = range_start(start);
    let hi = range_end(s, end);
    if !s.open {
        Some(ERR_OPERATION_INVALID_WHEN_CLOSED@)
    } else if lo > usize::MAX || hi > usize::MAX {
        Some(ERR_ARITHMETIC_OVERFLOW@)
    } else if lo >= s.bytes.len() || hi > s.bytes.len() {
        Some(ERR_READ_PAST_END@)
    } else if hi <= lo {
        Some(ERR_READ_NOTHING@)
    } else {
        None
    }
}

/// `bytes` with every byte in `[lo, hi)` set to `val`.
pub open spec fn fill_range(bytes: Seq<u8>, lo: int, hi: int, val: u8) -> Seq<u8> {
    Seq::new(bytes.len(), |i: int| if lo <= i < hi { val } else { bytes[i] })
}

/// The outcome of a read whose stored bytes decode to `value`: the reported
/// error, or `value`.
pub open spec fn typed_read_outcome<T>(
    s: StorageState,
    offset: int,
    len: int,
    r: Result<T, Error>,
    value: T,
) -> bool {
    match read_error(s, offset, len) {
        Some(msg) => r matches Err(e) && is_assertion(e, msg),
        None => r == Ok::<T, Error>(value),
    }
}

/// The `len` bytes stored at `offset`.
pub open spec fn stored(s: StorageState, offset: int, len: int) -> Seq<u8> {
    s.bytes.subrange(offset, offset + len)
}

/// The outcome of an expansion to at least `min_capacity` bytes: the
/// reported error and an unchanged state when a check fails; otherwise the
/// storage grown with zero bytes to the smallest multiple of the expansion
/// size that holds `min_capacity` bytes, or (only when memory had to be
/// allocated) an allocation failure with an unchanged state.
pub open spec fn expand_outcome(s: StorageState, min_capacity: int, r: Result<(), Error>, t: StorageState) -> bool {
    match expand_error(s, min_capacity) {
        Some(msg) => r matches Err(e) && is_assertion(e, msg) && t == s,
        None => match r {
            Ok(_) => t == (StorageState {
                bytes: zero_extend(s.bytes, round_up(min_capacity as nat, s.expand_size)),
                ..s
            }),
            Err(e) => {
                &&& is_assertion(e, ERR_STORAGE_ALLOC@)
                &&& needs_growth(s, min_capacity)
                &&& t == s
            },
        },
    }
}

/// The outcome of a fill of `[start, end)` with `val`: the reported error and
/// an unchanged state, or the range filled.
pub open spec fn fill_outcome(
    s: StorageState,
    start: Option<u64>,
    end: Option<u64>,
    val: u8,
    r: Result<(), Error>,
    t: StorageState,
) -> bool {
    match fill_error(s, start, end) {
        Some(msg) => r matches Err(e) && is_assertion(e, msg) && t == s,
        None => r is Ok && t == (StorageState {
            bytes: fill_range(s.bytes, range_start(start), range_end(s, end), val),
            ..s
        }),
    }
}

/// The outcome of a fill check of `[start, end)` against `val`: the reported
/// error, or whether every byte in the range equals `val`.
pub open spec fn all_filled_outcome(
    s: StorageState,
    start: Option<u64>,
    end: Option<u64>,
    val: u8,
    r: Result<bool, Error>,
) -> bool {
    match is_filled_error(s, start, end) {
        Some(msg) => r matches Err(e) && is_assertion(e, msg),
        None => r == Ok::<bool, Error>(all_equal(s.bytes.subrange(range_start(start), range_end(s, end)), val)),
    }
}

/// Calls `std::str::from_utf8`, which accepts exactly the valid UTF-8 byte
/// sequences, and copies the accepted text into a `String`.
#[verifier::external_body]
fn utf8_text(bytes: &[u8]) -> (r: Option<String>)
    ensures
        r is Some <==> valid_utf8(bytes@),
        r matches Some(t) ==> t@ == decode_utf8(bytes@),
{
    match std::str::from_utf8(bytes) {
        Ok(t) => Some(t.to_owned()),
        Err(_) => None,
    }
}

/// Byte storage in memory that grows in multiples of its expansion size.
#[derive(Debug)]
pub struct MemoryBinaryStorage {
    data: Vec<u8>,
    is_open: bool,
    capacity: u64,
    expand_size: u64,
    use_txn_boundary: bool,
    txn_boundary: u64,
}

impl View for MemoryBinaryStorage {
    type V = StorageState;

    closed spec fn view(&self) -> StorageState {
        StorageState {
            open: self.is_open,
            bytes: self.data@,
            expand_size: self.expand_size as nat,
            use_txn_boundary: self.use_txn_boundary,
            txn_boundary: self.txn_boundary as nat,
        }
    }
}

impl MemoryBinaryStorage {
    /// The internal consistency of a storage.
    pub closed spec fn wf(&self) -> bool {
        &&& self.data@.len() == self.capacity
        &&& self.capacity > 0
        &&& self.capacity <= usize::MAX
        &&& self.expand_size > 0
        &&& self.txn_boundary <= self.capacity
        &&& !self.use_txn_boundary ==> self.txn_boundary == 0
    }

    /// Facts that every well-formed storage has.
    pub proof fn lemma_wf(&self)
        requires
            self.wf(),
        ensures
            self@.bytes.len() > 0,
            self@.bytes.len() <= usize::MAX,
            self@.expand_size > 0,
            self@.expand_size <= u64::MAX,
            self@.txn_boundary <= self@.bytes.len(),
            !self@.use_txn_boundary ==> self@.txn_boundary == 0,
    {
    }

    fn check_params(expand_size: u64, initial_capacity: u64) -> (r: Result<(), AssertionError>)
        ensures
            match params_error(expand_size as int, initial_capacity as int) {
                Some(msg) => r matches Err(e) && e@ == msg,
                None => r is Ok,
            },
    {
        AssertionError::assert_true(expand_size > 0, ERR_EXPAND_SIZE_TOO_SMALL)?;
        AssertionError::assert_true(initial_capacity > 0, ERR_INITIAL_CAP_TOO_SMALL)?;
        AssertionError::assert_true(
            is_power_of_two_u64(initial_capacity),
            ERR_INITIAL_CAP_NOT_POWER_OF_2,
        )?;
        AssertionError::assert_true(is_power_of_two_u64(expand_size), ERR_EXPAND_SIZE_NOT_POWER_OF_2)?;
        Ok(())
    }

    /// Creates a closed storage of `initial_capacity` zero bytes.
    pub fn new(initial_capacity: u64, expand_size: u64, use_txn_boundary: bool) -> (r: Result<
        MemoryBinaryStorage,
        Error,
    >)
        ensures
            match params_error(expand_size as int, initial_capacity as int) {
                Some(msg) => r matches Err(e) && is_assertion(e, msg),
                None => match r {
                    Ok(s) => {
                        &&& s.wf()
                        &&& s@ == StorageState {
                            open: false,
                            bytes: Seq::new(initial_capacity as nat, |i: int| 0u8),
                            expand_size: expand_size as nat,
                            use_txn_boundary,
                            txn_boundary: 0,
                        }
                    },
                    Err(e) => {
                        ||| initial_capacity > usize::MAX && is_assertion(e, ERR_ARITHMETIC_OVERFLOW@)
                        ||| e matches Error::Memory(m) && m@ == ERR_STORAGE_ALLOC@
                    },
                },
            },
    {
        match MemoryBinaryStorage::check_params(expand_size, initial_capacity) {
            Ok(()) => {},
            Err(e) => return Err(Error::Assertion(e)),
        }
        let c_capacity = match u64_as_usize(initial_capacity) {
            Ok(c) => c,
            Err(e) => return Err(Error::Assertion(e)),
        };
        let mut data: Vec<u8> = Vec::new();
        if data.try_reserve(c_capacity).is_err() {
            return Err(Error::Memory(MemoryError::new(ERR_STORAGE_ALLOC)));
        }
        let mut i: usize = 0;
        while i < c_capacity
            invariant
                i <= c_capacity,
                data@ == Seq::new(i as nat, |j: int| 0u8),
            decreases c_capacity - i,
        {
            data.push(0u8);
            i += 1;
            assert(data@ =~= Seq::new(i as nat, |j: int| 0u8));
        }
        Ok(MemoryBinaryStorage {
            data,
            is_open: false,
            capacity: initial_capacity,
            expand_size,
            use_txn_boundary,
            txn_boundary: 0,
        })
    }

    /// Opens a closed storage.
    pub fn open(&mut self) -> (r: Result<(), Error>)
        requires
            old(self).wf(),
        ensures
            final(self).wf(),
            old(self)@.open ==> (r matches Err(e) && is_assertion(e, ERR_OPERATION_INVALID_WHEN_OPEN@))
                && final(self)@ == old(self)@,
            !old(self)@.open ==> r is Ok && final(self)@ == (StorageState { open: true, ..old(self)@ }),
    {
        if self.is_open {
            return Err(Error::Assertion(AssertionError::new(ERR_OPERATION_INVALID_WHEN_OPEN)));
        }
        self.is_open = true;
        Ok(())
    }

    /// Closes an open storage.
    pub fn close(&mut self) -> (r: Result<(), Error>)
        requires
            old(self).wf(),
        ensures
            final(self).wf(),
            !old(self)@.open ==> (r matches Err(e) && is_assertion(e, ERR_OPERATION_INVALID_WHEN_CLOSED@))
                && final(self)@ == old(self)@,
            old(self)@.open ==> r is Ok && final(self)@ == (StorageState { open: false, ..old(self)@ }),
    {
        if !self.is_open {
            return Err(Error::Assertion(AssertionError::new(ERR_OPERATION_INVALID_WHEN_CLOSED)));
        }
        self.is_open = false;
        Ok(())
    }

    /// Whether the storage is open.
    pub fn is_open(&self) -> (r: bool)
        ensures
            r == self@.open,
    {
        self.is_open
    }

    /// The number of bytes that the storage grows by, or a multiple of it.
    pub fn get_expand_size(&self) -> (r: u64)
        ensures
            r == self@.expand_size,
    {
        self.expand_size
    }

    /// Sets the expansion size after checking it (together with the current
    /// capacity) as `new` checks its parameters.
    pub fn set_expand_size(&mut self, expand_size: u64) -> (r: Result<(), Error>)
        requires
            old(self).wf(),
        ensures
            final(self).wf(),
            match params_error(expand_size as int, old(self)@.bytes.len() as int) {
                Some(msg) => r matches Err(e) && is_assertion(e, msg) && final(self)@ == old(self)@,
                None => r is Ok && final(self)@ == (StorageState {
                    expand_size: expand_size as nat,
                    ..old(self)@
                }),
            },
    {
        match MemoryBinaryStorage::check_params(expand_size, self.capacity) {
            Ok(()) => {},
            Err(e) => return Err(Error::Assertion(e)),
        }
        self.expand_size = expand_size;
        Ok(())
    }

    /// The number of bytes the storage holds.
    pub fn get_capacity(&self) -> (r: Result<u64, Error>)
        requires
            self.wf(),
        ensures
            self@.open ==> r == Ok::<u64, Error>(self@.bytes.len() as u64),
            !self@.open ==> (r matches Err(e) && is_assertion(e, ERR_OPERATION_INVALID_WHEN_CLOSED@)),
    {
        if !self.is_open {
            return Err(Error::Assertion(AssertionError::new(ERR_OPERATION_INVALID_WHEN_CLOSED)));
        }
        Ok(self.capacity)
    }

    /// The smallest multiple of the expansion size that is at least `min_capacity`.
    fn target_capacity(&self, min_capacity: u64) -> (r: Result<u64, AssertionError>)
        requires
            self.wf(),
        ensures
            self@.expand_size > 0,
            match r {
                Ok(c) => c == round_up(min_capacity as nat, self@.expand_size),
                Err(e) => round_up(min_capacity as nat, self@.expand_size) > u64::MAX
                    && e@ == ERR_ARITHMETIC_OVERFLOW@,
            },
    {
        let q = min_capacity / self.expand_size;
        let increments = if min_capacity % self.expand_size == 0 {
            q
        } else {
            proof {
                assert(q * self.expand_size <= min_capacity) by (nonlinear_arith)
                    requires
                        q == min_capacity / self.expand_size,
                        self.expand_size > 0,
                ;
                assert(q < u64::MAX) by (nonlinear_arith)
                    requires
                        q == min_capacity / self.expand_size,
                        self.expand_size > 0,
                        min_capacity % self.expand_size != 0,
                ;
            }
            q + 1
        };
        assert(increments == ceil_div(min_capacity as nat, self.expand_size as nat));
        match increments.checked_mul(self.expand_size) {
            Some(c) => Ok(c),
            None => Err(AssertionError::new(ERR_ARITHMETIC_OVERFLOW)),
        }
    }

    /// Grows the storage to the smallest multiple of the expansion size that
    /// holds `min_capacity` bytes, with the new bytes zero; does nothing when
    /// the storage already holds that many.
    pub fn expand(&mut self, min_capacity: u64) -> (r: Result<(), Error>)
        requires
            old(self).wf(),
        ensures
            final(self).wf(),
            expand_outcome(old(self)@, min_capacity as int, r, final(self)@),
    {
        if !self.is_open {
            return Err(Error::Assertion(AssertionError::new(ERR_OPERATION_INVALID_WHEN_CLOSED)));
        }
        let new_capacity = match self.target_capacity(min_capacity) {
            Ok(c) => c,
            Err(e) => return Err(Error::Assertion(e)),
        };
        let c_new_capacity = match u64_as_usize(new_capacity) {
            Ok(c) => c,
            Err(e) => return Err(Error::Assertion(e)),
        };
        let c_capacity = self.data.len();
        if c_new_capacity <= c_capacity {
            return Ok(());
        }
        if self.data.try_reserve(c_new_capacity - c_capacity).is_err() {
            return Err(Error::Assertion(AssertionError::new(ERR_STORAGE_ALLOC)));
        }
        let ghost old_bytes = self.data@;
        let mut i: usize = c_capacity;
        while i < c_new_capacity
            invariant
                c_capacity == old_bytes.len(),
                c_capacity <= i <= c_new_capacity,
                old(self).wf(),
                old_bytes == old(self)@.bytes,
                self.is_open == old(self).is_open,
                self.capacity == old(self).capacity,
                self.expand_size == old(self).expand_size,
                self.use_txn_boundary == old(self).use_txn_boundary,
                self.txn_boundary == old(self).txn_boundary,
                self.data@ == old_bytes + Seq::new((i - c_capacity) as nat, |j: int| 0u8),
            decreases c_new_capacity - i,
        {
            self.data.push(0u8);
            i += 1;
            assert(self.data@ =~= old_bytes + Seq::new((i - c_capacity) as nat, |j: int| 0u8));
        }
        assert(self.data@ =~= zero_extend(old_bytes, new_capacity as nat));
        self.capacity = new_capacity;
        Ok(())
    }

    /// Writes `bytes` at `offset`, growing the storage first when it is too small.
    fn write_at(&mut self, offset: u64, bytes: &[u8]) -> (r: Result<(), Error>)
        requires
            old(self).wf(),
        ensures
            final(self).wf(),
            write_outcome(old(self)@, offset as int, bytes@, r, final(self)@),
    {
        if !self.is_open {
            return Err(Error::Assertion(AssertionError::new(ERR_OPERATION_INVALID_WHEN_CLOSED)));
        }
        if self.use_txn_boundary && offset < self.txn_boundary {
            return Err(Error::Assertion(AssertionError::new(ERR_WRITE_BEFORE_TXN_BOUNDARY)));
        }
        let c_offset = match u64_as_usize(offset) {
            Ok(c) => c,
            Err(e) => return Err(Error::Assertion(e)),
        };
        let end_offset = match usize_add(c_offset, bytes.len()) {
            Ok(c) => c,
            Err(e) => return Err(Error::Assertion(e)),
        };
        match self.expand(end_offset as u64) {
            Ok(()) => {},
            Err(e) => return Err(e),
        }
        proof {
            lemma_round_up(end_offset as nat, self.expand_size as nat);
        }
        let ghost ext = self.data@;
        let mut i: usize = 0;
        while i < bytes.len()
            invariant
                old(self).wf(),
                i <= bytes@.len(),
                c_offset + bytes@.len() <= ext.len(),
                c_offset == offset,
                self.data@.len() == ext.len(),
                forall|j: int| 0 <= j < c_offset ==> self.data@[j] == ext[j],
                forall|j: int| c_offset + i <= j < ext.len() ==> self.data@[j] == ext[j],
                forall|j: int| c_offset <= j < c_offset + i ==> self.data@[j] == bytes@[j - c_offset],
                self.data@.len() == self.capacity,
                self.capacity > 0,
                self.capacity <= usize::MAX,
                self.expand_size == old(self).expand_size,
                self.is_open == old(self).is_open,
                self.use_txn_boundary == old(self).use_txn_boundary,
                self.txn_boundary == old(self).txn_boundary,
                self.txn_boundary <= self.capacity,
            decreases bytes@.len() - i,
        {
            self.data.set(c_offset + i, bytes[i]);
            i += 1;
        }
        assert(self.data@ =~= splice(ext, offset as int, bytes@));
        Ok(())
    }

    /// Reads `len` bytes at `offset`.
    fn read_at(&self, offset: u64, len: usize) -> (r: Result<Vec<u8>, Error>)
        requires
            self.wf(),
        ensures
            match read_error(self@, offset as int, len as int) {
                Some(msg) => r matches Err(e) && is_assertion(e, msg),
                None => r matches Ok(v) && v@ == stored(self@, offset as int, len as int),
            },
    {
        if !self.is_open {
            return Err(Error::Assertion(AssertionError::new(ERR_OPERATION_INVALID_WHEN_CLOSED)));
        }
        let c_offset = match u64_as_usize(offset) {
            Ok(c) => c,
            Err(e) => return Err(Error::Assertion(e)),
        };
        let end_offset = match usize_add(c_offset, len) {
            Ok(c) => c,
            Err(e) => return Err(Error::Assertion(e)),
        };
        if self.use_txn_boundary && end_offset as u64 > self.txn_boundary {
            return Err(Error::Assertion(AssertionError::new(ERR_READ_AFTER_TXN_BOUNDARY)));
        }
        if end_offset > self.data.len() {
            return Err(Error::Assertion(AssertionError::new(ERR_READ_PAST_END)));
        }
        let mut out: Vec<u8> = Vec::new();
        let mut i: usize = c_offset;
        while i < end_offset
            invariant
                c_offset <= i <= end_offset,
                end_offset <= self.data@.len(),
                out@ == self.data@.subrange(c_offset as int, i as int),
            decreases end_offset - i,
        {
            out.push(self.data[i]);
            i += 1;
            assert(out@ =~= self.data@.subrange(c_offset as int, i as int));
        }
        Ok(out)
    }

    /// Writes an `i8` at `offset`.
    pub fn w_i8(&mut self, offset: u64, data: i8) -> (r: Result<(), Error>)
        requires
            old(self).wf(),
        ensures
            final(self).wf(),
            write_outcome(old(self)@, offset as int, seq![data as u8], r, final(self)@),
    {
        let bytes: [u8; 1] = [data as u8];
        proof {
            assert(bytes@ =~= seq![data as u8]);
        }
        self.write_at(offset, &bytes)
    }

    /// Writes an `i16` in little-endian order at `offset`.
    pub fn w_i16(&mut self, offset: u64, data: i16) -> (r: Result<(), Error>)
        requires
            old(self).wf(),
        ensures
            final(self).wf(),
            write_outcome(old(self)@, offset as int, spec_u16_to_le_bytes(data as u16), r, final(self)@),
    {
        let bytes = encode_u16(data as u16);
        self.write_at(offset, bytes.as_slice())
    }

    /// Writes an `i32` in little-endian order at `offset`.
    pub fn w_i32(&mut self, offset: u64, data: i32) -> (r: Result<(), Error>)
        requires
            old(self).wf(),
        ensures
            final(self).wf(),
            write_outcome(old(self)@, offset as int, spec_u32_to_le_bytes(data as u32), r, final(self)@),
    {
        let bytes = encode_u32(data as u32);
        self.write_at(offset, bytes.as_slice())
    }

    /// Writes an `i64` in little-endian order at `offset`.
    pub fn w_i64(&mut self, offset: u64, data: i64) -> (r: Result<(), Error>)
        requires
            old(self).wf(),
        ensures
            final(self).wf(),
            write_outcome(old(self)@, offset as int, spec_u64_to_le_bytes(data as u64), r, final(self)@),
    {
        let bytes = encode_u64(data as u64);
        self.write_at(offset, bytes.as_slice())
    }

    /// Writes a `u8` at `offset`.
    pub fn w_u8(&mut self, offset: u64, data: u8) -> (r: Result<(), Error>)
        requires
            old(self).wf(),
        ensures
            final(self).wf(),
            write_outcome(old(self)@, offset as int, seq![data], r, final(self)@),
    {
        let bytes: [u8; 1] = [data];
        proof {
            assert(bytes@ =~= seq![data]);
        }
        self.write_at(offset, &bytes)
    }

    /// Writes a `u16` in little-endian order at `offset`.
    pub fn w_u16(&mut self, offset: u64, data: u16) -> (r: Result<(), Error>)
        requires
            old(self).wf(),
        ensures
            final(self).wf(),
            write_outcome(old(self)@, offset as int, spec_u16_to_le_bytes(data), r, final(self)@),
    {
        let bytes = encode_u16(data);
        self.write_at(offset, bytes.as_slice())
    }

    /// Writes a `u32` in little-endian order at `offset`.
    pub fn w_u32(&mut self, offset: u64, data: u32) -> (r: Result<(), Error>)
        requires
            old(self).wf(),
        ensures
            final(self).wf(),
            write_outcome(old(self)@, offset as int, spec_u32_to_le_bytes(data), r, final(self)@),
    {
        let bytes = encode_u32(data);
        self.write_at(offset, bytes.as_slice())
    }

    /// Writes a `u64` in little-endian order at `offset`.
    pub fn w_u64(&mut self, offset: u64, data: u64) -> (r: Result<(), Error>)
        requires
            old(self).wf(),
        ensures
            final(self).wf(),
            write_outcome(old(self)@, offset as int, spec_u64_to_le_bytes(data), r, final(self)@),
    {
        let bytes = encode_u64(data);
        self.write_at(offset, bytes.as_slice())
    }

    /// Writes a `bool` as one byte (1 for true, 0 for false) at `offset`.
    pub fn w_bool(&mut self, offset: u64, data: bool) -> (r: Result<(), Error>)
        requires
            old(self).wf(),
        ensures
            final(self).wf(),
            write_outcome(old(self)@, offset as int, seq![if data { 1u8 } else { 0u8 }], r, final(self)@),
    {
        let b: u8 = if data { 1 } else { 0 };
        let bytes: [u8; 1] = [b];
        proof {
            assert(bytes@ =~= seq![if data { 1u8 } else { 0u8 }]);
        }
        self.write_at(offset, &bytes)
    }

    /// Writes `data` at `offset`.
    pub fn w_bytes(&mut self, offset: u64, data: &[u8]) -> (r: Result<(), Error>)
        requires
            old(self).wf(),
        ensures
            final(self).wf(),
            write_outcome(old(self)@, offset as int, data@, r, final(self)@),
    {
        self.write_at(offset, data)
    }

    /// Writes the UTF-8 bytes of `data` at `offset`.
    pub fn w_str(&mut self, offset: u64, data: &str) -> (r: Result<(), Error>)
        requires
            old(self).wf(),
        ensures
            final(self).wf(),
            write_outcome(old(self)@, offset as int, data.spec_bytes(), r, final(self)@),
    {
        self.write_at(offset, data.as_bytes())
    }

    /// Reads an `i8` at `offset`.
    pub fn r_i8(&self, offset: u64) -> (r: Result<i8, Error>)
        requires
            self.wf(),
        ensures
            typed_read_outcome(self@, offset as int, 1, r, stored(self@, offset as int, 1)[0] as i8),
    {
        match self.read_at(offset, 1) {
            Ok(v) => Ok(v[0] as i8),
            Err(e) => Err(e),
        }
    }

    /// Reads a little-endian `i16` at `offset`.
    pub fn r_i16(&self, offset: u64) -> (r: Result<i16, Error>)
        requires
            self.wf(),
        ensures
            typed_read_outcome(
                self@,
                offset as int,
                2,
                r,
                spec_u16_from_le_bytes(stored(self@, offset as int, 2)) as i16,
            ),
    {
        match self.read_at(offset, 2) {
            Ok(v) => {
                assert(v@.subrange(0, 2) =~= v@);
                Ok(decode_u16(v.as_slice()) as i16)
            },
            Err(e) => Err(e),
        }
    }

    /// Reads a little-endian `i32` at `offset`.
    pub fn r_i32(&self, offset: u64) -> (r: Result<i32, Error>)
        requires
            self.wf(),
        ensures
            typed_read_outcome(
                self@,
                offset as int,
                4,
                r,
                spec_u32_from_le_bytes(stored(self@, offset as int, 4)) as i32,
            ),
    {
        match self.read_at(offset, 4) {
            Ok(v) => {
                assert(v@.subrange(0, 4) =~= v@);
                Ok(decode_u32(v.as_slice()) as i32)
            },
            Err(e) => Err(e),
        }
    }

    /// Reads a little-endian `i64` at `offset`.
    pub fn r_i64(&self, offset: u64) -> (r: Result<i64, Error>)
        requires
            self.wf(),
        ensures
            typed_read_outcome(
                self@,
                offset as int,
                8,
                r,
                spec_u64_from_le_bytes(stored(self@, offset as int, 8)) as i64,
            ),
    {
        match self.read_at(offset, 8) {
            Ok(v) => {
                assert(v@.subrange(0, 8) =~= v@);
                Ok(decode_u64(v.as_slice()) as i64)
            },
            Err(e) => Err(e),
        }
    }

    /// Reads a `u8` at `offset`.
    pub fn r_u8(&self, offset: u64) -> (r: Result<u8, Error>)
        requires
            self.wf(),
        ensures
            typed_read_outcome(self@, offset as int, 1, r, stored(self@, offset as int, 1)[0]),
    {
        match self.read_at(offset, 1) {
            Ok(v) => Ok(v[0]),
            Err(e) => Err(e),
        }
    }

    /// Reads a little-endian `u16` at `offset`.
    pub fn r_u16(&self, offset: u64) -> (r: Result<u16, Error>)
        requires
            self.wf(),
        ensures
            typed_read_outcome(
                self@,
                offset as int,
                2,
                r,
                spec_u16_from_le_bytes(stored(self@, offset as int, 2)),
            ),
    {
        match self.read_at(offset, 2) {
            Ok(v) => {
                assert(v@.subrange(0, 2) =~= v@);
                Ok(decode_u16(v.as_slice()))
            },
            Err(e) => Err(e),
        }
    }

    /// Reads a little-endian `u32` at `offset`.
    pub fn r_u32(&self, offset: u64) -> (r: Result<u32, Error>)
        requires
            self.wf(),
        ensures
            typed_read_outcome(
                self@,
                offset as int,
                4,
                r,
                spec_u32_from_le_bytes(stored(self@, offset as int, 4)),
            ),
    {
        match self.read_at(offset, 4) {
            Ok(v) => {
                assert(v@.subrange(0, 4) =~= v@);
                Ok(decode_u32(v.as_slice()))
            },
            Err(e) => Err(e),
        }
    }

    /// Reads a little-endian `u64` at `offset`.
    pub fn r_u64(&self, offset: u64) -> (r: Result<u64, Error>)
        requires
            self.wf(),
        ensures
            typed_read_outcome(
                self@,
                offset as int,
                8,
                r,
                spec_u64_from_le_bytes(stored(self@, offset as int, 8)),
            ),
    {
        match self.read_at(offset, 8) {
            Ok(v) => {
                assert(v@.subrange(0, 8) =~= v@);
                Ok(decode_u64(v.as_slice()))
            },
            Err(e) => Err(e),
        }
    }

    /// Reads a `bool` at `offset`: any byte other than 0 reads as true.
    pub fn r_bool(&self, offset: u64) -> (r: Result<bool, Error>)
        requires
            self.wf(),
        ensures
            typed_read_outcome(self@, offset as int, 1, r, stored(self@, offset as int, 1)[0] != 0),
    {
        match self.read_at(offset, 1) {
            Ok(v) => Ok(v[0] != 0),
            Err(e) => Err(e),
        }
    }

    /// Reads `len` bytes at `offset`.
    pub fn r_bytes(&self, offset: u64, len: usize) -> (r: Result<Vec<u8>, Error>)
        requires
            self.wf(),
        ensures
            match read_error(self@, offset as int, len as int) {
                Some(msg) => r matches Err(e) && is_assertion(e, msg),
                None => r matches Ok(v) && v@ == stored(self@, offset as int, len as int),
            },
    {
        self.read_at(offset, len)
    }

    /// Reads `len` bytes at `offset` as UTF-8 text.
    pub fn r_str(&self, offset: u64, len: usize) -> (r: Result<String, Error>)
        requires
            self.wf(),
        ensures
            match read_error(self@, offset as int, len as int) {
                Some(msg) => r matches Err(e) && is_assertion(e, msg),
                None => {
                    let b = stored(self@, offset as int, len as int);
                    if valid_utf8(b) {
                        r matches Ok(t) && t@ == decode_utf8(b)
                    } else {
                        r matches Err(Error::Utf8)
                    }
                },
            },
    {
        let b = match self.read_at(offset, len) {
            Ok(v) => v,
            Err(e) => return Err(e),
        };
        match utf8_text(b.as_slice()) {
            Some(t) => Ok(t),
            None => Err(Error::Utf8),
        }
    }

    /// Sets every byte in `[start, end)` to `val`; an absent bound stands for
    /// the start or the end of the storage.
    pub fn fill(&mut self, start: Option<u64>, end: Option<u64>, val: u8) -> (r: Result<(), Error>)
        requires
            old(self).wf(),
        ensures
            final(self).wf(),
            fill_outcome(old(self)@, start, end, val, r, final(self)@),
    {
        if !self.is_open {
            return Err(Error::Assertion(AssertionError::new(ERR_OPERATION_INVALID_WHEN_CLOSED)));
        }
        let lo: u64 = match start {
            Some(s) => s,
            None => 0,
        };
        let hi: u64 = match end {
            Some(e) => e,
            None => self.capacity,
        };
        if self.use_txn_boundary && (lo < self.txn_boundary || hi < self.txn_boundary) {
            return Err(Error::Assertion(AssertionError::new(ERR_WRITE_BEFORE_TXN_BOUNDARY)));
        }
        let start_offset = match u64_as_usize(lo) {
            Ok(c) => c,
            Err(e) => return Err(Error::Assertion(e)),
        };
        let end_offset = match u64_as_usize(hi) {
            Ok(c) => c,
            Err(e) => return Err(Error::Assertion(e)),
        };
        let c_capacity = self.data.len();
        if start_offset >= c_capacity || end_offset > c_capacity {
            return Err(Error::Assertion(AssertionError::new(ERR_WRITE_PAST_END)));
        }
        if end_offset <= start_offset {
            return Err(Error::Assertion(AssertionError::new(ERR_WRITE_NOTHING)));
        }
        let ghost before = self.data@;
        let mut i: usize = start_offset;
        while i < end_offset
            invariant
                old(self).wf(),
                start_offset <= i <= end_offset,
                end_offset <= before.len(),
                self.data@.len() == before.len(),
                forall|j: int| 0 <= j < before.len() ==> #[trigger] self.data@[j] == (
                    if start_offset <= j < i { val } else { before[j] }),
                self.data@.len() == self.capacity,
                self.capacity == old(self).capacity,
                self.expand_size == old(self).expand_size,
                self.is_open == old(self).is_open,
                self.use_txn_boundary == old(self).use_txn_boundary,
                self.txn_boundary == old(self).txn_boundary,
            decreases end_offset - i,
        {
            self.data.set(i, val);
            i += 1;
        }
        assert(self.data@ =~= fill_range(before, start_offset as int, end_offset as int, val));
        Ok(())
    }

    /// Whether every byte in `[start, end)` equals `val`; an absent bound
    /// stands for the start or the end of the storage.
    pub fn is_filled(&self, start: Option<u64>, end: Option<u64>, val: u8) -> (r: Result<bool, Error>)
        requires
            self.wf(),
        ensures
            all_filled_outcome(self@, start, end, val, r),
    {
        if !self.is_open {
            return Err(Error::Assertion(AssertionError::new(ERR_OPERATION_INVALID_WHEN_CLOSED)));
        }
        let lo: u64 = match start {
            Some(s) => s,
            None => 0,
        };
        let hi: u64 = match end {
            Some(e) => e,
            None => self.capacity,
        };
        let start_offset = match u64_as_usize(lo) {
            Ok(c) => c,
            Err(e) => return Err(Error::Assertion(e)),
        };
        let end_offset = match u64_as_usize(hi) {
            Ok(c) => c,
            Err(e) => return Err(Error::Assertion(e)),
        };
        let c_capacity = self.data.len();
        if start_offset >= c_capacity || end_offset > c_capacity {
            return Err(Error::Assertion(AssertionError::new(ERR_READ_PAST_END)));
        }
        if end_offset <= start_offset {
            return Err(Error::Assertion(AssertionError::new(ERR_READ_NOTHING)));
        }
        let ghost range = self.data@.subrange(start_offset as int, end_offset as int);
        let mut i: usize = start_offset;
        while i < end_offset
            invariant
                start_offset <= i <= end_offset,
                end_offset <= self.data@.len(),
                range == self.data@.subrange(start_offset as int, end_offset as int),
                forall|j: int| start_offset <= j < i ==> self.data@[j] == val,
                self.wf(),
                start_offset == range_start(start),
                end_offset == range_end(self@, end),
                is_filled_error(self@, start, end) is None,
            decreases end_offset - i,
        {
            if self.data[i] != val {
                assert(range[i - start_offset] != val);
                assert(!all_equal(range, val));
                assert(range == self@.bytes.subrange(range_start(start), range_end(self@, end)));
                return Ok(false);
            }
            i += 1;
        }
        Ok(true)
    }

    /// Whether writes before, and reads after, the transaction boundary are refused.
    pub fn get_use_txn_boundary(&self) -> (r: bool)
        ensures
            r == self@.use_txn_boundary,
    {
        self.use_txn_boundary
    }

    /// Turns the transaction boundary on or off; turning it off moves it back to 0.
    pub fn set_use_txn_boundary(&mut self, use_txn_boundary: bool)
        requires
            old(self).wf(),
        ensures
            final(self).wf(),
            final(self)@ == (StorageState {
                use_txn_boundary,
                txn_boundary: if use_txn_boundary { old(self)@.txn_boundary } else { 0 },
                ..old(self)@
            }),
    {
        self.use_txn_boundary = use_txn_boundary;
        if !use_txn_boundary {
            self.txn_boundary = 0;
        }
    }

    /// The transaction boundary.
    pub fn get_txn_boundary(&self) -> (r: Result<u64, Error>)
        requires
            self.wf(),
        ensures
            !self@.open ==> (r matches Err(e) && is_assertion(e, ERR_OPERATION_INVALID_WHEN_CLOSED@)),
            self@.open && !self@.use_txn_boundary ==> (r matches Err(e) && is_assertion(
                e,
                ERR_TXN_BOUNDARY_NOT_IN_USE@,
            )),
            self@.open && self@.use_txn_boundary ==> r == Ok::<u64, Error>(self@.txn_boundary as u64),
    {
        if !self.is_open {
            return Err(Error::Assertion(AssertionError::new(ERR_OPERATION_INVALID_WHEN_CLOSED)));
        }
        if !self.use_txn_boundary {
            return Err(Error::Assertion(AssertionError::new(ERR_TXN_BOUNDARY_NOT_IN_USE)));
        }
        Ok(self.txn_boundary)
    }

    /// Moves the transaction boundary to `offset`, which must lie within the storage.
    pub fn set_txn_boundary(&mut self, offset: u64) -> (r: Result<(), Error>)
        requires
            old(self).wf(),
        ensures
            final(self).wf(),
            !old(self)@.open ==> (r matches Err(e) && is_assertion(e, ERR_OPERATION_INVALID_WHEN_CLOSED@))
                && final(self)@ == old(self)@,
            old(self)@.open && !old(self)@.use_txn_boundary ==> (r matches Err(e) && is_assertion(
                e,
                ERR_TXN_BOUNDARY_NOT_IN_USE@,
            )) && final(self)@ == old(self)@,
            old(self)@.open && old(self)@.use_txn_boundary && offset > old(self)@.bytes.len() ==> (
            r matches Err(e) && is_assertion(e, ERR_SET_TXN_BOUNDARY_PAST_END@)) && final(self)@ == old(
                self,
            )@,
            old(self)@.open && old(self)@.use_txn_boundary && offset <= old(self)@.bytes.len() ==> r is Ok
                && final(self)@ == (StorageState { txn_boundary: offset as nat, ..old(self)@ }),
    {
        if !self.is_open {
            return Err(Error::Assertion(AssertionError::new(ERR_OPERATION_INVALID_WHEN_CLOSED)));
        }
        if !self.use_txn_boundary {
            return Err(Error::Assertion(AssertionError::new(ERR_TXN_BOUNDARY_NOT_IN_USE)));
        }
        if offset > self.capacity {
            return Err(Error::Assertion(AssertionError::new(ERR_SET_TXN_BOUNDARY_PAST_END)));
        }
        self.txn_boundary = offset;
        Ok(())
    }
}

} // verus!

verus! {

/// A successful write stores its data at its offset, leaves every other
/// byte as it was (bytes added by growth are zero), never shrinks the
/// storage, and the written bytes can be read back unless they lie past the
/// transaction boundary.
pub proof fn law_write_then_read(s: StorageState, offset: int, data: Seq<u8>)
    requires
        s.expand_size > 0,
        0 <= offset,
        write_error(s, offset, data.len() as int) is None,
    ensures
        ({
            let t = state_after_write(s, offset, data);
            &&& stored(t, offset, data.len() as int) == data
            &&& t.bytes.len() >= s.bytes.len()
            &&& t.bytes.len() >= offset + data.len()
            &&& forall|i: int|
                0 <= i < t.bytes.len() && !(offset <= i < offset + data.len()) ==> t.bytes[i] == (
                if i < s.bytes.len() { s.bytes[i] } else { 0u8 })
            &&& (!t.use_txn_boundary || offset + data.len() <= t.txn_boundary) ==> read_error(
                t,
                offset,
                data.len() as int,
            ) is None
        }),
{
    let n = (offset + data.len()) as nat;
    lemma_round_up(n, s.expand_size);
    let ext = zero_extend(s.bytes, round_up(n, s.expand_size));
    let t = state_after_write(s, offset, data);
    assert(ext.len() >= n);
    assert(t.bytes =~= splice(ext, offset, data));
    assert(t.bytes.len() == ext.len());
    assert(stored(t, offset, data.len() as int) =~= data);
    assert forall|i: int|
        0 <= i < t.bytes.len() && !(offset <= i < offset + data.len()) implies t.bytes[i] == (
        if i < s.bytes.len() { s.bytes[i] } else { 0u8 }) by {
        assert(t.bytes[i] == ext[i]);
    }
}

/// Growth keeps every stored byte, adds zero bytes, and reaches a multiple of
/// the expansion size that covers the requested capacity.
pub proof fn law_expand_keeps_contents(s: StorageState, min_capacity: nat)
    requires
        s.expand_size > 0,
    ensures
        ({
            let b = zero_extend(s.bytes, round_up(min_capacity, s.expand_size));
            &&& b.len() >= s.bytes.len()
            &&& b.len() >= min_capacity
            &&& b.subrange(0, s.bytes.len() as int) == s.bytes
            &&& forall|i: int| s.bytes.len() <= i < b.len() ==> b[i] == 0u8
            &&& needs_growth(s, min_capacity as int) ==> b.len() % s.expand_size == 0
        }),
{
    lemma_round_up(min_capacity, s.expand_size);
    let b = zero_extend(s.bytes, round_up(min_capacity, s.expand_size));
    assert(b.subrange(0, s.bytes.len() as int) =~= s.bytes);
}

/// A write that starts before an active transaction boundary is refused and
/// changes nothing.
pub proof fn law_committed_bytes_are_protected(
    s: StorageState,
    offset: int,
    data: Seq<u8>,
    r: Result<(), Error>,
    t: StorageState,
)
    requires
        s.open,
        s.use_txn_boundary,
        offset < s.txn_boundary,
        write_outcome(s, offset, data, r, t),
    ensures
        t == s,
        r matches Err(e) && is_assertion(e, ERR_WRITE_BEFORE_TXN_BOUNDARY@),
{
}

/// After a successful fill, the filled range holds only the fill value.
pub proof fn law_fill_then_is_filled(s: StorageState, start: Option<u64>, end: Option<u64>, val: u8)
    requires
        fill_error(s, start, end) is None,
    ensures
        ({
            let t = StorageState {
                bytes: fill_range(s.bytes, range_start(start), range_end(s, end), val),
                ..s
            };
            &&& is_filled_error(t, start, end) is None
            &&& all_equal(t.bytes.subrange(range_start(start), range_end(t, end)), val)
        }),
{
}

/// Decoding the little-endian encoding of a `u16` gives the value back.
pub proof fn law_u16_roundtrip(x: u16)
    ensures
        spec_u16_from_le_bytes(spec_u16_to_le_bytes(x)) == x,
        spec_u16_to_le_bytes(x).len() == 2,
{
    lemma_auto_spec_u16_to_from_le_bytes();
}

/// Decoding the little-endian encoding of a `u32` gives the value back.
pub proof fn law_u32_roundtrip(x: u32)
    ensures
        spec_u32_from_le_bytes(spec_u32_to_le_bytes(x)) == x,
        spec_u32_to_le_bytes(x).len() == 4,
{
    lemma_auto_spec_u32_to_from_le_bytes();
}

/// Decoding the little-endian encoding of a `u64` gives the value back.
pub proof fn law_u64_roundtrip(x: u64)
    ensures
        spec_u64_from_le_bytes(spec_u64_to_le_bytes(x)) == x,
        spec_u64_to_le_bytes(x).len() == 8,
{
    lemma_auto_spec_u64_to_from_le_bytes();
}

/// The signed integers and `bool` read back as written: a signed value is
/// stored as its two's complement bits, a `bool` as 1 or 0.
pub proof fn law_signed_and_bool_roundtrip(a: i8, b: i16, c: i32, d: i64, e: bool)
    ensures
        (a as u8) as i8 == a,
        spec_u16_from_le_bytes(spec_u16_to_le_bytes(b as u16)) as i16 == b,
        spec_u32_from_le_bytes(spec_u32_to_le_bytes(c as u32)) as i32 == c,
        spec_u64_from_le_bytes(spec_u64_to_le_bytes(d as u64)) as i64 == d,
        ((if e { 1u8 } else { 0u8 }) != 0) == e,
{
    lemma_auto_spec_u16_to_from_le_bytes();
    lemma_auto_spec_u32_to_from_le_bytes();
    lemma_auto_spec_u64_to_from_le_bytes();
    law_u16_roundtrip(b as u16);
    law_u32_roundtrip(c as u32);
    law_u64_roundtrip(d as u64);
    assert((a as u8) as i8 == a) by (bit_vector);
    assert((b as u16) as i16 == b) by (bit_vector);
    assert((c as u32) as i32 == c) by (bit_vector);
    assert((d as u64) as i64 == d) by (bit_vector);
}

} // verus!

verus! {

/// Writing `a` at `o` and then `b` right after it is writing `a + b` at `o`.
pub proof fn lemma_write_concat(s: StorageState, o: int, a: Seq<u8>, b: Seq<u8>)
    requires
        s.expand_size > 0,
        0 <= o,
    ensures
        state_after_write(state_after_write(s, o, a), o + a.len(), b) == state_after_write(s, o, a + b),
{
    let n1 = (o + a.len()) as nat;
    let n2 = (o + a.len() + b.len()) as nat;
    let e = s.expand_size;
    lemma_round_up(n1, e);
    lemma_round_up(n2, e);
    crate::util::lemma_round_up_monotone(n1, n2, e);
    let s1 = state_after_write(s, o, a);
    let s2 = state_after_write(s1, o + a.len(), b);
    let t = state_after_write(s, o, a + b);
    let z1 = zero_extend(s.bytes, round_up(n1, e));
    let z2 = zero_extend(s1.bytes, round_up(n2, e));
    let zt = zero_extend(s.bytes, round_up(n2, e));
    assert(z2.len() == zt.len());
    assert forall|i: int| 0 <= i < zt.len() implies s2.bytes[i] == t.bytes[i] by {
        if o <= i < n1 {
            assert(s2.bytes[i] == z2[i]);
            assert(z2[i] == s1.bytes[i]);
            assert(s1.bytes[i] == a[i - o]);
            assert(t.bytes[i] == (a + b)[i - o]);
        } else if n1 <= i < n2 {
            assert(t.bytes[i] == (a + b)[i - o]);
        } else {
            assert(s2.bytes[i] == z2[i]);
            assert(t.bytes[i] == zt[i]);
            if i < s1.bytes.len() {
                assert(z2[i] == s1.bytes[i]);
                assert(s1.bytes[i] == z1[i]);
            }
        }
    }
    assert(s2.bytes =~= t.bytes);
}

/// A write that is part of a longer one, made once the first `first` bytes
/// of the longer one were written, reports no error that the longer one
/// would not report.
pub proof fn lemma_part_write_error(s: StorageState, wo: int, total: int, first: int, o: int, len: int)
    requires
        s.expand_size > 0,
        0 <= wo <= o,
        0 <= len,
        0 < first,
        o + len <= wo + total,
        o == wo || (o >= wo + first && write_error(s, wo, first) is None),
        write_error(s, o, len) is Some,
    ensures
        write_error(s, wo, total) == write_error(s, o, len),
{
    crate::util::lemma_round_up_monotone((o + len) as nat, (wo + total) as nat, s.expand_size);
    if o != wo {
        crate::util::lemma_round_up_monotone((wo + first) as nat, (o + len) as nat, s.expand_size);
    }
}

/// A write never shrinks the storage and keeps its expansion size.
pub proof fn lemma_write_never_shrinks(s: StorageState, offset: int, data: Seq<u8>)
    requires
        s.expand_size > 0,
        0 <= offset,
    ensures
        state_after_write(s, offset, data).bytes.len() >= s.bytes.len(),
        state_after_write(s, offset, data).expand_size == s.expand_size,
{
    lemma_round_up((offset + data.len()) as nat, s.expand_size);
}

/// Where a part of a longer write, made on a storage at least as large as
/// `s`, needs the storage to grow, so does the whole write on `s`.
pub proof fn lemma_part_needs_growth(s: StorageState, sk: StorageState, o: int, len: int, wo: int, total: int)
    requires
        s.expand_size > 0,
        sk.expand_size == s.expand_size,
        sk.bytes.len() >= s.bytes.len(),
        0 <= o,
        0 <= len,
        o + len <= wo + total,
        needs_growth(sk, o + len),
    ensures
        needs_growth(s, wo + total),
{
    crate::util::lemma_round_up_monotone((o + len) as nat, (wo + total) as nat, s.expand_size);
}

} // verus!
