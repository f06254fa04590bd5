//! A storage whose transaction boundary is kept apart from the storage it
//! wraps: while the storage is open, writes before the boundary are refused,
//! and (when reads are checked) so are reads past it.
use vstd::prelude::*;
use vstd::bytes::*;
use vstd::utf8::{decode_utf8, valid_utf8};
use vstd::string::StringSliceAdditionalSpecFns;
use crate::binary_storage::ERR_OPERATION_INVALID_WHEN_CLOSED;
use crate::error::{AssertionError, Error, is_assertion};
use crate::memory_binary_storage::{
    MemoryBinaryStorage, StorageState, all_filled_outcome, expand_outcome, fill_outcome, read_error, stored,
    typed_read_outcome, write_outcome, params_error, range_start, range_end,
};
pub use crate::memory_binary_storage::{
    ERR_READ_AFTER_TXN_BOUNDARY, ERR_SET_TXN_BOUNDARY_PAST_END, ERR_WRITE_BEFORE_TXN_BOUNDARY,
};

verus! {

/// The abstract state of a transactional storage: the wrapped storage, the
/// transaction boundary and whether reads are checked against it.
pub struct TxnState {
    pub inner: StorageState,
    pub txn_boundary: nat,
    pub check_on_read: bool,
}

/// A write at `offset` is refused by the boundary.
pub open spec fn write_blocked(t: TxnState, offset: int) -> bool {
    t.inner.open && offset < t.txn_boundary
}

/// A read of `len` bytes at `offset` is refused by the boundary.
pub open spec fn read_blocked(t: TxnState, offset: int, len: int) -> bool {
    t.inner.open && t.check_on_read && offset + len > t.txn_boundary
}

/// The end of a checked read fits in a `u64`.
pub open spec fn read_check_fits(t: TxnState, offset: int, len: int) -> bool {
    t.inner.open && t.check_on_read ==> offset + len <= u64::MAX
}

/// The outcome of a write of `data` at `offset`: refused by the boundary,
/// else as the wrapped storage writes.
pub open spec fn txn_write_outcome(
    t: TxnState,
    offset: int,
    data: Seq<u8>,
    r: Result<(), Error>,
    t2: TxnState,
) -> bool {
    if write_blocked(t, offset) {
        (r matches Err(e) && is_assertion(e, ERR_WRITE_BEFORE_TXN_BOUNDARY@)) && t2 == t
    } else {
        write_outcome(t.inner, offset, data, r, t2.inner) && t2 == (TxnState { inner: t2.inner, ..t })
    }
}

/// The outcome of a read of `len` bytes at `offset` whose stored bytes
/// decode to `value`: refused by the boundary, else as the wrapped storage
/// reads.
pub open spec fn txn_read_outcome<T>(t: TxnState, offset: int, len: int, r: Result<T, Error>, value: T) -> bool {
    if read_blocked(t, offset, len) {
        r matches Err(e) && is_assertion(e, ERR_READ_AFTER_TXN_BOUNDARY@)
    } else {
        typed_read_outcome(t.inner, offset, len, r, value)
    }
}

/// A storage with a transaction boundary of its own.
#[derive(Debug)]
pub struct TransactionalStorage {
    storage: MemoryBinaryStorage,
    txn_boundary: u64,
    check_on_read: bool,
}

impl View for TransactionalStorage {
    type V = TxnState;

    closed spec fn view(&self) -> TxnState {
        TxnState {
            inner: self.storage@,
            txn_boundary: self.txn_boundary as nat,
            check_on_read: self.check_on_read,
        }
    }
}

impl TransactionalStorage {
    /// The internal consistency of the storage: the wrapped one is consistent.
    pub closed spec fn wf(&self) -> bool {
        self.storage.wf()
    }

    /// Facts that every well-formed storage has.
    pub proof fn lemma_wf(&self)
        requires
            self.wf(),
        ensures
            self@.inner.bytes.len() > 0,
            self@.inner.bytes.len() <= usize::MAX,
            self@.inner.expand_size > 0,
    {
        self.storage.lemma_wf();
    }

    /// Wraps `storage`, with the boundary at 0 and reads checked.
    pub fn new(storage: MemoryBinaryStorage) -> (r: TransactionalStorage)
        requires
            storage.wf(),
        ensures
            r.wf(),
            r@ == (TxnState { inner: storage@, txn_boundary: 0, check_on_read: true }),
    {
        TransactionalStorage { storage, txn_boundary: 0, check_on_read: true }
    }

    fn check_boundary_for_read(&self, offset: u64, len: usize) -> (r: Result<(), Error>)
        requires
            read_check_fits(self@, offset as int, len as int),
        ensures
            r is Ok <==> !read_blocked(self@, offset as int, len as int),
            r matches Err(e) ==> is_assertion(e, ERR_READ_AFTER_TXN_BOUNDARY@),
    {
        match AssertionError::assert_true(
            !self.storage.is_open() || !self.check_on_read || offset + (len as u64) <= self.txn_boundary,
            ERR_READ_AFTER_TXN_BOUNDARY,
        ) {
            Ok(()) => Ok(()),
            Err(e) => Err(Error::Assertion(e)),
        }
    }

    fn check_boundary_for_write(&self, offset: u64) -> (r: Result<(), Error>)
        ensures
            r is Ok <==> !write_blocked(self@, offset as int),
            r matches Err(e) ==> is_assertion(e, ERR_WRITE_BEFORE_TXN_BOUNDARY@),
    {
        match AssertionError::assert_true(
            !self.storage.is_open() || offset >= self.txn_boundary,
            ERR_WRITE_BEFORE_TXN_BOUNDARY,
        ) {
            Ok(()) => Ok(()),
            Err(e) => Err(Error::Assertion(e)),
        }
    }

    /// The transaction boundary (only while open).
    pub fn get_txn_boundary(&self) -> (r: Result<u64, Error>)
        ensures
            self@.inner.open ==> r == Ok::<u64, Error>(self@.txn_boundary as u64),
            !self@.inner.open ==> (r matches Err(e) && is_assertion(e, ERR_OPERATION_INVALID_WHEN_CLOSED@)),
    {
        match AssertionError::assert_true(self.is_open(), ERR_OPERATION_INVALID_WHEN_CLOSED) {
            Ok(()) => {},
            Err(e) => return Err(Error::Assertion(e)),
        }
        Ok(self.txn_boundary)
    }

    /// Moves the transaction boundary to `offset`, which must lie within the
    /// storage (only while open).
    pub fn set_txn_boundary(&mut self, offset: u64) -> (r: Result<(), Error>)
        requires
            old(self).wf(),
        ensures
            final(self).wf(),
            !old(self)@.inner.open ==> (r matches Err(e) && is_assertion(e, ERR_OPERATION_INVALID_WHEN_CLOSED@))
                && final(self)@ == old(self)@,
            old(self)@.inner.open && offset > old(self)@.inner.bytes.len() ==> (r matches Err(e) && is_assertion(
                e,
                ERR_SET_TXN_BOUNDARY_PAST_END@,
            )) && final(self)@ == old(self)@,
            old(self)@.inner.open && offset <= old(self)@.inner.bytes.len() ==> r is Ok && final(self)@ == (TxnState {
                txn_boundary: offset as nat,
                ..old(self)@
            }),
    {
        match AssertionError::assert_true(self.is_open(), ERR_OPERATION_INVALID_WHEN_CLOSED) {
            Ok(()) => {},
            Err(e) => return Err(Error::Assertion(e)),
        }
        proof {
            self.storage.lemma_wf();
        }
        let capacity = match self.storage.get_capacity() {
            Ok(c) => c,
            Err(e) => return Err(e),
        };
        match AssertionError::assert_true(offset <= capacity, ERR_SET_TXN_BOUNDARY_PAST_END) {
            Ok(()) => {},
            Err(e) => return Err(Error::Assertion(e)),
        }
        self.txn_boundary = offset;
        Ok(())
    }

    /// Whether reads are checked against the boundary (only while open).
    pub fn get_check_on_read(&self) -> (r: Result<bool, Error>)
        ensures
            self@.inner.open ==> r == Ok::<bool, Error>(self@.check_on_read),
            !self@.inner.open ==> (r matches Err(e) && is_assertion(e, ERR_OPERATION_INVALID_WHEN_CLOSED@)),
    {
        match AssertionError::assert_true(self.is_open(), ERR_OPERATION_INVALID_WHEN_CLOSED) {
            Ok(()) => {},
            Err(e) => return Err(Error::Assertion(e)),
        }
        Ok(self.check_on_read)
    }

    /// Turns the checking of reads against the boundary on or off (only
    /// while open).
    pub fn set_check_on_read(&mut self, check_on_read: bool) -> (r: Result<(), Error>)
        requires
            old(self).wf(),
        ensures
            final(self).wf(),
            !old(self)@.inner.open ==> (r matches Err(e) && is_assertion(e, ERR_OPERATION_INVALID_WHEN_CLOSED@))
                && final(self)@ == old(self)@,
            old(self)@.inner.open ==> r is Ok && final(self)@ == (TxnState { check_on_read, ..old(self)@ }),
    {
        match AssertionError::assert_true(self.is_open(), ERR_OPERATION_INVALID_WHEN_CLOSED) {
            Ok(()) => {},
            Err(e) => return Err(Error::Assertion(e)),
        }
        self.check_on_read = check_on_read;
        Ok(())
    }

    /// Opens the wrapped storage.
    pub fn open(&mut self) -> (r: Result<(), Error>)
        requires
            old(self).wf(),
        ensures
            final(self).wf(),
            old(self)@.inner.open ==> (r matches Err(e) && is_assertion(
                e,
                crate::binary_storage::ERR_OPERATION_INVALID_WHEN_OPEN@,
            )) && final(self)@ == old(self)@,
            !old(self)@.inner.open ==> r is Ok && final(self)@ == (TxnState {
                inner: StorageState { open: true, ..old(self)@.inner },
                ..old(self)@
            }),
    {
        self.storage.open()
    }

    /// Closes the wrapped storage.
    pub fn close(&mut self) -> (r: Result<(), Error>)
        requires
            old(self).wf(),
        ensures
            final(self).wf(),
            !old(self)@.inner.open ==> (r matches Err(e) && is_assertion(e, ERR_OPERATION_INVALID_WHEN_CLOSED@))
                && final(self)@ == old(self)@,
            old(self)@.inner.open ==> r is Ok && final(self)@ == (TxnState {
                inner: StorageState { open: false, ..old(self)@.inner },
                ..old(self)@
            }),
    {
        self.storage.close()
    }

    /// Whether the wrapped storage is open.
    pub fn is_open(&self) -> (r: bool)
        ensures
            r == self@.inner.open,
    {
        self.storage.is_open()
    }

    /// Writes an `i8` at `offset`, which must not lie before the
    /// transaction boundary while the storage is open.
    pub fn w_i8(&mut self, offset: u64, data: i8) -> (r: Result<(), Error>)
        requires
            old(self).wf(),
        ensures
            final(self).wf(),
            txn_write_outcome(old(self)@, offset as int, seq![data as u8], r, final(self)@),
    {
        match self.check_boundary_for_write(offset) {
            Ok(()) => {},
            Err(e) => return Err(e),
        }
        self.storage.w_i8(offset, data)
    }

    /// Writes a little-endian `i16` at `offset`, which must not lie before the
    /// transaction boundary while the storage is open.
    pub fn w_i16(&mut self, offset: u64, data: i16) -> (r: Result<(), Error>)
        requires
            old(self).wf(),
        ensures
            final(self).wf(),
            txn_write_outcome(old(self)@, offset as int, spec_u16_to_le_bytes(data as u16), r, final(self)@),
    {
        match self.check_boundary_for_write(offset) {
            Ok(()) => {},
            Err(e) => return Err(e),
        }
        self.storage.w_i16(offset, data)
    }

    /// Writes a little-endian `i32` at `offset`, which must not lie before the
    /// transaction boundary while the storage is open.
    pub fn w_i32(&mut self, offset: u64, data: i32) -> (r: Result<(), Error>)
        requires
            old(self).wf(),
        ensures
            final(self).wf(),
            txn_write_outcome(old(self)@, offset as int, spec_u32_to_le_bytes(data as u32), r, final(self)@),
    {
        match self.check_boundary_for_write(offset) {
            Ok(()) => {},
            Err(e) => return Err(e),
        }
        self.storage.w_i32(offset, data)
    }

    /// Writes a little-endian `i64` at `offset`, which must not lie before the
    /// transaction boundary while the storage is open.
    pub fn w_i64(&mut self, offset: u64, data: i64) -> (r: Result<(), Error>)
        requires
            old(self).wf(),
        ensures
            final(self).wf(),
            txn_write_outcome(old(self)@, offset as int, spec_u64_to_le_bytes(data as u64), r, final(self)@),
    {
        match self.check_boundary_for_write(offset) {
            Ok(()) => {},
            Err(e) => return Err(e),
        }
        self.storage.w_i64(offset, data)
    }

    /// Writes a `u8` at `offset`, which must not lie before the
    /// transaction boundary while the storage is open.
    pub fn w_u8(&mut self, offset: u64, data: u8) -> (r: Result<(), Error>)
        requires
            old(self).wf(),
        ensures
            final(self).wf(),
            txn_write_outcome(old(self)@, offset as int, seq![data], r, final(self)@),
    {
        match self.check_boundary_for_write(offset) {
            Ok(()) => {},
            Err(e) => return Err(e),
        }
        self.storage.w_u8(offset, data)
    }

    /// Writes a little-endian `u16` at `offset`, which must not lie before the
    /// transaction boundary while the storage is open.
    pub fn w_u16(&mut self, offset: u64, data: u16) -> (r: Result<(), Error>)
        requires
            old(self).wf(),
        ensures
            final(self).wf(),
            txn_write_outcome(old(self)@, offset as int, spec_u16_to_le_bytes(data), r, final(self)@),
    {
        match self.check_boundary_for_write(offset) {
            Ok(()) => {},
            Err(e) => return Err(e),
        }
        self.storage.w_u16(offset, data)
    }

    /// Writes a little-endian `u32` at `offset`, which must not lie before the
    /// transaction boundary while the storage is open.
    pub fn w_u32(&mut self, offset: u64, data: u32) -> (r: Result<(), Error>)
        requires
            old(self).wf(),
        ensures
            final(self).wf(),
            txn_write_outcome(old(self)@, offset as int, spec_u32_to_le_bytes(data), r, final(self)@),
    {
        match self.check_boundary_for_write(offset) {
            Ok(()) => {},
            Err(e) => return Err(e),
        }
        self.storage.w_u32(offset, data)
    }

    /// Writes a little-endian `u64` at `offset`, which must not lie before the
    /// transaction boundary while the storage is open.
    pub fn w_u64(&mut self, offset: u64, data: u64) -> (r: Result<(), Error>)
        requires
            old(self).wf(),
        ensures
            final(self).wf(),
            txn_write_outcome(old(self)@, offset as int, spec_u64_to_le_bytes(data), r, final(self)@),
    {
        match self.check_boundary_for_write(offset) {
            Ok(()) => {},
            Err(e) => return Err(e),
        }
        self.storage.w_u64(offset, data)
    }

    /// Writes a `bool` at `offset`, which must not lie before the
    /// transaction boundary while the storage is open.
    pub fn w_bool(&mut self, offset: u64, data: bool) -> (r: Result<(), Error>)
        requires
            old(self).wf(),
        ensures
            final(self).wf(),
            txn_write_outcome(old(self)@, offset as int, seq![if data { 1u8 } else { 0u8 }], r, final(self)@),
    {
        match self.check_boundary_for_write(offset) {
            Ok(()) => {},
            Err(e) => return Err(e),
        }
        self.storage.w_bool(offset, data)
    }

    /// Writes bytes at `offset`, which must not lie before the
    /// transaction boundary while the storage is open.
    pub fn w_bytes(&mut self, offset: u64, data: &[u8]) -> (r: Result<(), Error>)
        requires
            old(self).wf(),
        ensures
            final(self).wf(),
            txn_write_outcome(old(self)@, offset as int, data@, r, final(self)@),
    {
        match self.check_boundary_for_write(offset) {
            Ok(()) => {},
            Err(e) => return Err(e),
        }
        self.storage.w_bytes(offset, data)
    }

    /// Writes text as UTF-8 at `offset`, which must not lie before the
    /// transaction boundary while the storage is open.
    pub fn w_str(&mut self, offset: u64, data: &str) -> (r: Result<(), Error>)
        requires
            old(self).wf(),
        ensures
            final(self).wf(),
            txn_write_outcome(old(self)@, offset as int, data.spec_bytes(), r, final(self)@),
    {
        match self.check_boundary_for_write(offset) {
            Ok(()) => {},
            Err(e) => return Err(e),
        }
        self.storage.w_str(offset, data)
    }

    /// Reads an `i8` at `offset`; while the storage is open and reads are
    /// checked, the value must end at or before the transaction boundary.
    pub fn r_i8(&self, offset: u64) -> (r: Result<i8, Error>)
        requires
            self.wf(),
            read_check_fits(self@, offset as int, 1),
        ensures
            ({
                let s = self@.inner;
                txn_read_outcome(self@, offset as int, 1, r, stored(s, offset as int, 1)[0] as i8)
            }),
    {
        match self.check_boundary_for_read(offset, 1) {
            Ok(()) => {},
            Err(e) => return Err(e),
        }
        self.storage.r_i8(offset)
    }

    /// Reads a little-endian `i16` at `offset`; while the storage is open and reads are
    /// checked, the value must end at or before the transaction boundary.
    pub fn r_i16(&self, offset: u64) -> (r: Result<i16, Error>)
        requires
            self.wf(),
            read_check_fits(self@, offset as int, 2),
        ensures
            ({
                let s = self@.inner;
                txn_read_outcome(self@, offset as int, 2, r, spec_u16_from_le_bytes(stored(s, offset as int, 2)) as i16)
            }),
    {
        match self.check_boundary_for_read(offset, 2) {
            Ok(()) => {},
            Err(e) => return Err(e),
        }
        self.storage.r_i16(offset)
    }

    /// Reads a little-endian `i32` at `offset`; while the storage is open and reads are
    /// checked, the value must end at or before the transaction boundary.
    pub fn r_i32(&self, offset: u64) -> (r: Result<i32, Error>)
        requires
            self.wf(),
            read_check_fits(self@, offset as int, 4),
        ensures
            ({
                let s = self@.inner;
                txn_read_outcome(self@, offset as int, 4, r, spec_u32_from_le_bytes(stored(s, offset as int, 4)) as i32)
            }),
    {
        match self.check_boundary_for_read(offset, 4) {
            Ok(()) => {},
            Err(e) => return Err(e),
        }
        self.storage.r_i32(offset)
    }

    /// Reads a little-endian `i64` at `offset`; while the storage is open and reads are
    /// checked, the value must end at or before the transaction boundary.
    pub fn r_i64(&self, offset: u64) -> (r: Result<i64, Error>)
        requires
            self.wf(),
            read_check_fits(self@, offset as int, 8),
        ensures
            ({
                let s = self@.inner;
                txn_read_outcome(self@, offset as int, 8, r, spec_u64_from_le_bytes(stored(s, offset as int, 8)) as i64)
            }),
    {
        match self.check_boundary_for_read(offset, 8) {
            Ok(()) => {},
            Err(e) => return Err(e),
        }
        self.storage.r_i64(offset)
    }

    /// Reads a `u8` at `offset`; while the storage is open and reads are
    /// checked, the value must end at or before the transaction boundary.
    pub fn r_u8(&self, offset: u64) -> (r: Result<u8, Error>)
        requires
            self.wf(),
            read_check_fits(self@, offset as int, 1),
        ensures
            ({
                let s = self@.inner;
                txn_read_outcome(self@, offset as int, 1, r, stored(s, offset as int, 1)[0])
            }),
    {
        match self.check_boundary_for_read(offset, 1) {
            Ok(()) => {},
            Err(e) => return Err(e),
        }
        self.storage.r_u8(offset)
    }

    /// Reads a little-endian `u16` at `offset`; while the storage is open and reads are
    /// checked, the value must end at or before the transaction boundary.
    pub fn r_u16(&self, offset: u64) -> (r: Result<u16, Error>)
        requires
            self.wf(),
            read_check_fits(self@, offset as int, 2),
        ensures
            ({
                let s = self@.inner;
                txn_read_outcome(self@, offset as int, 2, r, spec_u16_from_le_bytes(stored(s, offset as int, 2)))
            }),
    {
        match self.check_boundary_for_read(offset, 2) {
            Ok(()) => {},
            Err(e) => return Err(e),
        }
        self.storage.r_u16(offset)
    }

    /// Reads a little-endian `u32` at `offset`; while the storage is open and reads are
    /// checked, the value must end at or before the transaction boundary.
    pub fn r_u32(&self, offset: u64) -> (r: Result<u32, Error>)
        requires
            self.wf(),
            read_check_fits(self@, offset as int, 4),
        ensures
            ({
                let s = self@.inner;
                txn_read_outcome(self@, offset as int, 4, r, spec_u32_from_le_bytes(stored(s, offset as int, 4)))
            }),
    {
        match self.check_boundary_for_read(offset, 4) {
            Ok(()) => {},
            Err(e) => return Err(e),
        }
        self.storage.r_u32(offset)
    }

    /// Reads a little-endian `u64` at `offset`; while the storage is open and reads are
    /// checked, the value must end at or before the transaction boundary.
    pub fn r_u64(&self, offset: u64) -> (r: Result<u64, Error>)
        requires
            self.wf(),
            read_check_fits(self@, offset as int, 8),
        ensures
            ({
                let s = self@.inner;
                txn_read_outcome(self@, offset as int, 8, r, spec_u64_from_le_bytes(stored(s, offset as int, 8)))
            }),
    {
        match self.check_boundary_for_read(offset, 8) {
            Ok(()) => {},
            Err(e) => return Err(e),
        }
        self.storage.r_u64(offset)
    }

    /// Reads a `bool` at `offset`; while the storage is open and reads are
    /// checked, the value must end at or before the transaction boundary.
    pub fn r_bool(&self, offset: u64) -> (r: Result<bool, Error>)
        requires
            self.wf(),
            read_check_fits(self@, offset as int, 1),
        ensures
            ({
                let s = self@.inner;
                txn_read_outcome(self@, offset as int, 1, r, stored(s, offset as int, 1)[0] != 0)
            }),
    {
        match self.check_boundary_for_read(offset, 1) {
            Ok(()) => {},
            Err(e) => return Err(e),
        }
        self.storage.r_bool(offset)
    }

    /// Reads `len` bytes at `offset`; while the storage is open and reads
    /// are checked, they must end at or before the transaction boundary.
    pub fn r_bytes(&self, offset: u64, len: usize) -> (r: Result<Vec<u8>, Error>)
        requires
            self.wf(),
            read_check_fits(self@, offset as int, len as int),
        ensures
            read_blocked(self@, offset as int, len as int) ==> (r matches Err(e) && is_assertion(
                e,
                ERR_READ_AFTER_TXN_BOUNDARY@,
            )),
            !read_blocked(self@, offset as int, len as int) ==> match read_error(
                self@.inner,
                offset as int,
                len as int,
            ) {
                Some(msg) => r matches Err(e) && is_assertion(e, msg),
                None => r matches Ok(v) && v@ == stored(self@.inner, offset as int, len as int),
            },
    {
        match self.check_boundary_for_read(offset, len) {
            Ok(()) => {},
            Err(e) => return Err(e),
        }
        self.storage.r_bytes(offset, len)
    }

    /// Reads `len` bytes at `offset` as UTF-8 text; while the storage is
    /// open and reads are checked, they must end at or before the
    /// transaction boundary.
    pub fn r_str(&self, offset: u64, len: usize) -> (r: Result<String, Error>)
        requires
            self.wf(),
            read_check_fits(self@, offset as int, len as int),
        ensures
            read_blocked(self@, offset as int, len as int) ==> (r matches Err(e) && is_assertion(
                e,
                ERR_READ_AFTER_TXN_BOUNDARY@,
            )),
            !read_blocked(self@, offset as int, len as int) ==> match read_error(
                self@.inner,
                offset as int,
                len as int,
            ) {
                Some(msg) => r matches Err(e) && is_assertion(e, msg),
                None => {
                    let b = stored(self@.inner, offset as int, len as int);
                    if valid_utf8(b) {
                        r matches Ok(t) && t@ == decode_utf8(b)
                    } else {
                        r matches Err(Error::Utf8)
                    }
                },
            },
    {
        match self.check_boundary_for_read(offset, len) {
            Ok(()) => {},
            Err(e) => return Err(e),
        }
        self.storage.r_str(offset, len)
    }

    /// Sets every byte in `[start, end)` to `val` (an absent bound stands for
    /// the start or the end of the storage); neither bound may lie before the
    /// transaction boundary while the storage is open.
    pub fn fill(&mut self, start: Option<u64>, end: Option<u64>, val: u8) -> (r: Result<(), Error>)
        requires
            old(self).wf(),
        ensures
            final(self).wf(),
            ({
                let t = old(self)@;
                if write_blocked(t, range_start(start)) || write_blocked(t, range_end(t.inner, end)) {
                    (r matches Err(e) && is_assertion(e, ERR_WRITE_BEFORE_TXN_BOUNDARY@)) && final(self)@ == t
                } else {
                    fill_outcome(t.inner, start, end, val, r, final(self)@.inner) && final(self)@ == (TxnState {
                        inner: final(self)@.inner,
                        ..t
                    })
                }
            }),
    {
        proof {
            self.storage.lemma_wf();
        }
        let lo: u64 = match start {
            None => 0,
            Some(s) => s,
        };
        match self.check_boundary_for_write(lo) {
            Ok(()) => {},
            Err(e) => return Err(e),
        }
        let hi: u64 = match end {
            None => match self.storage.get_capacity() {
                Ok(c) => c,
                Err(e) => {
                    proof {
                        self.storage.lemma_wf();
                    }
                    return Err(e);
                },
            },
            Some(e) => e,
        };
        match self.check_boundary_for_write(hi) {
            Ok(()) => {},
            Err(e) => return Err(e),
        }
        self.storage.fill(start, end, val)
    }

    /// Whether every byte in `[start, end)` equals `val`, as the wrapped
    /// storage tells.
    pub fn is_filled(&self, start: Option<u64>, end: Option<u64>, val: u8) -> (r: Result<bool, Error>)
        requires
            self.wf(),
        ensures
            all_filled_outcome(self@.inner, start, end, val, r),
    {
        self.storage.is_filled(start, end, val)
    }

    /// The expansion size of the wrapped storage.
    pub fn get_expand_size(&self) -> (r: u64)
        ensures
            r == self@.inner.expand_size,
    {
        self.storage.get_expand_size()
    }

    /// Sets the expansion size of the wrapped storage.
    pub fn set_expand_size(&mut self, expand_size: u64) -> (r: Result<(), Error>)
        requires
            old(self).wf(),
        ensures
            final(self).wf(),
            match params_error(expand_size as int, old(self)@.inner.bytes.len() as int) {
                Some(msg) => r matches Err(e) && is_assertion(e, msg) && final(self)@ == old(self)@,
                None => r is Ok && final(self)@ == (TxnState {
                    inner: StorageState { expand_size: expand_size as nat, ..old(self)@.inner },
                    ..old(self)@
                }),
            },
    {
        self.storage.set_expand_size(expand_size)
    }

    /// The capacity of the wrapped storage (only while open).
    pub fn get_capacity(&self) -> (r: Result<u64, Error>)
        requires
            self.wf(),
        ensures
            self@.inner.open ==> r == Ok::<u64, Error>(self@.inner.bytes.len() as u64),
            !self@.inner.open ==> (r matches Err(e) && is_assertion(e, ERR_OPERATION_INVALID_WHEN_CLOSED@)),
    {
        self.storage.get_capacity()
    }

    /// Grows the wrapped storage to hold `min_capacity` bytes.
    pub fn expand(&mut self, min_capacity: u64) -> (r: Result<(), Error>)
        requires
            old(self).wf(),
        ensures
            final(self).wf(),
            expand_outcome(old(self)@.inner, min_capacity as int, r, final(self)@.inner),
            final(self)@ == (TxnState { inner: final(self)@.inner, ..old(self)@ }),
    {
        self.storage.expand(min_capacity)
    }
}

} // verus!

verus! {

/// What a read of `len` bytes at `offset` gives: the message of the error it
/// reports, or the bytes stored there.
pub open spec fn txn_read(t: TxnState, offset: int, len: int) -> Result<Seq<u8>, Seq<char>> {
    if read_blocked(t, offset, len) {
        Err(ERR_READ_AFTER_TXN_BOUNDARY@)
    } else {
        match read_error(t.inner, offset, len) {
            Some(msg) => Err(msg),
            None => Ok(stored(t.inner, offset, len)),
        }
    }
}

/// What a write of `len` bytes at `offset` reports before any memory is
/// allocated, if anything.
pub open spec fn txn_write_error(t: TxnState, offset: int, len: int) -> Option<Seq<char>> {
    if write_blocked(t, offset) {
        Some(ERR_WRITE_BEFORE_TXN_BOUNDARY@)
    } else {
        crate::memory_binary_storage::write_error(t.inner, offset, len)
    }
}

} // verus!
