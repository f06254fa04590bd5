//! A journal of checksummed records kept in a transactional storage.
//!
//! A record is a start marker (the `u16` 514), the length of its data as a
//! `u32`, the data, the exclusive-or of the data bytes, and an end marker
//! (the `u16` 771), all little-endian. Committing a record moves the
//! storage's transaction boundary past it, so that committed records cannot
//! be written over and uncommitted ones cannot be read.
use vstd::prelude::*;
use vstd::bytes::*;
use crate::binary_storage::{ERR_ARITHMETIC_OVERFLOW, ERR_STORAGE_ALLOC};
use crate::error::{AssertionError, Error, is_assertion};
use crate::memory_binary_storage::{
    StorageState, lemma_part_needs_growth, lemma_write_never_shrinks, needs_growth, state_after_write, stored,
};
use crate::transactional_storage::{
    TransactionalStorage, TxnState, txn_read, txn_write_error, write_blocked,
};
use crate::util::{round_up, xor_checksum, xor_of};

verus! {

pub const ERR_WRITE_IN_PROGRESS: &'static str =
    "Cannot perform this operation while an uncommitted write is in progress";
pub const ERR_WRITE_NOT_IN_PROGRESS: &'static str = "Cannot perform this operation when no write is in progress";
pub const ERR_NOTHING_TO_WRITE: &'static str = "Cannot write 0 bytes";
pub const ERR_NO_COMMITTED_RECORD: &'static str = "Location is not the start of a committed record";
pub const ERR_NO_RECORD_DATA: &'static str = "Record contains no data";
pub const ERR_CHECKSUM_MISMATCH: &'static str = "Checksum mismatch, record data may be corrupted";

/// The bytes before a record's data: the start marker and the length.
pub const PRE_DATA_LEN: u64 = 6;

/// The bytes after a record's data: the checksum and the end marker.
pub const POST_DATA_LEN: u64 = 3;

/// The start marker of a record.
pub const START_MARK: u16 = 514;

/// The end marker of a committed record.
pub const END_MARK: u16 = 771;

/// The largest offset a record can be looked for at: the offsets computed
/// from it, past a length field of up to `u32::MAX`, stay within `u64`.
pub const MAX_RECORD_OFFSET: u64 = 0xFFFF_FFFE_0000_0000;

/// The abstract state of a journal.
pub struct JState {
    pub storage: TxnState,
    pub read_offset: nat,
    pub write_offset: nat,
    pub writing: bool,
    pub uncommitted: nat,
    pub record_count: nat,
}

/// The little-endian value of two bytes.
pub open spec fn le16(b: Seq<u8>) -> u16 {
    spec_u16_from_le_bytes(b)
}

/// The little-endian value of four bytes.
pub open spec fn le32(b: Seq<u8>) -> u32 {
    spec_u32_from_le_bytes(b)
}

/// Whether a start marker stands at `ro`, or the message of the error that
/// looking reports.
pub open spec fn start_at(t: TxnState, ro: int) -> Result<bool, Seq<char>> {
    match txn_read(t, ro, 2) {
        Ok(b) => Ok(le16(b) == START_MARK),
        Err(m) => Err(m),
    }
}

/// Whether an end marker stands where the length at `ro + 2` puts it, or
/// the message of the error that looking reports.
pub open spec fn end_at(t: TxnState, ro: int) -> Result<bool, Seq<char>> {
    match txn_read(t, ro + 2, 4) {
        Err(m) => Err(m),
        Ok(lb) => match txn_read(t, ro + PRE_DATA_LEN + le32(lb) + 1, 2) {
            Err(m) => Err(m),
            Ok(eb) => Ok(le16(eb) == END_MARK),
        },
    }
}

/// The data of the record at `ro`, checked against its checksum, or the
/// message of the error that reading it reports.
pub open spec fn record_at(t: TxnState, ro: int) -> Result<Seq<u8>, Seq<char>> {
    match txn_read(t, ro + 2, 4) {
        Err(m) => Err(m),
        Ok(lb) => {
            let len = le32(lb) as int;
            if len == 0 {
                Err(ERR_NO_RECORD_DATA@)
            } else if len + 1 > usize::MAX {
                Err(ERR_ARITHMETIC_OVERFLOW@)
            } else {
                match txn_read(t, ro + PRE_DATA_LEN, len + 1) {
                    Err(m) => Err(m),
                    Ok(b) => if b.last() == xor_of(b.drop_last()) {
                        Ok(b.drop_last())
                    } else {
                        Err(ERR_CHECKSUM_MISMATCH@)
                    },
                }
            }
        },
    }
}

/// A `bool` result as the spec `s` describes it.
pub open spec fn bool_result(r: Result<bool, Error>, s: Result<bool, Seq<char>>) -> bool {
    match s {
        Ok(v) => r == Ok::<bool, Error>(v),
        Err(m) => r matches Err(e) && is_assertion(e, m),
    }
}

/// A bytes result as the spec `s` describes it.
pub open spec fn bytes_result(r: Result<Vec<u8>, Error>, s: Result<Seq<u8>, Seq<char>>) -> bool {
    match s {
        Ok(v) => r matches Ok(w) && w@ == v,
        Err(m) => r matches Err(e) && is_assertion(e, m),
    }
}

/// The outcome of moving to `offset`: whether a committed record starts
/// there (both markers in place), or the error looking reports.
pub open spec fn jump_result(t: TxnState, offset: int) -> Result<bool, Seq<char>> {
    match start_at(t, offset) {
        Err(m) => Err(m),
        Ok(false) => Ok(false),
        Ok(true) => end_at(t, offset),
    }
}

/// What the record iteration finds at `ro`: the record's data and where the
/// next record starts, or nothing. An end marker is looked for even when no
/// start marker stands at `ro`, and only it decides once the start marker
/// could be looked for; a record that cannot be read ends the iteration.
pub open spec fn next_step(t: TxnState, ro: int) -> Option<(Seq<u8>, int)> {
    if start_at(t, ro) is Err {
        None
    } else {
        match end_at(t, ro) {
            Ok(true) => match record_at(t, ro) {
                Ok(v) => Some((v, ro + PRE_DATA_LEN + v.len() + POST_DATA_LEN)),
                Err(_) => None,
            },
            _ => None,
        }
    }
}

/// A step of the iteration moves forward and stays within the storage.
pub proof fn lemma_next_step_advances(t: TxnState, ro: int)
    requires
        0 <= ro,
        next_step(t, ro) is Some,
    ensures
        ro < next_step(t, ro).unwrap().1 <= t.inner.bytes.len(),
{
}

/// The data of the records that the iteration finds from `ro` on.
pub open spec fn records_found(t: TxnState, ro: int) -> Seq<Seq<u8>>
    decreases t.inner.bytes.len() - ro,
{
    if 0 <= ro {
        match next_step(t, ro) {
            Some((v, next)) => {
                proof {
                    lemma_next_step_advances(t, ro);
                }
                seq![v] + records_found(t, next)
            },
            None => Seq::empty(),
        }
    } else {
        Seq::empty()
    }
}

/// Where the iteration from `ro` stops.
pub open spec fn iteration_end(t: TxnState, ro: int) -> int
    decreases t.inner.bytes.len() - ro,
{
    if 0 <= ro {
        match next_step(t, ro) {
            Some((v, next)) => {
                proof {
                    lemma_next_step_advances(t, ro);
                }
                iteration_end(t, next)
            },
            None => ro,
        }
    } else {
        ro
    }
}

/// The bytes of a record holding `data`, up to its end marker.
pub open spec fn journal_record(data: Seq<u8>) -> Seq<u8> {
    spec_u16_to_le_bytes(START_MARK) + spec_u32_to_le_bytes(data.len() as u32) + data + seq![xor_of(data)]
}

/// The storage after the first `k` parts of the record holding `data` are
/// written at `wo`: the start marker, the length, then the data.
pub open spec fn record_parts_written(s: StorageState, wo: int, data: Seq<u8>, k: int) -> StorageState {
    let s1 = state_after_write(s, wo, spec_u16_to_le_bytes(START_MARK));
    let s2 = state_after_write(s1, wo + 2, spec_u32_to_le_bytes(data.len() as u32));
    let s3 = state_after_write(s2, wo + PRE_DATA_LEN, data);
    if k <= 0 {
        s
    } else if k == 1 {
        s1
    } else if k == 2 {
        s2
    } else {
        s3
    }
}

/// The transaction boundary after it is moved back to `at` over the wrapped
/// storage `inner`: moved when the storage is open and holds `at` bytes,
/// else unchanged.
pub open spec fn discarded_boundary(t: TxnState, inner: StorageState, at: int) -> nat {
    if inner.open && at <= inner.bytes.len() {
        at as nat
    } else {
        t.txn_boundary
    }
}

/// A result without a value as the spec `s` describes it.
pub open spec fn unit_result(r: Result<(), Error>, s: Result<(), Seq<char>>) -> bool {
    match s {
        Ok(_) => r is Ok,
        Err(m) => r matches Err(e) && is_assertion(e, m),
    }
}

/// The error of a failed write of `len` bytes at `wo`, made in parts of
/// which the first is `first` bytes long: the error its checks report; or an
/// allocation failure, which comes only where the write needs the storage
/// to grow and its first part passes its checks.
pub open spec fn write_failure(t: TxnState, wo: int, first: int, len: int, e: Error) -> bool {
    let alloc = {
        &&& is_assertion(e, ERR_STORAGE_ALLOC@)
        &&& needs_growth(t.inner, wo + len)
        &&& txn_write_error(t, wo, first) is None
    };
    match txn_write_error(t, wo, len) {
        None => alloc,
        Some(m) => is_assertion(e, m) || alloc,
    }
}

/// The outcome of writing `data` as a new record.
pub open spec fn journal_write_outcome(j: JState, data: Seq<u8>, r: Result<(), Error>, j2: JState) -> bool {
    if j.writing {
        (r matches Err(e) && is_assertion(e, ERR_WRITE_IN_PROGRESS@)) && j2 == j
    } else if data.len() == 0 {
        (r matches Err(e) && is_assertion(e, ERR_NOTHING_TO_WRITE@)) && j2 == j
    } else {
        let rec = journal_record(data);
        let wo = j.write_offset as int;
        match r {
            Ok(_) => txn_write_error(j.storage, wo, rec.len() as int) is None && j2 == JState {
                storage: TxnState { inner: state_after_write(j.storage.inner, wo, rec), ..j.storage },
                write_offset: (wo + rec.len()) as nat,
                writing: true,
                uncommitted: rec.len(),
                ..j
            },
            Err(e) => {
                &&& write_failure(j.storage, wo, 2, rec.len() as int, e)
                &&& exists|k: int|
                    0 <= k < 4 && #[trigger] record_parts_written(j.storage.inner, wo, data, k) == j2.storage.inner
                &&& j2 == JState {
                    storage: TxnState {
                        inner: j2.storage.inner,
                        txn_boundary: discarded_boundary(j.storage, j2.storage.inner, wo),
                        ..j.storage
                    },
                    ..j
                }
            },
        }
    }
}

/// The journal after the uncommitted record is discarded.
pub open spec fn journal_after_discard(j: JState) -> JState {
    JState {
        storage: TxnState {
            txn_boundary: discarded_boundary(j.storage, j.storage.inner, j.write_offset - j.uncommitted),
            ..j.storage
        },
        write_offset: (j.write_offset - j.uncommitted) as nat,
        uncommitted: 0,
        writing: false,
        ..j
    }
}

/// The outcome of committing the uncommitted record: its end marker is
/// written and the transaction boundary moves past it, or (when the marker
/// cannot be written) the record is discarded.
pub open spec fn journal_commit_outcome(j: JState, r: Result<(), Error>, j2: JState) -> bool {
    if !j.writing {
        (r matches Err(e) && is_assertion(e, ERR_WRITE_NOT_IN_PROGRESS@)) && j2 == j
    } else {
        let wo = j.write_offset as int;
        match r {
            Ok(_) => txn_write_error(j.storage, wo, 2) is None && j2 == JState {
                storage: TxnState {
                    inner: state_after_write(j.storage.inner, wo, spec_u16_to_le_bytes(END_MARK)),
                    txn_boundary: (wo + 2) as nat,
                    ..j.storage
                },
                write_offset: (wo + 2) as nat,
                uncommitted: 0,
                writing: false,
                record_count: j.record_count + 1,
                ..j
            },
            Err(e) => write_failure(j.storage, wo, 2, 2, e) && j2 == journal_after_discard(j),
        }
    }
}

/// The outcome of checking the records when the journal opens: the records
/// that the iteration finds from the start (with reads not held to the
/// transaction boundary) are counted, and a record started after them
/// becomes the uncommitted record; the error of that check, if any, is
/// reported, and the read offset is left where the records end.
pub open spec fn verify_result(j: JState) -> (Result<(), Seq<char>>, JState) {
    let t0 = j.storage;
    let t1 = if t0.inner.open { TxnState { check_on_read: false, ..t0 } } else { t0 };
    let t2 = if t0.inner.open { TxnState { check_on_read: true, ..t0 } } else { t0 };
    let end = iteration_end(t1, 0);
    let base = JState {
        storage: t2,
        read_offset: end as nat,
        record_count: records_found(t1, 0).len(),
        ..j
    };
    match start_at(t1, end) {
        Err(m) => (Err(m), base),
        Ok(false) => (Ok(()), JState { read_offset: 0, ..base }),
        Ok(true) => match record_at(t1, end) {
            Err(m) => (Err(m), base),
            Ok(d) => (
                Ok(()),
                JState {
                    read_offset: 0,
                    write_offset: (end + PRE_DATA_LEN + d.len() + 1) as nat,
                    writing: true,
                    ..base
                },
            ),
        },
    }
}

/// Writing the record parts one after the other writes the whole record.
proof fn lemma_record_parts(s: StorageState, wo: int, data: Seq<u8>)
    requires
        s.expand_size > 0,
        0 <= wo,
    ensures
        state_after_write(record_parts_written(s, wo, data, 3), wo + PRE_DATA_LEN + data.len(), seq![xor_of(data)])
            == state_after_write(s, wo, journal_record(data)),
{
    lemma_auto_spec_u16_to_from_le_bytes();
    lemma_auto_spec_u32_to_from_le_bytes();
    let p1 = spec_u16_to_le_bytes(START_MARK);
    let p2 = spec_u32_to_le_bytes(data.len() as u32);
    let x = seq![xor_of(data)];
    crate::memory_binary_storage::lemma_write_concat(s, wo, p1, p2);
    crate::memory_binary_storage::lemma_write_concat(s, wo, p1 + p2, data);
    crate::memory_binary_storage::lemma_write_concat(s, wo, p1 + p2 + data, x);
    assert(p1 + p2 + data + x =~= journal_record(data));
}


/// Writing the first parts of a record never shrinks the storage and keeps
/// its expansion size.
proof fn lemma_parts_never_shrink(s: StorageState, wo: int, data: Seq<u8>, k: int)
    requires
        s.expand_size > 0,
        0 <= wo,
    ensures
        record_parts_written(s, wo, data, k).bytes.len() >= s.bytes.len(),
        record_parts_written(s, wo, data, k).expand_size == s.expand_size,
{
    let s1 = state_after_write(s, wo, spec_u16_to_le_bytes(START_MARK));
    let s2 = state_after_write(s1, wo + 2, spec_u32_to_le_bytes(data.len() as u32));
    lemma_write_never_shrinks(s, wo, spec_u16_to_le_bytes(START_MARK));
    lemma_write_never_shrinks(s1, wo + 2, spec_u32_to_le_bytes(data.len() as u32));
    lemma_write_never_shrinks(s2, wo + PRE_DATA_LEN, data);
}

/// A journal of records in a transactional storage.
pub struct Journal {
    storage: TransactionalStorage,
    read_offset: u64,
    write_offset: u64,
    is_writing: bool,
    uncommitted_size: u64,
    record_count: u64,
}

impl View for Journal {
    type V = JState;

    closed spec fn view(&self) -> JState {
        JState {
            storage: self.storage@,
            read_offset: self.read_offset as nat,
            write_offset: self.write_offset as nat,
            writing: self.is_writing,
            uncommitted: self.uncommitted_size as nat,
            record_count: self.record_count as nat,
        }
    }
}

impl Journal {
    /// The internal consistency of a journal: its storage is consistent,
    /// nothing is uncommitted while no record is being written, and the read
    /// offset is one that records can be looked for at.
    pub closed spec fn wf(&self) -> bool {
        &&& self.storage.wf()
        &&& !self.is_writing ==> self.uncommitted_size == 0
        &&& self.read_offset <= MAX_RECORD_OFFSET
    }

    /// Facts that every well-formed journal has.
    pub proof fn lemma_wf(&self)
        requires
            self.wf(),
        ensures
            !self@.writing ==> self@.uncommitted == 0,
            self@.read_offset <= MAX_RECORD_OFFSET,
            self@.storage.inner.bytes.len() <= usize::MAX,
            self@.storage.inner.expand_size > 0,
    {
        self.storage.lemma_wf();
    }

    /// A journal over `storage`, reading and writing from its start.
    pub fn new(storage: TransactionalStorage) -> (r: Journal)
        requires
            storage.wf(),
        ensures
            r.wf(),
            r@ == (JState {
                storage: storage@,
                read_offset: 0,
                write_offset: 0,
                writing: false,
                uncommitted: 0,
                record_count: 0,
            }),
    {
        Journal {
            storage,
            read_offset: 0,
            write_offset: 0,
            is_writing: false,
            uncommitted_size: 0,
            record_count: 0,
        }
    }

    /// Discards the uncommitted record: the write offset goes back to where
    /// it started, and so does the transaction boundary.
    pub fn discard(&mut self) -> (r: Result<(), Error>)
        requires
            old(self).wf(),
            old(self)@.writing ==> old(self)@.uncommitted <= old(self)@.write_offset,
        ensures
            final(self).wf(),
            !old(self)@.writing ==> (r matches Err(e) && is_assertion(e, ERR_WRITE_NOT_IN_PROGRESS@))
                && final(self)@ == old(self)@,
            old(self)@.writing ==> r is Ok && final(self)@ == journal_after_discard(old(self)@),
    {
        match AssertionError::assert_true(self.is_writing, ERR_WRITE_NOT_IN_PROGRESS) {
            Ok(()) => {},
            Err(e) => return Err(Error::Assertion(e)),
        }
        let _ = self.storage.set_txn_boundary(self.write_offset - self.uncommitted_size);
        self.write_offset = self.write_offset - self.uncommitted_size;
        self.uncommitted_size = 0;
        self.is_writing = false;
        Ok(())
    }

    /// Writes `data` as a new uncommitted record at the write offset; a
    /// write that fails part way is discarded.
    pub fn write(&mut self, data: &[u8]) -> (r: Result<(), Error>)
        requires
            old(self).wf(),
        ensures
            final(self).wf(),
            journal_write_outcome(old(self)@, data@, r, final(self)@),
    {
        match AssertionError::assert_not(self.is_writing, ERR_WRITE_IN_PROGRESS) {
            Ok(()) => {},
            Err(e) => return Err(Error::Assertion(e)),
        }
        match AssertionError::assert_true(data.len() > 0, ERR_NOTHING_TO_WRITE) {
            Ok(()) => {},
            Err(e) => return Err(Error::Assertion(e)),
        }
        let ghost j0 = self@;
        let ghost wo = j0.write_offset as int;
        let ghost s0 = j0.storage.inner;
        let ghost total = journal_record(data@).len() as int;
        proof {
            self.lemma_wf();
            lemma_auto_spec_u16_to_from_le_bytes();
            lemma_auto_spec_u32_to_from_le_bytes();
            lemma_record_parts(s0, wo, data@);
        }
        self.is_writing = true;
        match self.storage.w_u16(self.write_offset, START_MARK) {
            Ok(()) => {
                self.write_offset = self.write_offset + 2;
                self.uncommitted_size = 2;
            },
            Err(e) => {
                proof {
                    if txn_write_error(j0.storage, wo, 2) is Some {
                        if !write_blocked(j0.storage, wo) {
                            crate::memory_binary_storage::lemma_part_write_error(s0, wo, total, 2, wo, 2);
                        }
                    } else {
                        lemma_part_needs_growth(s0, s0, wo, 2, wo, total);
                    }
                    assert(record_parts_written(s0, wo, data@, 0) == s0);
                }
                return match self.discard() {
                    Ok(()) => Err(e),
                    Err(d) => Err(d),
                };
            },
        }
        let len = data.len() as u64;
        match self.storage.w_u32(self.write_offset, len as u32) {
            Ok(()) => {
                self.write_offset = self.write_offset + 4;
                self.uncommitted_size = self.uncommitted_size + 4;
            },
            Err(e) => {
                proof {
                    assert(record_parts_written(s0, wo, data@, 1) == self@.storage.inner);
                    if crate::memory_binary_storage::write_error(s0, wo + 2, 4) is Some {
                        crate::memory_binary_storage::lemma_part_write_error(s0, wo, total, 2, wo + 2, 4);
                    } else {
                        lemma_parts_never_shrink(s0, wo, data@, 1);
                        lemma_part_needs_growth(s0, self@.storage.inner, wo + 2, 4, wo, total);
                    }
                }
                return match self.discard() {
                    Ok(()) => Err(e),
                    Err(d) => Err(d),
                };
            },
        }
        match self.storage.w_bytes(self.write_offset, data) {
            Ok(()) => {
                self.write_offset = self.write_offset + len;
                self.uncommitted_size = self.uncommitted_size + len;
            },
            Err(e) => {
                proof {
                    assert(record_parts_written(s0, wo, data@, 2) == self@.storage.inner);
                    if crate::memory_binary_storage::write_error(s0, wo + PRE_DATA_LEN, data@.len() as int) is Some {
                        crate::memory_binary_storage::lemma_part_write_error(s0, wo, total, 2, wo + PRE_DATA_LEN, data@.len() as int);
                    } else {
                        lemma_parts_never_shrink(s0, wo, data@, 2);
                        lemma_part_needs_growth(s0, self@.storage.inner, wo + PRE_DATA_LEN, data@.len() as int, wo, total);
                    }
                }
                return match self.discard() {
                    Ok(()) => Err(e),
                    Err(d) => Err(d),
                };
            },
        }
        match self.storage.w_u8(self.write_offset, xor_checksum(data)) {
            Ok(()) => {
                self.write_offset = self.write_offset + 1;
                self.uncommitted_size = self.uncommitted_size + 1;
            },
            Err(e) => {
                proof {
                    assert(record_parts_written(s0, wo, data@, 3) == self@.storage.inner);
                    if crate::memory_binary_storage::write_error(s0, wo + PRE_DATA_LEN + data@.len(), 1) is Some {
                        crate::memory_binary_storage::lemma_part_write_error(s0, wo, total, 2, wo + PRE_DATA_LEN + data@.len(), 1);
                    } else {
                        lemma_parts_never_shrink(s0, wo, data@, 3);
                        lemma_part_needs_growth(s0, self@.storage.inner, wo + PRE_DATA_LEN + data@.len(), 1, wo, total);
                    }
                }
                return match self.discard() {
                    Ok(()) => Err(e),
                    Err(d) => Err(d),
                };
            },
        }
        Ok(())
    }

    /// Commits the uncommitted record: writes its end marker and moves the
    /// transaction boundary past it.
    pub fn commit(&mut self) -> (r: Result<(), Error>)
        requires
            old(self).wf(),
            old(self)@.writing ==> old(self)@.uncommitted <= old(self)@.write_offset,
            old(self)@.record_count < u64::MAX,
        ensures
            final(self).wf(),
            journal_commit_outcome(old(self)@, r, final(self)@),
    {
        match AssertionError::assert_true(self.is_writing, ERR_WRITE_NOT_IN_PROGRESS) {
            Ok(()) => {},
            Err(e) => return Err(Error::Assertion(e)),
        }
        proof {
            self.lemma_wf();
            lemma_auto_spec_u16_to_from_le_bytes();
        }
        match self.storage.w_u16(self.write_offset, END_MARK) {
            Ok(()) => {
                self.write_offset = self.write_offset + 2;
                self.uncommitted_size = self.uncommitted_size + 2;
            },
            Err(e) => {
                return match self.discard() {
                    Ok(()) => Err(e),
                    Err(d) => Err(d),
                };
            },
        }
        proof {
            self.storage.lemma_wf();
            crate::util::lemma_round_up(
                (old(self)@.write_offset + 2) as nat,
                old(self)@.storage.inner.expand_size,
            );
        }
        let _ = self.storage.set_txn_boundary(self.write_offset);
        self.uncommitted_size = 0;
        self.is_writing = false;
        self.record_count = self.record_count + 1;
        Ok(())
    }

    /// Closes the storage and forgets where reading and writing stood.
    pub fn close(&mut self) -> (r: Result<(), Error>)
        requires
            old(self).wf(),
        ensures
            final(self).wf(),
            !old(self)@.storage.inner.open ==> (r matches Err(e) && is_assertion(
                e,
                crate::binary_storage::ERR_OPERATION_INVALID_WHEN_CLOSED@,
            )) && final(self)@ == old(self)@,
            old(self)@.storage.inner.open ==> r is Ok && final(self)@ == (JState {
                storage: TxnState {
                    inner: StorageState { open: false, ..old(self)@.storage.inner },
                    ..old(self)@.storage
                },
                read_offset: 0,
                write_offset: 0,
                writing: false,
                uncommitted: 0,
                record_count: 0,
            }),
    {
        match self.storage.close() {
            Ok(()) => {
                self.read_offset = 0;
                self.write_offset = 0;
                self.is_writing = false;
                self.uncommitted_size = 0;
                self.record_count = 0;
                Ok(())
            },
            Err(e) => Err(e),
        }
    }

    /// Counts the committed records from the start and takes up a record
    /// started after them as the uncommitted one; see `verify_result`.
    pub fn verify(&mut self) -> (r: Result<(), Error>)
        requires
            old(self).wf(),
            old(self)@.storage.inner.bytes.len() <= MAX_RECORD_OFFSET,
        ensures
            final(self).wf(),
            unit_result(r, verify_result(old(self)@).0),
            final(self)@ == verify_result(old(self)@).1,
    {
        self.reset();
        let _ = self.storage.set_check_on_read(false);
        let ghost t1 = self@.storage;
        let ghost j1 = self@;
        let mut count: u64 = 0;
        loop
            invariant
                self.wf(),
                j1.storage == t1,
                t1.inner.bytes.len() <= MAX_RECORD_OFFSET,
                count <= self@.read_offset,
                self@ == (JState { read_offset: self@.read_offset, ..j1 }),
                count + records_found(t1, self@.read_offset as int).len() == records_found(t1, 0).len(),
                iteration_end(t1, self@.read_offset as int) == iteration_end(t1, 0),
            ensures
                self.wf(),
                self@ == (JState { read_offset: self@.read_offset, ..j1 }),
                count == records_found(t1, 0).len(),
                self@.read_offset == iteration_end(t1, 0),
            decreases t1.inner.bytes.len() - self@.read_offset,
        {
            let ghost ro = self@.read_offset as int;
            match self.next() {
                Some(_) => {
                    proof {
                        lemma_next_step_advances(t1, ro);
                    }
                    count = count + 1;
                },
                None => {
                    assert(records_found(t1, ro).len() == 0);
                    assert(iteration_end(t1, ro) == ro);
                    break;
                },
            }
        }
        self.record_count = count;
        let has_start = match self.has_start() {
            Ok(h) => h,
            Err(e) => {
                let _ = self.storage.set_check_on_read(true);
                return Err(e);
            },
        };
        if has_start {
            let data = match self.read() {
                Ok(d) => d,
                Err(e) => {
                    let _ = self.storage.set_check_on_read(true);
                    return Err(e);
                },
            };
            self.write_offset = self.read_offset + PRE_DATA_LEN + data.len() as u64 + 1;
            self.is_writing = true;
        }
        let _ = self.storage.set_check_on_read(true);
        self.reset();
        Ok(())
    }

    /// Opens the storage and checks its records (the check runs even when
    /// the storage was open already, whose error is then reported).
    pub fn open(&mut self) -> (r: Result<(), Error>)
        requires
            old(self).wf(),
            old(self)@.storage.inner.bytes.len() <= MAX_RECORD_OFFSET,
        ensures
            final(self).wf(),
            ({
                let j = old(self)@;
                let j1 = JState {
                    storage: TxnState { inner: StorageState { open: true, ..j.storage.inner }, ..j.storage },
                    ..j
                };
                &&& final(self)@ == verify_result(j1).1
                &&& j.storage.inner.open ==> (r matches Err(e) && is_assertion(
                    e,
                    crate::binary_storage::ERR_OPERATION_INVALID_WHEN_OPEN@,
                ))
                &&& !j.storage.inner.open ==> unit_result(r, verify_result(j1).0)
            }),
    {
        let opened = self.storage.open();
        let verified = self.verify();
        match opened {
            Err(e) => Err(e),
            Ok(()) => verified,
        }
    }

    /// Whether the storage is open.
    pub fn is_open(&self) -> (r: bool)
        ensures
            r == self@.storage.inner.open,
    {
        self.storage.is_open()
    }

    /// Whether a record is being written.
    pub fn is_writing(&self) -> (r: bool)
        ensures
            r == self@.writing,
    {
        self.is_writing
    }

    /// Goes back to the first record.
    pub fn reset(&mut self)
        requires
            old(self).wf(),
        ensures
            final(self).wf(),
            final(self)@ == (JState { read_offset: 0, ..old(self)@ }),
    {
        self.read_offset = 0;
    }

    /// Whether a start marker stands at the read offset.
    pub fn has_start(&self) -> (r: Result<bool, Error>)
        requires
            self.wf(),
        ensures
            bool_result(r, start_at(self@.storage, self@.read_offset as int)),
    {
        let v = match self.storage.r_u16(self.read_offset) {
            Ok(v) => v,
            Err(e) => return Err(e),
        };
        Ok(START_MARK == v)
    }

    /// Whether the record at the read offset has its end marker where its
    /// length puts it.
    pub fn has_end(&self) -> (r: Result<bool, Error>)
        requires
            self.wf(),
        ensures
            bool_result(r, end_at(self@.storage, self@.read_offset as int)),
    {
        let len = match self.storage.r_u32(self.read_offset + 2) {
            Ok(v) => v,
            Err(e) => return Err(e),
        };
        let v = match self.storage.r_u16(self.read_offset + PRE_DATA_LEN + len as u64 + 1) {
            Ok(v) => v,
            Err(e) => return Err(e),
        };
        Ok(END_MARK == v)
    }

    /// The data of the record at the read offset, checked against its
    /// checksum.
    pub fn read(&self) -> (r: Result<Vec<u8>, Error>)
        requires
            self.wf(),
        ensures
            bytes_result(r, record_at(self@.storage, self@.read_offset as int)),
    {
        let len = match self.storage.r_u32(self.read_offset + 2) {
            Ok(v) => v,
            Err(e) => return Err(e),
        };
        match AssertionError::assert_true(len > 0, ERR_NO_RECORD_DATA) {
            Ok(()) => {},
            Err(e) => return Err(Error::Assertion(e)),
        }
        let n = match (len as usize).checked_add(1) {
            Some(n) => n,
            None => return Err(Error::Assertion(AssertionError::new(ERR_ARITHMETIC_OVERFLOW))),
        };
        let mut bytes = match self.storage.r_bytes(self.read_offset + PRE_DATA_LEN, n) {
            Ok(b) => b,
            Err(e) => return Err(e),
        };
        let ghost all = bytes@;
        let checksum = match bytes.pop() {
            Some(c) => c,
            None => return Err(Error::Assertion(AssertionError::new(ERR_NO_RECORD_DATA))),
        };
        assert(bytes@ =~= all.drop_last());
        match AssertionError::assert_true(checksum == xor_checksum(bytes.as_slice()), ERR_CHECKSUM_MISMATCH) {
            Ok(()) => {},
            Err(e) => return Err(Error::Assertion(e)),
        }
        Ok(bytes)
    }

    /// Moves the read offset to `offset` and checks that a committed record
    /// starts there; the read offset stays at `offset` either way.
    pub fn jump_to(&mut self, offset: u64) -> (r: Result<(), Error>)
        requires
            old(self).wf(),
            offset <= MAX_RECORD_OFFSET,
        ensures
            final(self).wf(),
            final(self)@ == (JState { read_offset: offset as nat, ..old(self)@ }),
            match jump_result(old(self)@.storage, offset as int) {
                Ok(true) => r is Ok,
                Ok(false) => r matches Err(e) && is_assertion(e, ERR_NO_COMMITTED_RECORD@),
                Err(m) => r matches Err(e) && is_assertion(e, m),
            },
    {
        self.read_offset = offset;
        match self.has_start() {
            Ok(v) => {
                if !v {
                    return Err(Error::Assertion(AssertionError::new(ERR_NO_COMMITTED_RECORD)));
                }
            },
            Err(e) => {
                return Err(e);
            },
        }
        match self.has_end() {
            Ok(v) => {
                if !v {
                    return Err(Error::Assertion(AssertionError::new(ERR_NO_COMMITTED_RECORD)));
                }
            },
            Err(e) => {
                return Err(e);
            },
        }
        Ok(())
    }

    /// The data of the record at the read offset, moving the read offset
    /// past it; `None`, staying put, when the iteration finds nothing there.
    pub fn next(&mut self) -> (r: Option<Vec<u8>>)
        requires
            old(self).wf(),
            old(self)@.storage.inner.bytes.len() <= MAX_RECORD_OFFSET,
        ensures
            final(self).wf(),
            match next_step(old(self)@.storage, old(self)@.read_offset as int) {
                Some((v, next)) => {
                    &&& r matches Some(w) && w@ == v
                    &&& final(self)@ == (JState { read_offset: next as nat, ..old(self)@ })
                },
                None => r is None && final(self)@ == old(self)@,
            },
    {
        let hs = self.has_start();
        let he = self.has_end();
        let found = match hs {
            Err(e) => Err(e),
            Ok(_) => he,
        };
        match found {
            Ok(h) => {
                if !h {
                    return None;
                }
            },
            Err(_) => return None,
        }
        match self.read() {
            Ok(v) => {
                proof {
                    lemma_next_step_advances(self@.storage, self@.read_offset as int);
                }
                let new_offset = self.read_offset + PRE_DATA_LEN + v.len() as u64 + POST_DATA_LEN;
                let _ = self.jump_to(new_offset);
                Some(v)
            },
            Err(_) => None,
        }
    }

    /// The read offset.
    pub fn read_offset(&self) -> (r: u64)
        ensures
            r == self@.read_offset,
    {
        self.read_offset
    }

    /// The write offset.
    pub fn write_offset(&self) -> (r: u64)
        ensures
            r == self@.write_offset,
    {
        self.write_offset
    }

    /// The capacity of the storage (only while open).
    pub fn capacity(&self) -> (r: Result<u64, Error>)
        requires
            self.wf(),
        ensures
            self@.storage.inner.open ==> r == Ok::<u64, Error>(self@.storage.inner.bytes.len() as u64),
            !self@.storage.inner.open ==> (r matches Err(e) && is_assertion(
                e,
                crate::binary_storage::ERR_OPERATION_INVALID_WHEN_CLOSED@,
            )),
    {
        self.storage.get_capacity()
    }

    /// The number of committed records counted.
    pub fn record_count(&self) -> (r: u64)
        ensures
            r == self@.record_count,
    {
        self.record_count
    }

    /// The transaction boundary of the storage (only while open).
    pub fn txn_boundary(&self) -> (r: Result<u64, Error>)
        ensures
            self@.storage.inner.open ==> r == Ok::<u64, Error>(self@.storage.txn_boundary as u64),
            !self@.storage.inner.open ==> (r matches Err(e) && is_assertion(
                e,
                crate::binary_storage::ERR_OPERATION_INVALID_WHEN_CLOSED@,
            )),
    {
        self.storage.get_txn_boundary()
    }
}

} // verus!

verus! {

/// The bytes of a record and its end marker, written at `wo`, are found there.
proof fn lemma_record_bytes(s0: StorageState, wo: int, data: Seq<u8>)
    requires
        s0.expand_size > 0,
        0 <= wo,
    ensures
        ({
            let n = data.len() as int;
            let s2 = state_after_write(s0, wo, journal_record(data) + spec_u16_to_le_bytes(END_MARK));
            &&& s2.bytes.len() >= wo + n + PRE_DATA_LEN + POST_DATA_LEN
            &&& stored(s2, wo, 2) == spec_u16_to_le_bytes(START_MARK)
            &&& stored(s2, wo + 2, 4) == spec_u32_to_le_bytes(n as u32)
            &&& stored(s2, wo + PRE_DATA_LEN, n + 1) == data + seq![xor_of(data)]
            &&& stored(s2, wo + PRE_DATA_LEN + n + 1, 2) == spec_u16_to_le_bytes(END_MARK)
        }),
{
    lemma_auto_spec_u16_to_from_le_bytes();
    lemma_auto_spec_u32_to_from_le_bytes();
    let n = data.len() as int;
    let all = journal_record(data) + spec_u16_to_le_bytes(END_MARK);
    let s2 = state_after_write(s0, wo, all);
    crate::util::lemma_round_up((wo + all.len()) as nat, s0.expand_size);
    assert(s2.bytes.subrange(wo, wo + all.len()) =~= all);
    assert(stored(s2, wo, 2) =~= all.subrange(0, 2));
    assert(stored(s2, wo + 2, 4) =~= all.subrange(2, 6));
    assert(stored(s2, wo + PRE_DATA_LEN, n + 1) =~= all.subrange(6, 7 + n));
    assert(stored(s2, wo + PRE_DATA_LEN + n + 1, 2) =~= all.subrange(7 + n, 9 + n));
}

/// Where a record's bytes are found and can be read, the iteration finds
/// the record and goes on after its end marker.
proof fn lemma_record_found(t: TxnState, wo: int, data: Seq<u8>)
    requires
        0 <= wo,
        0 < data.len() <= u32::MAX,
        t.inner.open,
        !t.inner.use_txn_boundary,
        t.inner.bytes.len() >= wo + data.len() + PRE_DATA_LEN + POST_DATA_LEN,
        wo + data.len() + PRE_DATA_LEN + POST_DATA_LEN <= t.txn_boundary,
        t.inner.bytes.len() <= usize::MAX,
        stored(t.inner, wo, 2) == spec_u16_to_le_bytes(START_MARK),
        stored(t.inner, wo + 2, 4) == spec_u32_to_le_bytes(data.len() as u32),
        stored(t.inner, wo + PRE_DATA_LEN, data.len() + 1int) == data + seq![xor_of(data)],
        stored(t.inner, wo + PRE_DATA_LEN + data.len() + 1, 2) == spec_u16_to_le_bytes(END_MARK),
    ensures
        next_step(t, wo) == Some((data, wo + data.len() + PRE_DATA_LEN + POST_DATA_LEN)),
        jump_result(t, wo) == Ok::<bool, Seq<char>>(true),
        record_at(t, wo) == Ok::<Seq<u8>, Seq<char>>(data),
{
    lemma_auto_spec_u16_to_from_le_bytes();
    lemma_auto_spec_u32_to_from_le_bytes();
    let n = data.len() as int;
    assert(txn_read(t, wo, 2) == Ok::<Seq<u8>, Seq<char>>(stored(t.inner, wo, 2)));
    assert(spec_u16_to_le_bytes(START_MARK).len() == 2);
    assert(spec_u16_to_le_bytes(END_MARK).len() == 2);
    assert(spec_u32_to_le_bytes(n as u32).len() == 4);
    assert(le16(spec_u16_to_le_bytes(START_MARK)) == START_MARK);
    assert(start_at(t, wo) == Ok::<bool, Seq<char>>(true));
    assert(txn_read(t, wo + 2, 4) == Ok::<Seq<u8>, Seq<char>>(stored(t.inner, wo + 2, 4)));
    assert(le32(spec_u32_to_le_bytes(n as u32)) == n);
    assert(end_at(t, wo) == Ok::<bool, Seq<char>>(true));
    assert((data + seq![xor_of(data)]).drop_last() =~= data);
    assert(record_at(t, wo) == Ok::<Seq<u8>, Seq<char>>(data));
}

/// A record written and committed on an open journal reads back: the
/// iteration finds its data where it was written and goes on right after
/// its end marker, a jump to where it was written finds a committed record,
/// and a read there gives its data (as often as it is read). This needs
/// the data's length to fit the length field, and the wrapped storage not to
/// keep a boundary of its own.
pub proof fn law_committed_record_is_read_back(j: JState, data: Seq<u8>, j1: JState, j2: JState)
    requires
        j.storage.inner.open,
        j.storage.inner.expand_size > 0,
        !j.storage.inner.use_txn_boundary,
        0 < data.len() <= u32::MAX,
        journal_write_outcome(j, data, Ok(()), j1),
        journal_commit_outcome(j1, Ok(()), j2),
        j2.storage.inner.bytes.len() <= usize::MAX,
    ensures
        next_step(j2.storage, j.write_offset as int) == Some((data, j2.write_offset as int)),
        jump_result(j2.storage, j.write_offset as int) == Ok::<bool, Seq<char>>(true),
        record_at(j2.storage, j.write_offset as int) == Ok::<Seq<u8>, Seq<char>>(data),
        j2.write_offset == j.write_offset + data.len() + PRE_DATA_LEN + POST_DATA_LEN,
        j2.storage.txn_boundary == j2.write_offset,
        j2.record_count == j.record_count + 1,
{
    lemma_auto_spec_u16_to_from_le_bytes();
    lemma_auto_spec_u32_to_from_le_bytes();
    let wo = j.write_offset as int;
    let rec = journal_record(data);
    assert(rec.len() == data.len() + 7);
    let endm = spec_u16_to_le_bytes(END_MARK);
    let s0 = j.storage.inner;
    assert(j1.storage.inner == state_after_write(s0, wo, rec));
    assert(j1.write_offset == wo + rec.len());
    assert(j2.storage.inner == state_after_write(j1.storage.inner, wo + rec.len(), endm));
    crate::memory_binary_storage::lemma_write_concat(s0, wo, rec, endm);
    lemma_record_bytes(s0, wo, data);
    lemma_record_found(j2.storage, wo, data);
}

/// The journal is writing exactly while a record it wrote waits for its
/// commit: a write succeeds only when it was not writing and leaves it
/// writing, a write while writing is refused and changes nothing, a failed
/// write leaves it not writing, and commit and discard (whatever their
/// outcome) leave it not writing.
pub proof fn law_writing_flag(
    j: JState,
    data: Seq<u8>,
    rw: Result<(), Error>,
    jw: JState,
    rc: Result<(), Error>,
    jc: JState,
)
    requires
        journal_write_outcome(j, data, rw, jw),
        journal_commit_outcome(j, rc, jc),
    ensures
        rw is Ok ==> !j.writing && jw.writing,
        j.writing ==> rw is Err && jw == j,
        rw is Err ==> jw.writing == j.writing,
        !jc.writing,
        !journal_after_discard(j).writing,
{
}

/// Discarding a written record undoes it: the write offset, the count of
/// records and the transaction boundary are back where they were before the
/// write, nothing is being written, and a new record no longer than the
/// discarded one can be written there (its room is still there, so it needs
/// no growth and no check refuses it).
pub proof fn law_discard_undoes_write(j: JState, data: Seq<u8>, j1: JState, d2: Seq<u8>, r2: Result<
    (),
    Error,
>, j3: JState)
    requires
        j.storage.inner.open,
        j.storage.inner.expand_size > 0,
        j.storage.txn_boundary <= j.write_offset,
        data.len() <= u32::MAX,
        journal_write_outcome(j, data, Ok(()), j1),
        0 < d2.len() <= data.len(),
        journal_write_outcome(journal_after_discard(j1), d2, r2, j3),
    ensures
        journal_after_discard(j1).write_offset == j.write_offset,
        journal_after_discard(j1).record_count == j.record_count,
        journal_after_discard(j1).storage.txn_boundary == j.write_offset,
        !journal_after_discard(j1).writing,
        r2 is Ok,
{
    lemma_auto_spec_u16_to_from_le_bytes();
    lemma_auto_spec_u32_to_from_le_bytes();
    let wo = j.write_offset as int;
    let rec = journal_record(data);
    let rec2 = journal_record(d2);
    assert(rec.len() == data.len() + 7);
    assert(rec2.len() == d2.len() + 7);
    let s0 = j.storage.inner;
    let s1 = j1.storage.inner;
    crate::util::lemma_round_up((wo + rec.len()) as nat, s0.expand_size);
    crate::util::lemma_round_up_monotone((wo + rec2.len()) as nat, (wo + rec.len()) as nat, s0.expand_size);
    assert(s1.bytes.len() >= round_up((wo + rec.len()) as nat, s0.expand_size));
}

} // verus!
