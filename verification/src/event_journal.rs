//! A journal of events kept in a storage with its own transaction boundary.
//!
//! An event record is a start byte (0x02), the length of its data as a
//! little-endian `u32`, the data, and an end byte (0x03) once committed.
//! Committing moves the storage's transaction boundary past the record.
use vstd::prelude::*;
use vstd::bytes::*;
use crate::binary_storage::{ERR_OPERATION_INVALID_WHEN_CLOSED, ERR_OPERATION_INVALID_WHEN_OPEN, ERR_STORAGE_ALLOC};
use crate::error::{AssertionError, Error, is_assertion};
use crate::journal::MAX_RECORD_OFFSET;
use crate::memory_binary_storage::{
    MemoryBinaryStorage, StorageState, ERR_SET_TXN_BOUNDARY_PAST_END, ERR_TXN_BOUNDARY_NOT_IN_USE,
    lemma_part_needs_growth, lemma_part_write_error, lemma_write_concat, lemma_write_never_shrinks, needs_growth, read_error, state_after_write, stored, write_error,
};
pub use crate::journal::{ERR_NOTHING_TO_WRITE, ERR_WRITE_IN_PROGRESS, ERR_WRITE_NOT_IN_PROGRESS};

verus! {

/// The byte that opens an event record.
pub const EVENT_START: u8 = 0x02;

/// The byte that closes a committed event record.
pub const EVENT_END: u8 = 0x03;

/// The abstract state of an event journal.
pub struct EState {
    pub storage: StorageState,
    pub read_offset: nat,
    pub write_offset: nat,
    pub writing: bool,
    pub uncommitted: nat,
}

/// What a read of `len` bytes at `off` gives: the message of its error, or
/// the bytes.
pub open spec fn ev_read(s: StorageState, off: int, len: int) -> Result<Seq<u8>, Seq<char>> {
    match read_error(s, off, len) {
        Some(m) => Err(m),
        None => Ok(stored(s, off, len)),
    }
}

/// Whether a start byte stands at `ro`, or the error looking reports.
pub open spec fn ev_start_at(s: StorageState, ro: int) -> Result<bool, Seq<char>> {
    match ev_read(s, ro, 1) {
        Ok(b) => Ok(b[0] == EVENT_START),
        Err(m) => Err(m),
    }
}

/// Whether an end byte stands where the length at `ro + 1` puts it, or the
/// error looking reports.
pub open spec fn ev_end_at(s: StorageState, ro: int) -> Result<bool, Seq<char>> {
    match ev_read(s, ro + 1, 4) {
        Err(m) => Err(m),
        Ok(lb) => match ev_read(s, ro + 5 + spec_u32_from_le_bytes(lb), 1) {
            Err(m) => Err(m),
            Ok(b) => Ok(b[0] == EVENT_END),
        },
    }
}

/// The data of the record at `ro`, or the error reading it reports.
pub open spec fn ev_record_at(s: StorageState, ro: int) -> Result<Seq<u8>, Seq<char>> {
    match ev_read(s, ro + 1, 4) {
        Err(m) => Err(m),
        Ok(lb) => ev_read(s, ro + 5, spec_u32_from_le_bytes(lb) as int),
    }
}

/// The outcome of moving from `ro` to `offset`: whether a committed record
/// starts there, or the error looking reports, with the read offset after
/// it (back at `ro` unless a record was found).
pub open spec fn ev_jump(s: StorageState, ro: nat, offset: nat) -> (Result<bool, Seq<char>>, nat) {
    match ev_start_at(s, offset as int) {
        Err(m) => (Err(m), ro),
        Ok(false) => (Ok(false), ro),
        Ok(true) => match ev_end_at(s, offset as int) {
            Err(m) => (Err(m), ro),
            Ok(false) => (Ok(false), ro),
            Ok(true) => (Ok(true), offset),
        },
    }
}

/// The outcome of reading the record at `ro` and moving past it: its data
/// (or nothing, or the error), with the read offset after it.
pub open spec fn ev_next(s: StorageState, ro: nat) -> (Result<Option<Seq<u8>>, Seq<char>>, nat) {
    match ev_start_at(s, ro as int) {
        Err(m) => (Err(m), ro),
        Ok(false) => (Ok(None), ro),
        Ok(true) => match ev_end_at(s, ro as int) {
            Err(m) => (Err(m), ro),
            Ok(false) => (Ok(None), ro),
            Ok(true) => match ev_record_at(s, ro as int) {
                Err(m) => (Err(m), ro),
                Ok(v) => {
                    let (jr, ro2) = ev_jump(s, ro, (ro + 6 + v.len()) as nat);
                    match jr {
                        Err(m) => (Err(m), ro2),
                        Ok(_) => (Ok(Some(v)), ro2),
                    }
                },
            },
        },
    }
}

/// The bytes of an event record holding `data`, up to its end byte.
pub open spec fn event_record(data: Seq<u8>) -> Seq<u8> {
    seq![EVENT_START] + spec_u32_to_le_bytes(data.len() as u32) + data
}

/// The storage after the first `k` parts of the record holding `data` are
/// written at `wo`: the start byte, then the length.
pub open spec fn event_parts_written(s: StorageState, wo: int, data: Seq<u8>, k: int) -> StorageState {
    let s1 = state_after_write(s, wo, seq![EVENT_START]);
    let s2 = state_after_write(s1, wo + 1, spec_u32_to_le_bytes(data.len() as u32));
    if k <= 0 {
        s
    } else if k == 1 {
        s1
    } else {
        s2
    }
}

/// How far the write offset has moved once `k` parts are written.
pub open spec fn event_parts_len(k: int) -> int {
    if k <= 0 {
        0
    } else if k == 1 {
        1
    } else {
        5
    }
}

/// The outcome of discarding the uncommitted record of `j`: the transaction
/// boundary moves to the write offset and the write offset back by the
/// uncommitted bytes, unless the boundary cannot be moved, whose error is
/// reported and which changes nothing.
pub open spec fn ev_discard_result(j: EState) -> (Result<(), Seq<char>>, EState) {
    let s = j.storage;
    if !s.open {
        (Err(ERR_OPERATION_INVALID_WHEN_CLOSED@), j)
    } else if !s.use_txn_boundary {
        (Err(ERR_TXN_BOUNDARY_NOT_IN_USE@), j)
    } else if j.write_offset > s.bytes.len() {
        (Err(ERR_SET_TXN_BOUNDARY_PAST_END@), j)
    } else {
        (
            Ok(()),
            EState {
                storage: StorageState { txn_boundary: j.write_offset, ..s },
                write_offset: (j.write_offset - j.uncommitted) as nat,
                uncommitted: 0,
                writing: false,
                ..j
            },
        )
    }
}

/// Discarding would move the write offset back by more bytes than lie
/// before it.
pub open spec fn discard_underflows(j: EState) -> bool {
    &&& j.uncommitted > j.write_offset
    &&& j.storage.open
    &&& j.storage.use_txn_boundary
    &&& j.write_offset <= j.storage.bytes.len()
}

/// A one-byte write at `o` cannot fail: it passes its checks and needs no
/// memory.
pub open spec fn byte_write_succeeds(s: StorageState, o: int) -> bool {
    write_error(s, o, 1) is None && !needs_growth(s, o + 1)
}

/// The error of a failed write of `len` bytes at `wo`, made in parts of
/// which the first is `first` bytes long: the error the whole write's checks
/// report; or an allocation failure, which comes only where the write needs
/// the storage to grow and its first part passes its checks.
pub open spec fn part_failure(s: StorageState, wo: int, first: int, len: int, e: Error) -> bool {
    let alloc = {
        &&& is_assertion(e, ERR_STORAGE_ALLOC@)
        &&& needs_growth(s, wo + len)
        &&& write_error(s, wo, first) is None
    };
    match write_error(s, wo, len) {
        None => alloc,
        Some(m) => is_assertion(e, m) || alloc,
    }
}

/// A failed write at part `k` is discarded: with the discard's error when
/// that fails, else with the part's error.
pub open spec fn ev_failed_write(j: EState, data: Seq<u8>, k: int, e: Error, j2: EState) -> bool {
    let wo = j.write_offset as int;
    let jk = EState {
        storage: event_parts_written(j.storage, wo, data, k),
        write_offset: (wo + event_parts_len(k)) as nat,
        uncommitted: if k == 0 { j.uncommitted } else { event_parts_len(k) as nat },
        writing: true,
        ..j
    };
    let (dr, jd) = ev_discard_result(jk);
    &&& j2 == jd
    &&& match dr {
        Ok(_) => part_failure(j.storage, wo, 1, event_record(data).len() as int, e),
        Err(m) => is_assertion(e, m),
    }
}

/// The outcome of writing `data` as a new event record.
pub open spec fn ev_write_outcome(j: EState, data: Seq<u8>, r: Result<(), Error>, j2: EState) -> bool {
    if j.writing {
        (r matches Err(e) && is_assertion(e, ERR_WRITE_IN_PROGRESS@)) && j2 == j
    } else if data.len() == 0 {
        (r matches Err(e) && is_assertion(e, ERR_NOTHING_TO_WRITE@)) && j2 == j
    } else {
        let rec = event_record(data);
        let wo = j.write_offset as int;
        match r {
            Ok(_) => write_error(j.storage, wo, rec.len() as int) is None && j2 == EState {
                storage: state_after_write(j.storage, wo, rec),
                write_offset: (wo + rec.len()) as nat,
                uncommitted: rec.len(),
                writing: true,
                ..j
            },
            Err(e) => exists|k: int| 0 <= k < 3 && #[trigger] ev_failed_write(j, data, k, e, j2),
        }
    }
}

/// The outcome of committing the uncommitted event record: its end byte is
/// written, the boundary moves past it and the write offset goes back to 0;
/// or, when the end byte cannot be written, the record is discarded.
pub open spec fn ev_commit_outcome(j: EState, r: Result<(), Error>, j2: EState) -> bool {
    if !j.writing {
        (r matches Err(e) && is_assertion(e, ERR_WRITE_NOT_IN_PROGRESS@)) && j2 == j
    } else {
        let wo = j.write_offset as int;
        match r {
            Ok(_) => write_error(j.storage, wo, 1) is None && j2 == EState {
                storage: StorageState {
                    txn_boundary: (wo + 1) as nat,
                    ..state_after_write(j.storage, wo, seq![EVENT_END])
                },
                write_offset: 0,
                uncommitted: 0,
                writing: false,
                ..j
            },
            Err(e) => {
                let (dr, jd) = ev_discard_result(j);
                &&& j2 == jd
                &&& match dr {
                    Ok(_) => part_failure(j.storage, wo, 1, 1, e),
                    Err(m) => is_assertion(e, m),
                }
            },
        }
    }
}

/// A result without a value as the spec `s` describes it.
pub open spec fn ev_unit_result(r: Result<(), Error>, s: Result<(), Seq<char>>) -> bool {
    match s {
        Ok(_) => r is Ok,
        Err(m) => r matches Err(e) && is_assertion(e, m),
    }
}

/// A journal of events in a storage whose transaction boundary it moves.
pub struct EventJournal {
    storage: MemoryBinaryStorage,
    read_offset: u64,
    write_offset: u64,
    is_writing: bool,
    uncommitted_size: u64,
}

impl View for EventJournal {
    type V = EState;

    closed spec fn view(&self) -> EState {
        EState {
            storage: self.storage@,
            read_offset: self.read_offset as nat,
            write_offset: self.write_offset as nat,
            writing: self.is_writing,
            uncommitted: self.uncommitted_size as nat,
        }
    }
}

impl EventJournal {
    /// The internal consistency of an event journal: its storage is
    /// consistent and uses its transaction boundary, and the read offset is
    /// one that records can be looked for at.
    pub closed spec fn wf(&self) -> bool {
        &&& self.storage.wf()
        &&& self.storage@.use_txn_boundary
        &&& self.read_offset <= MAX_RECORD_OFFSET
    }

    /// Facts that every well-formed event journal has.
    pub proof fn lemma_wf(&self)
        requires
            self.wf(),
        ensures
            self@.storage.use_txn_boundary,
            self@.read_offset <= MAX_RECORD_OFFSET,
            self@.storage.bytes.len() <= usize::MAX,
            self@.storage.expand_size > 0,
            self@.storage.txn_boundary <= self@.storage.bytes.len(),
    {
        self.storage.lemma_wf();
    }

    /// An event journal over `storage`, whose transaction boundary is turned
    /// on.
    pub fn new(storage: MemoryBinaryStorage) -> (r: EventJournal)
        requires
            storage.wf(),
        ensures
            r.wf(),
            r@ == (EState {
                storage: StorageState { use_txn_boundary: true, ..storage@ },
                read_offset: 0,
                write_offset: 0,
                writing: false,
                uncommitted: 0,
            }),
    {
        let mut storage = storage;
        storage.set_use_txn_boundary(true);
        EventJournal { storage, read_offset: 0, write_offset: 0, is_writing: false, uncommitted_size: 0 }
    }

    /// Opens the storage.
    pub fn open(&mut self) -> (r: Result<(), Error>)
        requires
            old(self).wf(),
        ensures
            final(self).wf(),
            old(self)@.storage.open ==> (r matches Err(e) && is_assertion(e, ERR_OPERATION_INVALID_WHEN_OPEN@))
                && final(self)@ == old(self)@,
            !old(self)@.storage.open ==> r is Ok && final(self)@ == (EState {
                storage: StorageState { open: true, ..old(self)@.storage },
                ..old(self)@
            }),
    {
        self.storage.open()
    }

    /// Closes the storage and goes back to the start for reading and
    /// writing.
    pub fn close(&mut self) -> (r: Result<(), Error>)
        requires
            old(self).wf(),
        ensures
            final(self).wf(),
            !old(self)@.storage.open ==> (r matches Err(e) && is_assertion(e, ERR_OPERATION_INVALID_WHEN_CLOSED@))
                && final(self)@ == old(self)@,
            old(self)@.storage.open ==> r is Ok && final(self)@ == (EState {
                storage: StorageState { open: false, ..old(self)@.storage },
                read_offset: 0,
                write_offset: 0,
                writing: false,
                ..old(self)@
            }),
    {
        match self.storage.close() {
            Ok(()) => {
                self.is_writing = false;
                self.read_offset = 0;
                self.write_offset = 0;
                Ok(())
            },
            Err(e) => Err(e),
        }
    }

    /// Whether the storage is open.
    pub fn is_open(&self) -> (r: bool)
        ensures
            r == self@.storage.open,
    {
        self.storage.is_open()
    }

    /// Whether a record is being written.
    pub fn is_writing(&self) -> (r: bool)
        ensures
            r == self@.writing,
    {
        self.is_writing
    }

    /// Discards the uncommitted record: the transaction boundary moves to
    /// the write offset, and the write offset back by the uncommitted bytes.
    pub fn discard(&mut self) -> (r: Result<(), Error>)
        requires
            old(self).wf(),
            old(self)@.writing ==> !discard_underflows(old(self)@),
        ensures
            final(self).wf(),
            !old(self)@.writing ==> (r matches Err(e) && is_assertion(e, ERR_WRITE_NOT_IN_PROGRESS@))
                && final(self)@ == old(self)@,
            old(self)@.writing ==> ev_unit_result(r, ev_discard_result(old(self)@).0) && final(self)@
                == ev_discard_result(old(self)@).1,
    {
        match AssertionError::assert_true(self.is_writing, ERR_WRITE_NOT_IN_PROGRESS) {
            Ok(()) => {},
            Err(e) => return Err(Error::Assertion(e)),
        }
        match self.storage.set_txn_boundary(self.write_offset) {
            Ok(()) => {
                self.write_offset = self.write_offset - self.uncommitted_size;
                self.uncommitted_size = 0;
                self.is_writing = false;
                Ok(())
            },
            Err(e) => Err(e),
        }
    }

    /// Writes `data` as a new uncommitted event record at the write offset;
    /// a write that fails part way is discarded.
    pub fn write(&mut self, data: &[u8]) -> (r: Result<(), Error>)
        requires
            old(self).wf(),
            !old(self)@.writing && data@.len() > 0 && discard_underflows(old(self)@) ==> byte_write_succeeds(
                old(self)@.storage,
                old(self)@.write_offset as int,
            ),
        ensures
            final(self).wf(),
            ev_write_outcome(old(self)@, data@, r, final(self)@),
    {
        match AssertionError::assert_not(self.is_writing, ERR_WRITE_IN_PROGRESS) {
            Ok(()) => {},
            Err(e) => return Err(Error::Assertion(e)),
        }
        match AssertionError::assert_true(data.len() > 0, ERR_NOTHING_TO_WRITE) {
            Ok(()) => {},
            Err(e) => return Err(Error::Assertion(e)),
        }
        let ghost j0 = self@;
        let ghost wo = j0.write_offset as int;
        let ghost s0 = j0.storage;
        let ghost total = event_record(data@).len() as int;
        proof {
            self.lemma_wf();
            lemma_auto_spec_u32_to_from_le_bytes();
            assert(spec_u32_to_le_bytes(data@.len() as u32).len() == 4);
            lemma_write_concat(s0, wo, seq![EVENT_START], spec_u32_to_le_bytes(data@.len() as u32));
            lemma_write_concat(
                s0,
                wo,
                seq![EVENT_START] + spec_u32_to_le_bytes(data@.len() as u32),
                data@,
            );
            assert(seq![EVENT_START] + spec_u32_to_le_bytes(data@.len() as u32) + data@ =~= event_record(
                data@,
            ));
        }
        self.is_writing = true;
        match self.storage.w_u8(self.write_offset, EVENT_START) {
            Ok(()) => {
                self.write_offset = self.write_offset + 1;
                self.uncommitted_size = 1;
            },
            Err(e) => {
                proof {
                    if write_error(s0, wo, 1) is Some {
                        lemma_part_write_error(s0, wo, total, 1, wo, 1);
                    } else {
                        lemma_part_needs_growth(s0, s0, wo, 1, wo, total);
                    }
                    assert(event_parts_written(s0, wo, data@, 0) == s0);
                }
                let d = self.discard();
                proof {
                    assert(ev_failed_write(j0, data@, 0, match d {
                        Ok(_) => e,
                        Err(x) => x,
                    }, self@));
                }
                return match d {
                    Ok(()) => Err(e),
                    Err(x) => Err(x),
                };
            },
        }
        let len = data.len() as u64;
        match self.storage.w_u32(self.write_offset, len as u32) {
            Ok(()) => {
                self.write_offset = self.write_offset + 4;
                self.uncommitted_size = self.uncommitted_size + 4;
            },
            Err(e) => {
                proof {
                    assert(event_parts_written(s0, wo, data@, 1) == self@.storage);
                    if write_error(s0, wo + 1, 4) is Some {
                        lemma_part_write_error(s0, wo, total, 1, wo + 1, 4);
                    } else {
                        lemma_write_never_shrinks(s0, wo, seq![EVENT_START]);
                        lemma_part_needs_growth(s0, self@.storage, wo + 1, 4, wo, total);
                    }
                }
                let d = self.discard();
                proof {
                    assert(ev_failed_write(j0, data@, 1, match d {
                        Ok(_) => e,
                        Err(x) => x,
                    }, self@));
                }
                return match d {
                    Ok(()) => Err(e),
                    Err(x) => Err(x),
                };
            },
        }
        match self.storage.w_bytes(self.write_offset, data) {
            Ok(()) => {
                self.write_offset = self.write_offset + len;
                self.uncommitted_size = self.uncommitted_size + len;
            },
            Err(e) => {
                proof {
                    assert(event_parts_written(s0, wo, data@, 2) == self@.storage);
                    if write_error(s0, wo + 5, data@.len() as int) is Some {
                        lemma_part_write_error(s0, wo, total, 1, wo + 5, data@.len() as int);
                    } else {
                        let s1 = state_after_write(s0, wo, seq![EVENT_START]);
                        lemma_write_never_shrinks(s0, wo, seq![EVENT_START]);
                        lemma_write_never_shrinks(s1, wo + 1, spec_u32_to_le_bytes(data@.len() as u32));
                        lemma_part_needs_growth(s0, self@.storage, wo + 5, data@.len() as int, wo, total);
                    }
                }
                let d = self.discard();
                proof {
                    assert(ev_failed_write(j0, data@, 2, match d {
                        Ok(_) => e,
                        Err(x) => x,
                    }, self@));
                }
                return match d {
                    Ok(()) => Err(e),
                    Err(x) => Err(x),
                };
            },
        }
        Ok(())
    }

    /// Commits the uncommitted event record: writes its end byte, moves the
    /// transaction boundary past it and the write offset back to 0.
    pub fn commit(&mut self) -> (r: Result<(), Error>)
        requires
            old(self).wf(),
            old(self)@.writing && discard_underflows(old(self)@) ==> byte_write_succeeds(
                old(self)@.storage,
                old(self)@.write_offset as int,
            ),
            old(self)@.uncommitted < u64::MAX,
        ensures
            final(self).wf(),
            ev_commit_outcome(old(self)@, r, final(self)@),
    {
        match AssertionError::assert_true(self.is_writing, ERR_WRITE_NOT_IN_PROGRESS) {
            Ok(()) => {},
            Err(e) => return Err(Error::Assertion(e)),
        }
        proof {
            self.lemma_wf();
        }
        match self.storage.w_u8(self.write_offset, EVENT_END) {
            Ok(()) => {
                self.write_offset = self.write_offset + 1;
                self.uncommitted_size = self.uncommitted_size + 1;
            },
            Err(e) => {
                let d = self.discard();
                return match d {
                    Ok(()) => Err(e),
                    Err(x) => Err(x),
                };
            },
        }
        proof {
            crate::util::lemma_round_up(
                (old(self)@.write_offset + 1) as nat,
                old(self)@.storage.expand_size,
            );
        }
        match self.storage.set_txn_boundary(self.write_offset) {
            Ok(()) => {
                self.write_offset = 0;
                self.uncommitted_size = 0;
                self.is_writing = false;
            },
            Err(e) => {
                let d = self.discard();
                return match d {
                    Ok(()) => Err(e),
                    Err(x) => Err(x),
                };
            },
        }
        Ok(())
    }

    /// Goes back to the first record.
    pub fn reset(&mut self)
        requires
            old(self).wf(),
        ensures
            final(self).wf(),
            final(self)@ == (EState { read_offset: 0, ..old(self)@ }),
    {
        self.read_offset = 0;
    }

    /// Whether a start byte stands at the read offset.
    pub fn has_start(&self) -> (r: Result<bool, Error>)
        requires
            self.wf(),
        ensures
            match ev_start_at(self@.storage, self@.read_offset as int) {
                Ok(v) => r == Ok::<bool, Error>(v),
                Err(m) => r matches Err(e) && is_assertion(e, m),
            },
    {
        let b = match self.storage.r_u8(self.read_offset) {
            Ok(b) => b,
            Err(e) => return Err(e),
        };
        Ok(EVENT_START == b)
    }

    /// Whether the record at the read offset has its end byte where its
    /// length puts it.
    pub fn has_end(&self) -> (r: Result<bool, Error>)
        requires
            self.wf(),
        ensures
            match ev_end_at(self@.storage, self@.read_offset as int) {
                Ok(v) => r == Ok::<bool, Error>(v),
                Err(m) => r matches Err(e) && is_assertion(e, m),
            },
    {
        let len = match self.storage.r_u32(self.read_offset + 1) {
            Ok(v) => v,
            Err(e) => return Err(e),
        };
        let b = match self.storage.r_u8(self.read_offset + 1 + 4 + len as u64) {
            Ok(b) => b,
            Err(e) => return Err(e),
        };
        Ok(EVENT_END == b)
    }

    /// The data of the record at the read offset.
    pub fn read(&self) -> (r: Result<Vec<u8>, Error>)
        requires
            self.wf(),
        ensures
            match ev_record_at(self@.storage, self@.read_offset as int) {
                Ok(v) => r matches Ok(w) && w@ == v,
                Err(m) => r matches Err(e) && is_assertion(e, m),
            },
    {
        let len = match self.storage.r_u32(self.read_offset + 1) {
            Ok(v) => v,
            Err(e) => return Err(e),
        };
        self.storage.r_bytes(self.read_offset + 1 + 4, len as usize)
    }

    /// Moves the read offset to `offset` when a committed record starts
    /// there, reporting whether one does; otherwise the read offset stays
    /// where it was (whatever `back_on_fail` says).
    pub fn jump_to(&mut self, offset: u64, back_on_fail: bool) -> (r: Result<bool, Error>)
        requires
            old(self).wf(),
            offset <= MAX_RECORD_OFFSET,
        ensures
            final(self).wf(),
            ({
                let (jr, ro) = ev_jump(old(self)@.storage, old(self)@.read_offset, offset as nat);
                &&& final(self)@ == (EState { read_offset: ro, ..old(self)@ })
                &&& match jr {
                    Ok(v) => r == Ok::<bool, Error>(v),
                    Err(m) => r matches Err(e) && is_assertion(e, m),
                }
            }),
    {
        let old_offset = self.read_offset;
        self.read_offset = offset;
        match self.has_start() {
            Ok(v) => {
                if !v {
                    self.read_offset = old_offset;
                    return Ok(v);
                }
            },
            Err(e) => {
                self.read_offset = old_offset;
                return Err(e);
            },
        }
        match self.has_end() {
            Ok(v) => {
                if !v {
                    self.read_offset = old_offset;
                    return Ok(v);
                }
            },
            Err(e) => {
                self.read_offset = old_offset;
                return Err(e);
            },
        }
        Ok(true)
    }

    /// The data of the record at the read offset, moving to the record
    /// after it when one starts there; `None` when no committed record
    /// starts at the read offset.
    pub fn next(&mut self) -> (r: Result<Option<Vec<u8>>, Error>)
        requires
            old(self).wf(),
            old(self)@.storage.bytes.len() < MAX_RECORD_OFFSET,
        ensures
            final(self).wf(),
            ({
                let (nr, ro) = ev_next(old(self)@.storage, old(self)@.read_offset);
                &&& final(self)@ == (EState { read_offset: ro, ..old(self)@ })
                &&& match nr {
                    Ok(Some(v)) => r matches Ok(Some(w)) && w@ == v,
                    Ok(None) => r matches Ok(None),
                    Err(m) => r matches Err(e) && is_assertion(e, m),
                }
            }),
    {
        let has_start = match self.has_start() {
            Ok(h) => h,
            Err(e) => return Err(e),
        };
        if !has_start {
            return Ok(None);
        }
        let has_end = match self.has_end() {
            Ok(h) => h,
            Err(e) => return Err(e),
        };
        if !has_end {
            return Ok(None);
        }
        let res = match self.read() {
            Ok(v) => v,
            Err(e) => return Err(e),
        };
        let new_offset = self.read_offset + 1 + 4 + res.len() as u64 + 1;
        match self.jump_to(new_offset, false) {
            Ok(_) => {},
            Err(e) => return Err(e),
        }
        Ok(Some(res))
    }

    /// The read offset.
    pub fn read_offset(&self) -> (r: u64)
        ensures
            r == self@.read_offset,
    {
        self.read_offset
    }

    /// The write offset.
    pub fn write_offset(&self) -> (r: u64)
        ensures
            r == self@.write_offset,
    {
        self.write_offset
    }

    /// The capacity of the storage (only while open).
    pub fn capacity(&self) -> (r: Result<u64, Error>)
        requires
            self.wf(),
        ensures
            self@.storage.open ==> r == Ok::<u64, Error>(self@.storage.bytes.len() as u64),
            !self@.storage.open ==> (r matches Err(e) && is_assertion(e, ERR_OPERATION_INVALID_WHEN_CLOSED@)),
    {
        self.storage.get_capacity()
    }
}

/// An event written and committed on an open journal reads back: a record
/// starts at the offset it was written at, its end byte stands where its
/// length says, it holds the data, and the transaction boundary lies just
/// past its end byte.
pub proof fn law_committed_event_is_read_back(j: EState, data: Seq<u8>, j1: EState, j2: EState)
    requires
        j.storage.open,
        j.storage.expand_size > 0,
        0 < data.len() <= u32::MAX,
        ev_write_outcome(j, data, Ok(()), j1),
        ev_commit_outcome(j1, Ok(()), j2),
        j2.storage.bytes.len() <= usize::MAX,
    ensures
        ev_start_at(j2.storage, j.write_offset as int) == Ok::<bool, Seq<char>>(true),
        ev_end_at(j2.storage, j.write_offset as int) == Ok::<bool, Seq<char>>(true),
        ev_record_at(j2.storage, j.write_offset as int) == Ok::<Seq<u8>, Seq<char>>(data),
        j2.storage.txn_boundary == j.write_offset + data.len() + 6,
{
    lemma_auto_spec_u32_to_from_le_bytes();
    let wo = j.write_offset as int;
    let n = data.len() as int;
    let rec = event_record(data);
    let len_bytes = spec_u32_to_le_bytes(n as u32);
    assert(len_bytes.len() == 4);
    assert(rec.len() == n + 5);
    let endb = seq![EVENT_END];
    let all = rec + endb;
    let s0 = j.storage;
    crate::memory_binary_storage::lemma_write_concat(s0, wo, rec, endb);
    let s2 = state_after_write(s0, wo, all);
    assert(j2.storage == StorageState { txn_boundary: (wo + n + 6) as nat, ..s2 });
    crate::util::lemma_round_up((wo + all.len()) as nat, s0.expand_size);
    assert(s2.bytes.subrange(wo, wo + all.len()) =~= all);
    let t = j2.storage;
    assert(stored(t, wo, 1) =~= all.subrange(0, 1));
    assert(stored(t, wo + 1, 4) =~= all.subrange(1, 5));
    assert(all.subrange(1, 5) =~= len_bytes);
    assert(stored(t, wo + 5, n) =~= all.subrange(5, 5 + n));
    assert(all.subrange(5, 5 + n) =~= data);
    assert(stored(t, wo + 5 + n, 1) =~= all.subrange(5 + n, 6 + n));
    assert(spec_u32_from_le_bytes(len_bytes) == n);
    assert(ev_read(t, wo, 1) == Ok::<Seq<u8>, Seq<char>>(stored(t, wo, 1)));
    assert(ev_read(t, wo + 1, 4) == Ok::<Seq<u8>, Seq<char>>(len_bytes));
    assert(ev_read(t, wo + 5 + n, 1) == Ok::<Seq<u8>, Seq<char>>(stored(t, wo + 5 + n, 1)));
    assert(ev_read(t, wo + 5, n) == Ok::<Seq<u8>, Seq<char>>(data));
}

} // verus!
