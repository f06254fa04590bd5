//! An index of pointers kept as records of a journal, each pointer a
//! little-endian `u64`.
use vstd::prelude::*;
use vstd::bytes::*;
use crate::error::{AssertionError, Error, is_assertion};
use crate::journal::{
    JState, Journal, MAX_RECORD_OFFSET, POST_DATA_LEN, PRE_DATA_LEN, journal_commit_outcome,
    journal_write_outcome, next_step, unit_result, verify_result,
};
use crate::le_bytes::{cursor_read_u64, encode_u64};
use crate::memory_binary_storage::StorageState;
use crate::transactional_storage::TxnState;

verus! {

pub const ERR_NOT_INDEXED: &'static str = "Record is not present in index";

/// The abstract state of a pointer index: its journal and how many pointers
/// it counts.
pub struct PtrState {
    pub journal: JState,
    pub record_count: nat,
}

/// The outcome of appending `value`: it is written as a record and the
/// record is committed (the commit is tried even when the write failed); the
/// write's error, else the commit's result, is reported.
pub open spec fn append_outcome(j: JState, value: u64, r: Result<(), Error>, j2: JState) -> bool {
    exists|j1: JState, r1: Result<(), Error>, r2: Result<(), Error>|
        {
            &&& #[trigger] journal_write_outcome(j, spec_u64_to_le_bytes(value), r1, j1)
            &&& #[trigger] journal_commit_outcome(j1, r2, j2)
            &&& r == (if r1 is Err { r1 } else { r2 })
        }
}

/// A pointer index over a journal.
pub struct PtrIndex {
    journal: Journal,
    record_count: u64,
}

impl View for PtrIndex {
    type V = PtrState;

    closed spec fn view(&self) -> PtrState {
        PtrState { journal: self.journal@, record_count: self.record_count as nat }
    }
}

impl PtrIndex {
    /// The internal consistency of an index: its journal is consistent, and
    /// its count stays at 0 (appending does not count).
    pub closed spec fn wf(&self) -> bool {
        self.journal.wf() && self.record_count == 0
    }

    /// Facts that every well-formed index has.
    pub proof fn lemma_wf(&self)
        requires
            self.wf(),
        ensures
            self@.record_count == 0,
            !self@.journal.writing ==> self@.journal.uncommitted == 0,
            self@.journal.storage.inner.expand_size > 0,
    {
        self.journal.lemma_wf();
    }

    /// An index over `journal`, counting no pointers.
    pub fn new(journal: Journal) -> (r: PtrIndex)
        requires
            journal.wf(),
        ensures
            r.wf(),
            r@ == (PtrState { journal: journal@, record_count: 0 }),
    {
        PtrIndex { journal, record_count: 0 }
    }

    /// Opens the journal (which checks its records).
    pub fn open(&mut self) -> (r: Result<(), Error>)
        requires
            old(self).wf(),
            old(self)@.journal.storage.inner.bytes.len() <= MAX_RECORD_OFFSET,
        ensures
            final(self).wf(),
            ({
                let j = old(self)@.journal;
                let j1 = JState {
                    storage: TxnState { inner: StorageState { open: true, ..j.storage.inner }, ..j.storage },
                    ..j
                };
                &&& final(self)@ == (PtrState { journal: verify_result(j1).1, ..old(self)@ })
                &&& j.storage.inner.open ==> r is Err
                &&& !j.storage.inner.open ==> unit_result(r, verify_result(j1).0)
            }),
    {
        self.journal.open()
    }

    /// Closes the journal.
    pub fn close(&mut self) -> (r: Result<(), Error>)
        requires
            old(self).wf(),
        ensures
            final(self).wf(),
            r is Ok <==> old(self)@.journal.storage.inner.open,
            !old(self)@.journal.storage.inner.open ==> final(self)@ == old(self)@,
            old(self)@.journal.storage.inner.open ==> final(self)@ == (PtrState {
                journal: JState {
                    storage: TxnState {
                        inner: StorageState { open: false, ..old(self)@.journal.storage.inner },
                        ..old(self)@.journal.storage
                    },
                    read_offset: 0,
                    write_offset: 0,
                    writing: false,
                    uncommitted: 0,
                    record_count: 0,
                },
                ..old(self)@
            }),
    {
        self.journal.close()
    }

    /// Checks the journal's records.
    pub fn verify(&mut self) -> (r: Result<(), Error>)
        requires
            old(self).wf(),
            old(self)@.journal.storage.inner.bytes.len() <= MAX_RECORD_OFFSET,
        ensures
            final(self).wf(),
            unit_result(r, verify_result(old(self)@.journal).0),
            final(self)@ == (PtrState { journal: verify_result(old(self)@.journal).1, ..old(self)@ }),
    {
        self.journal.verify()
    }

    /// Appends `value` as a committed record.
    pub fn append(&mut self, value: u64) -> (r: Result<(), Error>)
        requires
            old(self).wf(),
            old(self)@.journal.writing ==> old(self)@.journal.uncommitted <= old(self)@.journal.write_offset,
            old(self)@.journal.record_count < u64::MAX,
        ensures
            final(self).wf(),
            final(self)@.record_count == old(self)@.record_count,
            append_outcome(old(self)@.journal, value, r, final(self)@.journal),
    {
        let buf = encode_u64(value);
        let r1 = self.journal.write(buf.as_slice());
        let ghost j1 = self.journal@;
        let ghost g1 = r1;
        let r2 = self.journal.commit();
        let ghost g2 = r2;
        let res = match r1 {
            Err(e) => Err(e),
            Ok(()) => r2,
        };
        assert(journal_write_outcome(old(self)@.journal, spec_u64_to_le_bytes(value), g1, j1));
        assert(journal_commit_outcome(j1, g2, self.journal@));
        res
    }

    /// The pointer at position `n`: refused unless the index counts more
    /// than `n` pointers.
    pub fn get(&mut self, n: u64) -> (r: Result<u64, Error>)
        requires
            old(self).wf(),
        ensures
            final(self).wf(),
            old(self)@.record_count <= n ==> (r matches Err(e) && is_assertion(e, ERR_NOT_INDEXED@)),
            old(self)@.record_count <= n ==> final(self)@ == old(self)@,
    {
        match AssertionError::assert_true(self.record_count > n, ERR_NOT_INDEXED) {
            Ok(()) => {},
            Err(e) => return Err(Error::Assertion(e)),
        }
        match self.journal.jump_to((PRE_DATA_LEN + 16 + POST_DATA_LEN) * n) {
            Ok(()) => {},
            Err(e) => return Err(e),
        }
        match self.journal.read() {
            Ok(data) => match cursor_read_u64(data.as_slice(), 0) {
                Ok(v) => Ok(v),
                Err(t) => Err(Error::Io(t)),
            },
            Err(e) => Err(e),
        }
    }

    /// The number of pointers counted.
    pub fn record_count(&self) -> (r: u64)
        ensures
            r == self@.record_count,
    {
        self.record_count
    }

    /// The pointer in the record at the journal's read offset, moving past
    /// the record; `None` when the iteration finds no record there or the
    /// record holds fewer than eight bytes.
    pub fn next(&mut self) -> (r: Option<u64>)
        requires
            old(self).wf(),
            old(self)@.journal.storage.inner.bytes.len() <= MAX_RECORD_OFFSET,
        ensures
            final(self).wf(),
            match next_step(old(self)@.journal.storage, old(self)@.journal.read_offset as int) {
                Some((v, next)) => {
                    &&& final(self)@ == (PtrState {
                        journal: JState { read_offset: next as nat, ..old(self)@.journal },
                        ..old(self)@
                    })
                    &&& (if v.len() >= 8 {
                        r == Some(spec_u64_from_le_bytes(v.subrange(0, 8)))
                    } else {
                        r is None
                    })
                },
                None => r is None && final(self)@ == old(self)@,
            },
    {
        match self.journal.next() {
            Some(data) => match cursor_read_u64(data.as_slice(), 0) {
                Ok(v) => Some(v),
                Err(_) => None,
            },
            None => None,
        }
    }
}

} // verus!
