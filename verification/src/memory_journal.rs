//! A journal held in memory: a writer appends records, and a read position
//! walks over the committed ones. Every operation but opening and closing
//! does nothing while the journal is closed.
use vstd::prelude::*;
use crate::journal_reader::{
    end_index, is_record_at, record_data, record_data_at, record_is_complete, record_size, size_at,
};
use crate::journal_writer::{
    JournalWriter, WriterState, growth_overflows, needed_capacity, writer_after_commit,
    writer_after_discard, writer_after_write, writer_inv, writer_params_ok,
};

verus! {

/// The alignment of the journal's memory.
pub const JOURNAL_ALIGN: usize = 1024;

/// The largest page size the journal's memory is prepared for.
pub const JOURNAL_PAGE_SIZE: usize = 1024;

/// The abstract state of an in-memory journal: whether it is open, its
/// writer, and where the next record to read starts.
pub struct JournalState {
    pub open: bool,
    pub writer: WriterState,
    pub read_offset: nat,
}

/// An in-memory journal of records.
pub struct MemoryJournal {
    writer: JournalWriter,
    read_offset: usize,
    is_open: bool,
}

impl View for MemoryJournal {
    type V = JournalState;

    closed spec fn view(&self) -> JournalState {
        JournalState { open: self.is_open, writer: self.writer@, read_offset: self.read_offset as nat }
    }
}

impl MemoryJournal {
    /// The internal consistency of a journal: its writer is consistent and
    /// holds on to its memory.
    pub closed spec fn wf(&self) -> bool {
        self.writer.wf() && self.writer@.attached
    }

    /// A well-formed journal's writer keeps the writer invariant.
    pub proof fn lemma_wf(&self)
        requires
            self.wf(),
        ensures
            writer_inv(self@.writer),
            self@.writer.attached,
    {
        self.writer.lemma_wf();
    }

    /// A closed journal over `initial_capacity` zero bytes that grows by
    /// multiples of `expand_size`; `None` exactly when the writer refuses
    /// these sizes.
    pub fn new(initial_capacity: usize, expand_size: usize) -> (r: Option<MemoryJournal>)
        ensures
            r is Some <==> writer_params_ok(
                initial_capacity as int,
                expand_size as int,
                JOURNAL_ALIGN as int,
                JOURNAL_PAGE_SIZE as int,
            ),
            r matches Some(j) ==> {
                &&& j.wf()
                &&& j@ == JournalState {
                    open: false,
                    writer: WriterState {
                        attached: true,
                        bytes: Seq::new(initial_capacity as nat, |i: int| 0u8),
                        capacity: initial_capacity as nat,
                        expand_size: expand_size as nat,
                        align: JOURNAL_ALIGN as nat,
                        max_page_size: JOURNAL_PAGE_SIZE as nat,
                        record_offset: 0,
                        writing: false,
                        records: Seq::empty(),
                        pending: Seq::empty(),
                    },
                    read_offset: 0,
                }
            },
    {
        match JournalWriter::new(initial_capacity, expand_size, JOURNAL_ALIGN, JOURNAL_PAGE_SIZE) {
            Some(writer) => Some(MemoryJournal { writer, read_offset: 0, is_open: false }),
            None => None,
        }
    }

    /// Opens the journal.
    pub fn open(&mut self)
        ensures
            final(self)@ == (JournalState { open: true, ..old(self)@ }),
    {
        self.is_open = true;
    }

    /// Closes the journal.
    pub fn close(&mut self)
        ensures
            final(self)@ == (JournalState { open: false, ..old(self)@ }),
    {
        self.is_open = false;
    }

    /// Whether the journal is open.
    pub fn is_open(&self) -> (r: bool)
        ensures
            r == self@.open,
    {
        self.is_open
    }

    /// Goes back to the first record; `false` when closed.
    pub fn reset(&mut self) -> (r: bool)
        ensures
            r == old(self)@.open,
            final(self)@ == (if r { JournalState { read_offset: 0, ..old(self)@ } } else { old(self)@ }),
    {
        if !self.is_open {
            return false;
        }
        self.read_offset = 0;
        true
    }

    /// Writes `data` as a new uncommitted record; `false`, changing nothing,
    /// when closed, when a record is already uncommitted, or when room for
    /// the record cannot be made.
    pub fn write(&mut self, data: &[u8]) -> (r: bool)
        requires
            old(self).wf(),
        ensures
            final(self).wf(),
            r ==> old(self)@.open && !old(self)@.writer.writing && final(self)@ == (JournalState {
                writer: writer_after_write(old(self)@.writer, data@),
                ..old(self)@
            }),
            old(self)@.open && !old(self)@.writer.writing && !growth_overflows(
                old(self)@.writer,
                data@.len() as int,
            ) && old(self)@.writer.capacity >= needed_capacity(old(self)@.writer, data@.len() as int)
                ==> r,
            !r ==> final(self)@ == old(self)@,
    {
        if !self.is_open {
            return false;
        }
        self.writer.write(data)
    }

    /// Commits the uncommitted record; `false`, changing nothing, when closed
    /// or when no record is uncommitted.
    pub fn commit(&mut self) -> (r: bool)
        requires
            old(self).wf(),
        ensures
            final(self).wf(),
            r == (old(self)@.open && old(self)@.writer.writing),
            final(self)@ == (if r {
                JournalState { writer: writer_after_commit(old(self)@.writer), ..old(self)@ }
            } else {
                old(self)@
            }),
    {
        if !self.is_open {
            return false;
        }
        self.writer.commit()
    }

    /// Discards the uncommitted record; `false`, changing nothing, when
    /// closed or when no record is uncommitted.
    pub fn discard(&mut self) -> (r: bool)
        requires
            old(self).wf(),
        ensures
            final(self).wf(),
            r == (old(self)@.open && old(self)@.writer.writing),
            final(self)@ == (if r {
                JournalState { writer: writer_after_discard(old(self)@.writer), ..old(self)@ }
            } else {
                old(self)@
            }),
    {
        if !self.is_open {
            return false;
        }
        self.writer.discard()
    }

    /// Moves past the committed record at the read position; `false`,
    /// staying put, when closed or when no committed record starts there.
    pub fn next(&mut self) -> (r: bool)
        requires
            old(self).wf(),
        ensures
            final(self).wf(),
            ({
                let j = old(self)@;
                r == (j.open && is_record_at(j.writer.bytes, j.read_offset as int))
            }),
            final(self)@ == (if r {
                JournalState {
                    read_offset: (end_index(old(self)@.writer.bytes, old(self)@.read_offset as int)
                        + 1) as nat,
                    ..old(self)@
                }
            } else {
                old(self)@
            }),
    {
        if !self.is_open {
            return false;
        }
        let bytes = self.writer.storage_origin();
        let off = self.read_offset;
        if !record_is_complete(bytes, off) {
            return false;
        }
        let n = bytes.len();
        let new_offset = off + 5 + record_size(bytes, off) as usize + 1;
        self.read_offset = new_offset;
        true
    }

    /// The data length of the record at the read position (0 when closed or
    /// without a start marker).
    pub fn size(&self) -> (r: u32)
        requires
            self.wf(),
        ensures
            r == (if self@.open { size_at(self@.writer.bytes, self@.read_offset as int) } else { 0 }),
    {
        if !self.is_open {
            return 0;
        }
        record_size(self.writer.storage_origin(), self.read_offset)
    }

    /// The data of the committed record at the read position, which stays
    /// where it is; `None` when closed or when no committed record starts
    /// there.
    pub fn read(&self) -> (r: Option<Vec<u8>>)
        requires
            self.wf(),
        ensures
            r is Some <==> self@.open && is_record_at(self@.writer.bytes, self@.read_offset as int),
            r matches Some(v) ==> v@ == record_data_at(self@.writer.bytes, self@.read_offset as int),
    {
        if !self.is_open {
            return None;
        }
        let bytes = self.writer.storage_origin();
        if !record_is_complete(bytes, self.read_offset) {
            return None;
        }
        Some(record_data(bytes, self.read_offset))
    }

    /// Whether an uncommitted record has been written (`false` when closed).
    pub fn is_writing(&self) -> (r: bool)
        ensures
            r == (self@.open && self@.writer.writing),
    {
        if !self.is_open {
            return false;
        }
        self.writer.is_writing()
    }

    /// The size of the journal's memory (0 when closed).
    pub fn capacity(&self) -> (r: usize)
        ensures
            r == (if self@.open { self@.writer.capacity } else { 0 }),
    {
        if !self.is_open {
            return 0;
        }
        self.writer.capacity()
    }
}

} // verus!
