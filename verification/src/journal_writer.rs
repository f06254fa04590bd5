//! Appending records to journal memory: a record is written uncommitted,
//! then either committed (its end marker is set and the next record goes
//! after it) or discarded (its bytes go back to zero).
use vstd::prelude::*;
use crate::journal_reader::{
    END_MARKER, START_MARKER, is_record_at, journal_bytes, lemma_journal_bytes_push,
    law_committed_records_read_back, lengths_fit, record_header, records_from, size_at,
};
use crate::le_bytes::encode_u32;
use crate::util::{
    copy_into, is_power_of_2, is_power_of_two_u64, lemma_round_up, push_zeros, round_up, splice,
    zero_extend, ceil_div,
};
use vstd::bytes::*;

verus! {

/// The abstract state of a writer: its memory (when it has one) and
/// capacity, its parameters, where the next record starts, whether a record
/// is being written, the committed records and the uncommitted data.
pub struct WriterState {
    pub attached: bool,
    pub bytes: Seq<u8>,
    pub capacity: nat,
    pub expand_size: nat,
    pub align: nat,
    pub max_page_size: nat,
    pub record_offset: nat,
    pub writing: bool,
    pub records: Seq<Seq<u8>>,
    pub pending: Seq<u8>,
}

/// The parameters a writer accepts: capacity and expansion size positive
/// powers of two, the alignment a power of two no larger than the page size,
/// which is a power of two too.
pub open spec fn writer_params_ok(
    initial_capacity: int,
    expand_size: int,
    align: int,
    max_page_size: int,
) -> bool {
    &&& initial_capacity >= 1
    &&& expand_size >= 1
    &&& is_power_of_2(max_page_size)
    &&& is_power_of_2(align)
    &&& is_power_of_2(initial_capacity)
    &&& is_power_of_2(expand_size)
    &&& align <= max_page_size
}

/// The number of bytes of the record being written that are in memory.
pub open spec fn uncommitted_len(w: WriterState) -> int {
    if w.writing {
        5 + w.pending.len() as int
    } else {
        0
    }
}

/// What every writer keeps: its memory holds the committed records, then the
/// start of the record being written (its header and data), then zeros.
pub open spec fn writer_inv(w: WriterState) -> bool {
    &&& w.expand_size > 0
    &&& journal_bytes(w.records).len() == w.record_offset
    &&& !w.writing ==> w.pending.len() == 0
    &&& w.attached ==> {
        &&& w.bytes.len() == w.capacity
        &&& w.record_offset <= w.capacity
        &&& w.writing ==> w.record_offset + 6 + w.pending.len() <= w.capacity
        &&& w.bytes.subrange(0, w.record_offset as int) == journal_bytes(w.records)
        &&& w.writing ==> w.bytes.subrange(
            w.record_offset as int,
            (w.record_offset + 5 + w.pending.len()) as int,
        ) == record_header(w.pending) + w.pending
        &&& forall|i: int|
            w.record_offset + uncommitted_len(w) <= i < w.capacity ==> #[trigger] w.bytes[i] == 0u8
    }
    &&& !w.attached ==> w.capacity == 0 && w.bytes.len() == 0
}

/// The capacity a record with `data_size` bytes of data needs.
pub open spec fn needed_capacity(w: WriterState, data_size: int) -> int {
    w.record_offset + 6 + data_size
}

/// The capacity after making room for a record with `data_size` bytes of
/// data: unchanged when there is room, else the smallest multiple of the
/// expansion size that holds the record.
pub open spec fn grown_capacity(w: WriterState, data_size: int) -> nat {
    if w.capacity >= needed_capacity(w, data_size) {
        w.capacity
    } else {
        round_up(needed_capacity(w, data_size) as nat, w.expand_size)
    }
}

/// Making room for a record with `data_size` bytes of data overflows `usize`.
pub open spec fn growth_overflows(w: WriterState, data_size: int) -> bool {
    needed_capacity(w, data_size) > usize::MAX || grown_capacity(w, data_size) > usize::MAX
}

/// The writer after making room for a record with `data_size` bytes of data:
/// the new bytes are zero.
pub open spec fn writer_grown(w: WriterState, data_size: int) -> WriterState {
    WriterState {
        bytes: zero_extend(w.bytes, grown_capacity(w, data_size)),
        capacity: grown_capacity(w, data_size),
        ..w
    }
}

/// The writer after `data` is written as the uncommitted record.
pub open spec fn writer_after_write(w: WriterState, data: Seq<u8>) -> WriterState {
    let g = writer_grown(w, data.len() as int);
    WriterState {
        bytes: splice(g.bytes, w.record_offset as int, record_header(data) + data),
        writing: true,
        pending: data,
        ..g
    }
}

/// The writer after the uncommitted record is committed.
pub open spec fn writer_after_commit(w: WriterState) -> WriterState {
    WriterState {
        bytes: w.bytes.update((w.record_offset + 5 + w.pending.len()) as int, END_MARKER),
        record_offset: w.record_offset + 6 + w.pending.len(),
        writing: false,
        records: w.records.push(w.pending),
        pending: Seq::empty(),
        ..w
    }
}

/// The writer after the uncommitted record is discarded: its bytes are zero.
pub open spec fn writer_after_discard(w: WriterState) -> WriterState {
    WriterState {
        bytes: splice(
            w.bytes,
            w.record_offset as int,
            Seq::new((5 + w.pending.len()) as nat, |i: int| 0u8),
        ),
        writing: false,
        pending: Seq::empty(),
        ..w
    }
}

proof fn lemma_inv_grown(w: WriterState, data_size: int)
    requires
        writer_inv(w),
        w.attached,
        0 <= data_size,
        !growth_overflows(w, data_size),
    ensures
        writer_inv(writer_grown(w, data_size)),
        grown_capacity(w, data_size) >= needed_capacity(w, data_size),
        grown_capacity(w, data_size) >= w.capacity,
{
    let n = needed_capacity(w, data_size) as nat;
    lemma_round_up(n, w.expand_size);
    let g = writer_grown(w, data_size);
    assert(g.bytes.subrange(0, w.record_offset as int) =~= w.bytes.subrange(0, w.record_offset as int));
    if w.writing {
        assert(g.bytes.subrange(w.record_offset as int, (w.record_offset + 5 + w.pending.len()) as int)
            =~= w.bytes.subrange(w.record_offset as int, (w.record_offset + 5 + w.pending.len()) as int));
    }
    assert forall|i: int| g.record_offset + uncommitted_len(g) <= i < g.capacity implies #[trigger] g.bytes[i]
        == 0u8 by {
        if i < w.capacity {
            assert(g.bytes[i] == w.bytes[i]);
        }
    }
}

proof fn lemma_inv_after_write(w: WriterState, data: Seq<u8>)
    requires
        writer_inv(w),
        w.attached,
        !w.writing,
        !growth_overflows(w, data.len() as int),
    ensures
        writer_inv(writer_after_write(w, data)),
{
    lemma_inv_grown(w, data.len() as int);
    lemma_auto_spec_u32_to_from_le_bytes();
    let g = writer_grown(w, data.len() as int);
    let t = writer_after_write(w, data);
    let ro = w.record_offset as int;
    let h = record_header(data) + data;
    assert(h.len() == 5 + data.len());
    assert(t.bytes.subrange(0, ro) =~= g.bytes.subrange(0, ro));
    assert(t.bytes.subrange(ro, ro + 5 + data.len()) =~= h);
    assert forall|i: int| t.record_offset + uncommitted_len(t) <= i < t.capacity implies #[trigger] t.bytes[i]
        == 0u8 by {
        assert(t.bytes[i] == g.bytes[i]);
    }
}

proof fn lemma_inv_after_commit(w: WriterState)
    requires
        writer_inv(w),
        w.attached,
        w.writing,
    ensures
        writer_inv(writer_after_commit(w)),
{
    lemma_auto_spec_u32_to_from_le_bytes();
    lemma_journal_bytes_push(w.records, w.pending);
    let t = writer_after_commit(w);
    let ro = w.record_offset as int;
    let n = w.pending.len() as int;
    assert(t.bytes.subrange(0, ro) =~= w.bytes.subrange(0, ro));
    assert(t.bytes.subrange(ro, ro + 5 + n) =~= w.bytes.subrange(ro, ro + 5 + n));
    assert(t.bytes.subrange(0, ro + 6 + n) =~= w.bytes.subrange(0, ro) + (record_header(w.pending) + w.pending)
        + seq![END_MARKER]);
    assert(t.bytes.subrange(0, t.record_offset as int) =~= journal_bytes(t.records));
    assert forall|i: int| t.record_offset + uncommitted_len(t) <= i < t.capacity implies #[trigger] t.bytes[i]
        == 0u8 by {
        assert(t.bytes[i] == w.bytes[i]);
    }
}

proof fn lemma_inv_after_discard(w: WriterState)
    requires
        writer_inv(w),
        w.attached,
        w.writing,
    ensures
        writer_inv(writer_after_discard(w)),
{
    let t = writer_after_discard(w);
    let ro = w.record_offset as int;
    assert(t.bytes.subrange(0, ro) =~= w.bytes.subrange(0, ro));
    assert forall|i: int| t.record_offset + uncommitted_len(t) <= i < t.capacity implies #[trigger] t.bytes[i]
        == 0u8 by {
        if i >= ro + 5 + w.pending.len() {
            assert(t.bytes[i] == w.bytes[i]);
        }
    }
}

/// A writer of records into memory that grows in multiples of its
/// expansion size.
pub struct JournalWriter {
    storage: Option<Vec<u8>>,
    record_offset: usize,
    write_offset: usize,
    capacity: usize,
    expand_size: usize,
    align: usize,
    max_supported_page_size: usize,
    is_writing: bool,
    uncommitted_size: usize,
    records: Ghost<Seq<Seq<u8>>>,
    pending: Ghost<Seq<u8>>,
}

impl View for JournalWriter {
    type V = WriterState;

    closed spec fn view(&self) -> WriterState {
        WriterState {
            attached: self.storage is Some,
            bytes: match self.storage {
                Some(v) => v@,
                None => Seq::empty(),
            },
            capacity: self.capacity as nat,
            expand_size: self.expand_size as nat,
            align: self.align as nat,
            max_page_size: self.max_supported_page_size as nat,
            record_offset: self.record_offset as nat,
            writing: self.is_writing,
            records: self.records@,
            pending: self.pending@,
        }
    }
}

impl JournalWriter {
    /// The internal consistency of a writer.
    pub closed spec fn wf(&self) -> bool {
        &&& writer_inv(self@)
        &&& self.write_offset == self.uncommitted_size
        &&& self.uncommitted_size == uncommitted_len(self@)
    }

    /// A well-formed writer keeps the writer invariant.
    pub proof fn lemma_wf(&self)
        requires
            self.wf(),
        ensures
            writer_inv(self@),
            self@.capacity <= usize::MAX,
            self@.record_offset <= usize::MAX,
    {
    }

    /// A writer over `initial_capacity` zero bytes; `None` exactly when the
    /// parameters are refused.
    pub fn new(
        initial_capacity: usize,
        expand_size: usize,
        align: usize,
        max_supported_page_size: usize,
    ) -> (r: Option<JournalWriter>)
        ensures
            r is Some <==> writer_params_ok(
                initial_capacity as int,
                expand_size as int,
                align as int,
                max_supported_page_size as int,
            ),
            r matches Some(w) ==> {
                &&& w.wf()
                &&& w@ == WriterState {
                    attached: true,
                    bytes: Seq::new(initial_capacity as nat, |i: int| 0u8),
                    capacity: initial_capacity as nat,
                    expand_size: expand_size as nat,
                    align: align as nat,
                    max_page_size: max_supported_page_size as nat,
                    record_offset: 0,
                    writing: false,
                    records: Seq::empty(),
                    pending: Seq::empty(),
                }
            },
    {
        if !JournalWriter::check_mem_params(max_supported_page_size, align, expand_size, initial_capacity) {
            return None;
        }
        let mut data: Vec<u8> = Vec::new();
        push_zeros(&mut data, initial_capacity);
        assert(data@ =~= Seq::new(initial_capacity as nat, |i: int| 0u8));
        let w = JournalWriter {
            storage: Some(data),
            record_offset: 0,
            write_offset: 0,
            capacity: initial_capacity,
            expand_size,
            align,
            max_supported_page_size,
            is_writing: false,
            uncommitted_size: 0,
            records: Ghost(Seq::empty()),
            pending: Ghost(Seq::empty()),
        };
        assert(journal_bytes(Seq::<Seq<u8>>::empty()).len() == 0);
        assert(w@.bytes.subrange(0, 0) =~= journal_bytes(w@.records));
        Some(w)
    }

    fn check_mem_params(max_page_size: usize, align: usize, expand_size: usize, initial_capacity: usize) -> (r:
        bool)
        ensures
            r == writer_params_ok(
                initial_capacity as int,
                expand_size as int,
                align as int,
                max_page_size as int,
            ),
    {
        if initial_capacity < 1 || expand_size < 1 {
            return false;
        }
        if !is_power_of_two_u64(max_page_size as u64) {
            return false;
        }
        if !is_power_of_two_u64(align as u64) {
            return false;
        }
        if !is_power_of_two_u64(initial_capacity as u64) {
            return false;
        }
        if !is_power_of_two_u64(expand_size as u64) {
            return false;
        }
        if align > max_page_size {
            return false;
        }
        true
    }

    /// Makes room for a record with `data_size` bytes of data, growing the
    /// memory to a multiple of the expansion size (the new bytes zero);
    /// `false`, changing nothing, when the sizes overflow or the memory
    /// cannot be had.
    pub fn expand_if_needed(&mut self, data_size: usize) -> (r: bool)
        requires
            old(self).wf(),
            old(self)@.attached || growth_overflows(old(self)@, data_size as int),
        ensures
            final(self).wf(),
            !growth_overflows(old(self)@, data_size as int) && old(self)@.capacity >= needed_capacity(
                old(self)@,
                data_size as int,
            ) ==> r,
            r ==> !growth_overflows(old(self)@, data_size as int) && final(self)@ == writer_grown(
                old(self)@,
                data_size as int,
            ),
            !r ==> final(self)@ == old(self)@,
    {
        let record_size = match 6usize.checked_add(data_size) {
            Some(x) => x,
            None => return false,
        };
        let needed_capacity = match self.record_offset.checked_add(record_size) {
            Some(x) => x,
            None => return false,
        };
        if self.capacity >= needed_capacity {
            proof {
                assert(self@.bytes =~= zero_extend(self@.bytes, self@.capacity));
            }
            return true;
        }
        let q = needed_capacity / self.expand_size;
        let increments = if needed_capacity % self.expand_size == 0 {
            q
        } else {
            proof {
                assert(q < usize::MAX) by (nonlinear_arith)
                    requires
                        q == needed_capacity / self.expand_size,
                        self.expand_size > 0,
                        needed_capacity % self.expand_size != 0,
                ;
            }
            q + 1
        };
        assert(increments == ceil_div(needed_capacity as nat, self.expand_size as nat));
        let new_capacity = match increments.checked_mul(self.expand_size) {
            Some(x) => x,
            None => return false,
        };
        proof {
            lemma_inv_grown(self@, data_size as int);
        }
        let ghost before = self@;
        let mut v = match self.storage.take() {
            Some(v) => v,
            None => {
                assert(false);
                return false;
            },
        };
        let old_capacity = v.len();
        if v.try_reserve(new_capacity - old_capacity).is_err() {
            self.storage = Some(v);
            assert(self@ == before);
            return false;
        }
        push_zeros(&mut v, new_capacity - old_capacity);
        self.storage = Some(v);
        self.capacity = new_capacity;
        assert(self@.bytes =~= writer_grown(before, data_size as int).bytes);
        true
    }

    /// The memory: empty once it was let go.
    pub fn as_slice(&self) -> (r: &[u8])
        ensures
            r@ == self@.bytes,
    {
        match &self.storage {
            Some(v) => v.as_slice(),
            None => &[],
        }
    }

    /// Lets go of the memory, whose capacity becomes 0.
    pub fn forget(&mut self)
        requires
            old(self).wf(),
        ensures
            final(self).wf(),
            final(self)@ == (WriterState {
                attached: false,
                bytes: Seq::empty(),
                capacity: 0,
                ..old(self)@
            }),
    {
        self.storage = None;
        self.capacity = 0;
    }

    /// The expansion size.
    pub fn expand_size(&self) -> (r: usize)
        ensures
            r == self@.expand_size,
    {
        self.expand_size
    }

    /// The alignment.
    pub fn align(&self) -> (r: usize)
        ensures
            r == self@.align,
    {
        self.align
    }

    /// The memory, which must not have been let go.
    pub fn storage_origin(&self) -> (r: &[u8])
        requires
            self@.attached,
        ensures
            r@ == self@.bytes,
    {
        self.storage.as_ref().unwrap().as_slice()
    }

    /// The size of the memory in bytes (not the size of the records in it).
    pub fn capacity(&self) -> (r: usize)
        ensures
            r == self@.capacity,
    {
        self.capacity
    }

    /// Whether an uncommitted record has been written.
    pub fn is_writing(&self) -> (r: bool)
        ensures
            r == self@.writing,
    {
        self.is_writing
    }

    /// Writes `data` as a new uncommitted record: its start marker, its
    /// length and its data. `false`, changing nothing, when a record is
    /// already uncommitted or room for this one cannot be made.
    pub fn write(&mut self, data: &[u8]) -> (r: bool)
        requires
            old(self).wf(),
            old(self)@.attached || old(self)@.writing || growth_overflows(old(self)@, data@.len() as int),
        ensures
            final(self).wf(),
            old(self)@.writing ==> !r,
            !old(self)@.writing && !growth_overflows(old(self)@, data@.len() as int)
                && old(self)@.capacity >= needed_capacity(old(self)@, data@.len() as int) ==> r,
            r ==> !growth_overflows(old(self)@, data@.len() as int) && final(self)@ == writer_after_write(
                old(self)@,
                data@,
            ),
            !r ==> final(self)@ == old(self)@,
    {
        if self.is_writing {
            return false;
        }
        if !self.expand_if_needed(data.len()) {
            return false;
        }
        let ghost grown = self@;
        proof {
            lemma_inv_after_write(old(self)@, data@);
            lemma_auto_spec_u32_to_from_le_bytes();
        }
        let mut header: Vec<u8> = Vec::new();
        header.push(START_MARKER);
        let len_bytes = encode_u32(data.len() as u32);
        header.append(&mut len_bytes.clone());
        assert(header@ =~= record_header(data@));
        let ro = self.record_offset;
        let mut v = match self.storage.take() {
            Some(v) => v,
            None => {
                assert(false);
                return false;
            },
        };
        copy_into(&mut v, ro, header.as_slice());
        copy_into(&mut v, ro + 5, data);
        assert(v@ =~= splice(grown.bytes, ro as int, record_header(data@) + data@));
        self.storage = Some(v);
        self.is_writing = true;
        self.write_offset = 5 + data.len();
        self.uncommitted_size = 5 + data.len();
        self.pending = Ghost(data@);
        true
    }

    /// Commits the uncommitted record by setting its end marker; the next
    /// record goes after it. `false`, changing nothing, when no record is
    /// uncommitted.
    pub fn commit(&mut self) -> (r: bool)
        requires
            old(self).wf(),
            old(self)@.attached || !old(self)@.writing,
        ensures
            final(self).wf(),
            r == old(self)@.writing,
            r ==> final(self)@ == writer_after_commit(old(self)@),
            !r ==> final(self)@ == old(self)@,
    {
        if !self.is_writing {
            return false;
        }
        proof {
            lemma_inv_after_commit(self@);
        }
        let at = self.record_offset + self.write_offset;
        let mut v = match self.storage.take() {
            Some(v) => v,
            None => {
                assert(false);
                return false;
            },
        };
        v.set(at, END_MARKER);
        self.storage = Some(v);
        self.record_offset = self.record_offset + self.uncommitted_size + 1;
        self.write_offset = 0;
        self.uncommitted_size = 0;
        self.is_writing = false;
        self.records = Ghost(self.records@.push(self.pending@));
        self.pending = Ghost(Seq::empty());
        true
    }

    /// Discards the uncommitted record, setting its bytes back to zero.
    /// `false`, changing nothing, when no record is uncommitted.
    pub fn discard(&mut self) -> (r: bool)
        requires
            old(self).wf(),
            old(self)@.attached || !old(self)@.writing,
        ensures
            final(self).wf(),
            r == old(self)@.writing,
            r ==> final(self)@ == writer_after_discard(old(self)@),
            !r ==> final(self)@ == old(self)@,
    {
        if !self.is_writing {
            return false;
        }
        proof {
            lemma_inv_after_discard(self@);
        }
        let ro = self.record_offset;
        let n = self.uncommitted_size;
        let mut v = match self.storage.take() {
            Some(v) => v,
            None => {
                assert(false);
                return false;
            },
        };
        let mut zeros: Vec<u8> = Vec::new();
        push_zeros(&mut zeros, n);
        copy_into(&mut v, ro, zeros.as_slice());
        self.storage = Some(v);
        self.write_offset = 0;
        self.uncommitted_size = 0;
        self.is_writing = false;
        self.pending = Ghost(Seq::empty());
        true
    }
}

} // verus!

verus! {

/// The memory of a writer reads back as exactly its committed records, in
/// the order they were committed: the uncommitted record is not seen.
pub proof fn law_writer_records_read_back(w: WriterState)
    requires
        writer_inv(w),
        w.attached,
        lengths_fit(w.records),
        w.pending.len() <= u32::MAX,
    ensures
        records_from(w.bytes, 0) == w.records,
{
    let ro = w.record_offset as int;
    let tail = w.bytes.subrange(ro, w.bytes.len() as int);
    assert(w.bytes =~= journal_bytes(w.records) + tail);
    if w.writing {
        lemma_auto_spec_u32_to_from_le_bytes();
        let n = w.pending.len() as int;
        assert(tail.subrange(0, 5 + n) =~= w.bytes.subrange(ro, ro + 5 + n));
        assert(tail.subrange(1, 5) =~= (record_header(w.pending) + w.pending).subrange(1, 5));
        assert((record_header(w.pending) + w.pending).subrange(1, 5) =~= spec_u32_to_le_bytes(n as u32));
        assert(size_at(tail, 0) == n);
        assert(tail[5 + n] == w.bytes[ro + 5 + n]);
    } else if tail.len() > 0 {
        assert(tail[0] == w.bytes[ro]);
    }
    assert(!is_record_at(tail, 0));
    law_committed_records_read_back(w.records, tail);
}

/// Writing a record and committing it adds it to the records read back.
pub proof fn law_write_commit_read_back(w: WriterState, data: Seq<u8>)
    requires
        writer_inv(w),
        w.attached,
        !w.writing,
        !growth_overflows(w, data.len() as int),
        lengths_fit(w.records),
        data.len() <= u32::MAX,
    ensures
        records_from(writer_after_commit(writer_after_write(w, data)).bytes, 0) == w.records.push(data),
{
    let t = writer_after_write(w, data);
    lemma_inv_after_write(w, data);
    lemma_inv_after_commit(t);
    let c = writer_after_commit(t);
    assert(lengths_fit(c.records)) by {
        assert forall|i: int| 0 <= i < c.records.len() implies #[trigger] c.records[i].len() <= u32::MAX by {
            if i < w.records.len() {
                assert(c.records[i] == w.records[i]);
            }
        }
    }
    law_writer_records_read_back(c);
}

/// Discarding a written record leaves the memory as it was before the
/// write, apart from any room that the write made.
pub proof fn law_discard_undoes_write(w: WriterState, data: Seq<u8>)
    requires
        writer_inv(w),
        w.attached,
        !w.writing,
        !growth_overflows(w, data.len() as int),
    ensures
        writer_after_discard(writer_after_write(w, data)) == writer_grown(w, data.len() as int),
{
    lemma_inv_grown(w, data.len() as int);
    lemma_auto_spec_u32_to_from_le_bytes();
    let g = writer_grown(w, data.len() as int);
    let t = writer_after_write(w, data);
    let d = writer_after_discard(t);
    let ro = w.record_offset as int;
    assert forall|i: int| 0 <= i < g.bytes.len() implies d.bytes[i] == g.bytes[i] by {
        if ro <= i < ro + 5 + data.len() {
            assert(g.bytes[i] == 0u8);
        }
    }
    assert(d.bytes =~= g.bytes);
    assert(w.pending =~= Seq::<u8>::empty());
}

/// The capacity of a writer with its memory is the length of that memory,
/// and no step shrinks it: making room for a record, writing, committing and
/// discarding keep the capacity, or (making room and writing) grow it to a
/// multiple of the expansion size that holds the record. So the capacity is
/// always the initial one or such a multiple.
pub proof fn law_capacity_never_shrinks(w: WriterState, data: Seq<u8>)
    requires
        writer_inv(w),
        w.attached,
        !growth_overflows(w, data.len() as int),
    ensures
        w.bytes.len() == w.capacity,
        ({
            let g = writer_grown(w, data.len() as int);
            &&& g.capacity >= w.capacity
            &&& g.capacity >= needed_capacity(w, data.len() as int)
            &&& g.capacity == w.capacity || g.capacity % w.expand_size == 0
            &&& g.bytes.len() == g.capacity
        }),
        !w.writing ==> writer_after_write(w, data).capacity == writer_grown(w, data.len() as int).capacity
            && writer_after_write(w, data).bytes.len() == writer_after_write(w, data).capacity,
        w.writing ==> writer_after_commit(w).capacity == w.capacity && writer_after_commit(w).bytes.len()
            == w.capacity,
        w.writing ==> writer_after_discard(w).capacity == w.capacity && writer_after_discard(w).bytes.len()
            == w.capacity,
{
    lemma_inv_grown(w, data.len() as int);
    lemma_round_up(needed_capacity(w, data.len() as int) as nat, w.expand_size);
    if !w.writing {
        lemma_inv_after_write(w, data);
    } else {
        lemma_inv_after_commit(w);
        lemma_inv_after_discard(w);
    }
}

} // verus!
