//! Reading length-prefixed records out of journal memory.
//!
//! A record is a start marker (0x02), the length of its data as a
//! little-endian `u32`, the data, and an end marker (0x03). A record counts
//! only once its end marker is in place, that is once it was committed.
use vstd::prelude::*;
use vstd::bytes::*;
use crate::le_bytes::decode_u32;

verus! {

/// The byte that opens a record.
pub const START_MARKER: u8 = 0x02;

/// The byte that closes a committed record.
pub const END_MARKER: u8 = 0x03;

/// The start marker and the length field that precede a record's data.
pub open spec fn record_header(data: Seq<u8>) -> Seq<u8> {
    seq![START_MARKER] + spec_u32_to_le_bytes(data.len() as u32)
}

/// The bytes of a committed record holding `data`.
pub open spec fn encode_record(data: Seq<u8>) -> Seq<u8> {
    record_header(data) + data + seq![END_MARKER]
}

/// The bytes of the committed records `records`, one after the other.
pub open spec fn journal_bytes(records: Seq<Seq<u8>>) -> Seq<u8>
    decreases records.len(),
{
    if records.len() == 0 {
        Seq::empty()
    } else {
        encode_record(records[0]) + journal_bytes(records.drop_first())
    }
}

/// Every record's data is short enough for its length field.
pub open spec fn lengths_fit(records: Seq<Seq<u8>>) -> bool {
    forall|i: int| 0 <= i < records.len() ==> #[trigger] records[i].len() <= u32::MAX
}

/// A start marker stands at `off`.
pub open spec fn has_start_at(bytes: Seq<u8>, off: int) -> bool {
    0 <= off < bytes.len() && bytes[off] == START_MARKER
}

/// The data length of the record at `off`: 0 without a start marker or a
/// complete length field.
pub open spec fn size_at(bytes: Seq<u8>, off: int) -> u32 {
    if has_start_at(bytes, off) && off + 5 <= bytes.len() {
        spec_u32_from_le_bytes(bytes.subrange(off + 1, off + 5))
    } else {
        0
    }
}

/// Where the end marker of the record at `off` belongs.
pub open spec fn end_index(bytes: Seq<u8>, off: int) -> int {
    off + 5 + size_at(bytes, off)
}

/// An end marker stands where the record at `off` ends.
pub open spec fn has_end_at(bytes: Seq<u8>, off: int) -> bool {
    0 <= end_index(bytes, off) < bytes.len() && bytes[end_index(bytes, off)] == END_MARKER
}

/// A committed record starts at `off`.
pub open spec fn is_record_at(bytes: Seq<u8>, off: int) -> bool {
    has_start_at(bytes, off) && has_end_at(bytes, off)
}

/// The data of the record at `off`.
pub open spec fn record_data_at(bytes: Seq<u8>, off: int) -> Seq<u8> {
    bytes.subrange(off + 5, end_index(bytes, off))
}

/// The data of the committed records read one after the other from `off`,
/// up to the first place where no committed record starts.
pub open spec fn records_from(bytes: Seq<u8>, off: int) -> Seq<Seq<u8>>
    decreases bytes.len() - off,
{
    if is_record_at(bytes, off) {
        seq![record_data_at(bytes, off)] + records_from(bytes, end_index(bytes, off) + 1)
    } else {
        Seq::empty()
    }
}

/// Whether a start marker stands at `off`.
pub fn record_has_start(bytes: &[u8], off: usize) -> (r: bool)
    ensures
        r == has_start_at(bytes@, off as int),
{
    off < bytes.len() && bytes[off] == START_MARKER
}

/// The data length of the record at `off` (0 without a start marker).
pub fn record_size(bytes: &[u8], off: usize) -> (r: u32)
    ensures
        r == size_at(bytes@, off as int),
{
    if !record_has_start(bytes, off) || bytes.len() - off < 5 {
        return 0;
    }
    let field = slice_range(bytes, off + 1, off + 5);
    assert(field@.subrange(0, 4) =~= field@);
    decode_u32(field.as_slice())
}

/// Whether an end marker stands where the record at `off` ends.
pub fn record_has_end(bytes: &[u8], off: usize) -> (r: bool)
    ensures
        r == has_end_at(bytes@, off as int),
{
    let size = record_size(bytes, off);
    if off >= bytes.len() || bytes.len() - off <= 5 {
        return false;
    }
    let room = bytes.len() - off - 5;
    if size as usize >= room {
        return false;
    }
    bytes[off + 5 + size as usize] == END_MARKER
}

/// Whether a committed record starts at `off`.
pub fn record_is_complete(bytes: &[u8], off: usize) -> (r: bool)
    ensures
        r == is_record_at(bytes@, off as int),
{
    record_has_start(bytes, off) && record_has_end(bytes, off)
}

/// The bytes of `bytes` in `[lo, hi)`.
fn slice_range(bytes: &[u8], lo: usize, hi: usize) -> (r: Vec<u8>)
    requires
        lo <= hi <= bytes@.len(),
    ensures
        r@ == bytes@.subrange(lo as int, hi as int),
{
    let mut out: Vec<u8> = Vec::new();
    let mut i: usize = lo;
    while i < hi
        invariant
            lo <= i <= hi <= bytes@.len(),
            out@ == bytes@.subrange(lo as int, i as int),
        decreases hi - i,
    {
        out.push(bytes[i]);
        i += 1;
        assert(out@ =~= bytes@.subrange(lo as int, i as int));
    }
    out
}

/// The data of the committed record at `off`.
pub fn record_data(bytes: &[u8], off: usize) -> (r: Vec<u8>)
    requires
        is_record_at(bytes@, off as int),
    ensures
        r@ == record_data_at(bytes@, off as int),
{
    let size = record_size(bytes, off);
    let n = bytes.len();
    slice_range(bytes, off + 5, off + 5 + size as usize)
}

/// The abstract state of a reader: its memory (when it has one), where the
/// record it stands on starts, and the capacity and alignment it was told.
pub struct ReaderState {
    pub attached: bool,
    pub bytes: Seq<u8>,
    pub record_offset: nat,
    pub capacity: nat,
    pub align: nat,
}

/// A cursor over the records of journal memory.
#[derive(Debug)]
pub struct JournalReader {
    storage: Option<Vec<u8>>,
    record_offset: usize,
    capacity: usize,
    align: usize,
}

impl View for JournalReader {
    type V = ReaderState;

    closed spec fn view(&self) -> ReaderState {
        ReaderState {
            attached: self.storage is Some,
            bytes: match self.storage {
                Some(v) => v@,
                None => Seq::empty(),
            },
            record_offset: self.record_offset as nat,
            capacity: self.capacity as nat,
            align: self.align as nat,
        }
    }
}

impl JournalReader {
    /// A reader over `storage`, standing on its first record.
    pub fn new(storage: Vec<u8>, initial_capacity: usize, align: usize) -> (r: JournalReader)
        ensures
            r@ == (ReaderState {
                attached: true,
                bytes: storage@,
                record_offset: 0,
                capacity: initial_capacity as nat,
                align: align as nat,
            }),
    {
        JournalReader { storage: Some(storage), record_offset: 0, capacity: initial_capacity, align }
    }

    /// Lets go of the memory; nothing can be read afterwards.
    pub fn forget(&mut self)
        ensures
            final(self)@ == (ReaderState { attached: false, bytes: Seq::empty(), ..old(self)@ }),
    {
        self.storage = None;
    }

    fn storage(&self) -> (r: &[u8])
        requires
            self@.attached,
        ensures
            r@ == self@.bytes,
    {
        match &self.storage {
            Some(v) => v.as_slice(),
            None => {
                assert(false);
                &[]
            },
        }
    }

    /// The capacity the reader was told.
    pub fn capacity(&self) -> (r: usize)
        ensures
            r == self@.capacity,
    {
        self.capacity
    }

    /// The alignment the reader was told.
    pub fn align(&self) -> (r: usize)
        ensures
            r == self@.align,
    {
        self.align
    }

    /// Replaces the memory after the journal moved to a larger one.
    pub fn storage_reallocated(&mut self, new_storage: Vec<u8>, new_capacity: usize)
        ensures
            final(self)@ == (ReaderState {
                attached: true,
                bytes: new_storage@,
                capacity: new_capacity as nat,
                ..old(self)@
            }),
    {
        self.storage = Some(new_storage);
        self.capacity = new_capacity;
    }

    /// Goes back to the first record.
    pub fn reset(&mut self)
        ensures
            final(self)@ == (ReaderState { record_offset: 0, ..old(self)@ }),
    {
        self.record_offset = 0;
    }

    /// Moves to `offset` and reports whether a committed record starts there;
    /// when none does and `back_on_fail` is set, stays where it was.
    pub fn jump_to(&mut self, offset: usize, back_on_fail: bool) -> (r: bool)
        requires
            old(self)@.attached,
        ensures
            r == is_record_at(old(self)@.bytes, offset as int),
            final(self)@ == (ReaderState {
                record_offset: if r || !back_on_fail { offset as nat } else { old(self)@.record_offset },
                ..old(self)@
            }),
    {
        let old_offset = self.record_offset;
        self.record_offset = offset;
        if record_is_complete(self.storage(), offset) {
            true
        } else {
            if back_on_fail {
                self.record_offset = old_offset;
            }
            false
        }
    }

    /// Whether a start marker stands at the current position.
    pub fn has_start(&self) -> (r: bool)
        requires
            self@.attached,
        ensures
            r == has_start_at(self@.bytes, self@.record_offset as int),
    {
        record_has_start(self.storage(), self.record_offset)
    }

    /// Whether the record at the current position has its end marker.
    pub fn has_end(&self) -> (r: bool)
        requires
            self@.attached,
        ensures
            r == has_end_at(self@.bytes, self@.record_offset as int),
    {
        record_has_end(self.storage(), self.record_offset)
    }

    /// The data length of the record at the current position (0 without a
    /// start marker).
    pub fn size(&self) -> (r: u32)
        requires
            self@.attached,
        ensures
            r == size_at(self@.bytes, self@.record_offset as int),
    {
        record_size(self.storage(), self.record_offset)
    }

    /// The data of the committed record at the current position, moving on
    /// to the record after it; `None`, staying put, when no committed record
    /// starts here.
    pub fn next(&mut self) -> (r: Option<Vec<u8>>)
        requires
            old(self)@.attached,
        ensures
            ({
                let b = old(self)@.bytes;
                let off = old(self)@.record_offset as int;
                if is_record_at(b, off) {
                    &&& r matches Some(v) && v@ == record_data_at(b, off)
                    &&& final(self)@ == (ReaderState {
                        record_offset: (end_index(b, off) + 1) as nat,
                        ..old(self)@
                    })
                } else {
                    r is None && final(self)@ == old(self)@
                }
            }),
    {
        let off = self.record_offset;
        if !record_is_complete(self.storage(), off) {
            return None;
        }
        let res = record_data(self.storage(), off);
        let n = self.storage().len();
        let new_offset = off + 5 + record_size(self.storage(), off) as usize + 1;
        self.jump_to(new_offset, false);
        Some(res)
    }

    /// The number of committed records from the current position on.
    #[verifier::loop_isolation(false)]
    pub fn count(self) -> (r: usize)
        requires
            self@.attached,
        ensures
            r == records_from(self@.bytes, self@.record_offset as int).len(),
    {
        let mut reader = self;
        let ghost b = reader@.bytes;
        let ghost start = reader@.record_offset as int;
        let mut n: usize = 0;
        loop
            invariant
                reader@.attached,
                reader@.bytes == b,
                start <= reader@.record_offset,
                n <= reader@.record_offset - start,
                n + records_from(b, reader@.record_offset as int).len() == records_from(b, start).len(),
            decreases b.len() + 1 - reader@.record_offset,
        {
            let ghost off = reader@.record_offset as int;
            match reader.next() {
                Some(_) => {
                    assert(records_from(b, off) == seq![record_data_at(b, off)] + records_from(
                        b,
                        end_index(b, off) + 1,
                    ));
                    n += 1;
                },
                None => {
                    assert(records_from(b, off).len() == 0);
                    return n;
                },
            }
        }
    }

    /// The data of the last committed record from the current position on.
    #[verifier::loop_isolation(false)]
    pub fn last(self) -> (r: Option<Vec<u8>>)
        requires
            self@.attached,
        ensures
            ({
                let rs = records_from(self@.bytes, self@.record_offset as int);
                &&& r is None <==> rs.len() == 0
                &&& r matches Some(v) ==> v@ == rs.last()
            }),
    {
        let mut reader = self;
        let ghost b = reader@.bytes;
        let ghost start = reader@.record_offset as int;
        let mut res: Option<Vec<u8>> = None;
        loop
            invariant
                reader@.attached,
                reader@.bytes == b,
                start <= reader@.record_offset,
                ({
                    let rs = records_from(b, start);
                    let rest = records_from(b, reader@.record_offset as int);
                    &&& res is None <==> rs.len() == rest.len()
                    &&& rs.len() >= rest.len()
                    &&& rest =~= rs.subrange(rs.len() - rest.len(), rs.len() as int)
                    &&& res matches Some(v) ==> v@ == rs[rs.len() - rest.len() - 1]
                }),
            decreases b.len() + 1 - reader@.record_offset,
        {
            let ghost off = reader@.record_offset as int;
            match reader.next() {
                Some(v) => {
                    let ghost rs = records_from(b, start);
                    let ghost rest_old = records_from(b, off);
                    let ghost rest_new = records_from(b, reader@.record_offset as int);
                    let ghost k = rs.len() - rest_old.len();
                    assert(rest_old == seq![record_data_at(b, off)] + rest_new);
                    assert(rest_old[0] == rs.subrange(k, rs.len() as int)[0]);
                    assert forall|i: int| 0 <= i < rest_new.len() implies rest_new[i] == rs[k + 1 + i] by {
                        assert(rest_new[i] == rest_old[i + 1]);
                        assert(rest_old[i + 1] == rs.subrange(k, rs.len() as int)[i + 1]);
                    }
                    assert(rest_new =~= rs.subrange(k + 1, rs.len() as int));
                    res = Some(v);
                },
                None => {
                    assert(records_from(b, off).len() == 0);
                    return res;
                },
            }
        }
    }
}

} // verus!

verus! {

/// The bytes of a committed record, found at `off`, read back as that record.
pub proof fn lemma_record_at(b: Seq<u8>, off: int, data: Seq<u8>)
    requires
        0 <= off,
        data.len() <= u32::MAX,
        off + encode_record(data).len() <= b.len(),
        b.subrange(off, off + encode_record(data).len()) == encode_record(data),
    ensures
        is_record_at(b, off),
        size_at(b, off) == data.len(),
        record_data_at(b, off) == data,
        end_index(b, off) + 1 == off + encode_record(data).len(),
{
    let e = encode_record(data);
    lemma_auto_spec_u32_to_from_le_bytes();
    assert(b[off] == e[0]);
    assert(b.subrange(off + 1, off + 5) =~= e.subrange(1, 5));
    assert(e.subrange(1, 5) =~= spec_u32_to_le_bytes(data.len() as u32));
    assert(size_at(b, off) == data.len());
    assert(b[off + 5 + data.len()] == e[5 + data.len() as int]);
    assert(b.subrange(off + 5, off + 5 + data.len()) =~= e.subrange(5, 5 + data.len() as int));
    assert(e.subrange(5, 5 + data.len() as int) =~= data);
}

/// Reading is unaffected by bytes before the starting point.
pub proof fn lemma_records_shift(p: Seq<u8>, t: Seq<u8>, off: int)
    requires
        0 <= off,
    ensures
        is_record_at(p + t, p.len() + off) == is_record_at(t, off),
        records_from(p + t, p.len() + off) == records_from(t, off),
    decreases t.len() - off,
{
    let b = p + t;
    let o = p.len() + off;
    assert(has_start_at(b, o) == has_start_at(t, off));
    if has_start_at(t, off) && off + 5 <= t.len() {
        assert(b.subrange(o + 1, o + 5) =~= t.subrange(off + 1, off + 5));
    }
    assert(size_at(b, o) == size_at(t, off));
    assert(end_index(b, o) == p.len() + end_index(t, off));
    assert(has_end_at(b, o) == has_end_at(t, off));
    if is_record_at(t, off) {
        assert(record_data_at(b, o) =~= record_data_at(t, off));
        lemma_records_shift(p, t, end_index(t, off) + 1);
    }
}

/// Committed records, whatever follows them, read back as those records in
/// the order they were written, provided that no committed record starts
/// right after them and every record's length fits its length field.
pub proof fn law_committed_records_read_back(records: Seq<Seq<u8>>, tail: Seq<u8>)
    requires
        lengths_fit(records),
        !is_record_at(tail, 0),
    ensures
        records_from(journal_bytes(records) + tail, 0) == records,
    decreases records.len(),
{
    let b = journal_bytes(records) + tail;
    if records.len() == 0 {
        assert(b =~= tail);
    } else {
        let e = encode_record(records[0]);
        let rest = records.drop_first();
        let t = journal_bytes(rest) + tail;
        assert(b =~= e + t);
        assert(records[0].len() <= u32::MAX);
        assert(b.subrange(0, e.len() as int) =~= e);
        lemma_record_at(b, 0, records[0]);
        lemma_records_shift(e, t, 0);
        assert(lengths_fit(rest)) by {
            assert forall|i: int| 0 <= i < rest.len() implies #[trigger] rest[i].len() <= u32::MAX by {
                assert(rest[i] == records[i + 1]);
            }
        }
        law_committed_records_read_back(rest, tail);
        assert(records_from(b, 0) =~= seq![records[0]] + rest);
        assert(seq![records[0]] + rest =~= records);
    }
}

/// The bytes of records followed by one more record are the bytes of the
/// records followed by that record's bytes.
pub proof fn lemma_journal_bytes_push(records: Seq<Seq<u8>>, data: Seq<u8>)
    ensures
        journal_bytes(records.push(data)) == journal_bytes(records) + encode_record(data),
    decreases records.len(),
{
    if records.len() == 0 {
        let one = records.push(data);
        assert(one.drop_first() =~= Seq::<Seq<u8>>::empty());
        assert(journal_bytes(one.drop_first()).len() == 0);
        assert(journal_bytes(one) =~= encode_record(data));
        assert(journal_bytes(records) + encode_record(data) =~= encode_record(data));
    } else {
        let rest = records.drop_first();
        assert(records.push(data).drop_first() =~= rest.push(data));
        lemma_journal_bytes_push(rest, data);
        assert(journal_bytes(records.push(data)) =~= journal_bytes(records) + encode_record(data));
    }
}

} // verus!
