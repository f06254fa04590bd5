//! A fixed-size page of bytes, as cached from a file: writes past its maximum
//! size are cut off, and reads see only the bytes up to its actual size.
use vstd::prelude::*;
use crate::util::{is_power_of_2, is_power_of_two_u64, splice};

verus! {

/// The abstract state of a page: its maximum size, how many bytes of it are
/// in use, and its bytes (as many as the maximum size).
pub struct PageState {
    pub max_size: nat,
    pub actual_size: nat,
    pub bytes: Seq<u8>,
}

/// What every page keeps: the maximum size is a power of two, the actual size
/// does not exceed it, and every byte past the actual size is zero.
pub open spec fn page_inv(s: PageState) -> bool {
    &&& is_power_of_2(s.max_size as int)
    &&& s.bytes.len() == s.max_size
    &&& s.actual_size <= s.max_size
    &&& forall|i: int| s.actual_size <= i < s.max_size ==> #[trigger] s.bytes[i] == 0u8
}

/// The smaller of two integers.
pub open spec fn min_int(a: int, b: int) -> int {
    if a < b {
        a
    } else {
        b
    }
}

/// The page after `data` is written at `offset`: the part of `data` that fits
/// below the maximum size is stored, and the actual size grows to the end of
/// the write; a write that starts past the maximum size changes nothing.
pub open spec fn page_after_write(s: PageState, offset: int, data: Seq<u8>) -> PageState {
    let end = min_int(offset + data.len(), s.max_size as int);
    if offset > end {
        s
    } else {
        PageState {
            bytes: splice(s.bytes, offset, data.subrange(0, end - offset)),
            actual_size: if end > s.actual_size { end as nat } else { s.actual_size },
            ..s
        }
    }
}

/// The bytes a read of `len` bytes at `offset` gives: those in use, from
/// `offset` up to the end of the read or the actual size, whichever is first.
pub open spec fn page_read(s: PageState, offset: int, len: int) -> Seq<u8> {
    if offset >= s.actual_size {
        Seq::empty()
    } else {
        s.bytes.subrange(offset, min_int(offset + len, s.actual_size as int))
    }
}

/// The page after truncation to `len` bytes: the bytes from `len` on become
/// zero; a length at or past the actual size changes nothing.
pub open spec fn page_after_truncate(s: PageState, len: int) -> PageState {
    if len >= s.actual_size || len >= s.max_size {
        s
    } else {
        PageState {
            actual_size: len as nat,
            bytes: s.bytes.subrange(0, len) + Seq::new((s.max_size - len) as nat, |i: int| 0u8),
            ..s
        }
    }
}

/// A page of bytes of a fixed, power-of-two maximum size.
#[derive(Debug)]
pub struct FilePage {
    data: Vec<u8>,
    max_size: u32,
    actual_size: u32,
}

impl View for FilePage {
    type V = PageState;

    closed spec fn view(&self) -> PageState {
        PageState {
            max_size: self.max_size as nat,
            actual_size: self.actual_size as nat,
            bytes: self.data@,
        }
    }
}

impl FilePage {
    /// The internal consistency of a page.
    pub open spec fn wf(&self) -> bool {
        page_inv(self@)
    }

    /// Creates a page of `max_size` zero bytes, none of them in use; `None`
    /// when `max_size` is not a power of two or the memory cannot be had.
    pub fn new(max_size: u32) -> (r: Option<FilePage>)
        ensures
            !is_power_of_2(max_size as int) ==> r is None,
            r matches Some(p) ==> {
                &&& p.wf()
                &&& p@ == PageState {
                    max_size: max_size as nat,
                    actual_size: 0,
                    bytes: Seq::new(max_size as nat, |i: int| 0u8),
                }
            },
    {
        if !FilePage::check_mem_params(max_size) {
            return None;
        }
        let mut data: Vec<u8> = Vec::new();
        let reserved = data.try_reserve(max_size as usize).is_ok();
        FilePage::from_reserved(max_size, data, reserved)
    }

    /// The page built in `data`, an empty vector in which room for
    /// `max_size` bytes was reserved when `reserved` holds: `None` when the
    /// reservation failed, otherwise `max_size` zero bytes, none in use.
    fn from_reserved(max_size: u32, data: Vec<u8>, reserved: bool) -> (r: Option<FilePage>)
        requires
            is_power_of_2(max_size as int),
            data@.len() == 0,
        ensures
            r is Some <==> reserved,
            r matches Some(p) ==> {
                &&& p.wf()
                &&& p@ == PageState {
                    max_size: max_size as nat,
                    actual_size: 0,
                    bytes: Seq::new(max_size as nat, |i: int| 0u8),
                }
            },
    {
        if !reserved {
            return None;
        }
        let n = max_size as usize;
        let mut data = data;
        let mut i: usize = 0;
        while i < n
            invariant
                i <= n,
                data@ == Seq::new(i as nat, |j: int| 0u8),
            decreases n - i,
        {
            data.push(0u8);
            i += 1;
            assert(data@ =~= Seq::new(i as nat, |j: int| 0u8));
        }
        Some(FilePage { data, max_size, actual_size: 0 })
    }

    fn check_mem_params(max_size: u32) -> (r: bool)
        ensures
            r == is_power_of_2(max_size as int),
    {
        is_power_of_two_u64(max_size as u64)
    }

    /// Writes the part of `data` that fits below the maximum size at `offset`.
    pub fn write(&mut self, offset: u32, data: &[u8])
        requires
            old(self).wf(),
            offset + data@.len() <= usize::MAX,
        ensures
            final(self).wf(),
            final(self)@ == page_after_write(old(self)@, offset as int, data@),
    {
        let c_offset = offset as usize;
        let c_max_size = self.max_size as usize;
        let sum = c_offset + data.len();
        let end_offset = if sum < c_max_size { sum } else { c_max_size };
        if c_offset > end_offset {
            return;
        }
        let trunc_len = end_offset - c_offset;
        let ghost before = self.data@;
        let mut i: usize = 0;
        while i < trunc_len
            invariant
                trunc_len == end_offset - c_offset,
                end_offset <= before.len(),
                trunc_len <= data@.len(),
                before == old(self)@.bytes,
                old(self).wf(),
                self.max_size == old(self).max_size,
                self.actual_size == old(self).actual_size,
                self.data@.len() == before.len(),
                i <= trunc_len,
                forall|j: int| 0 <= j < c_offset ==> self.data@[j] == before[j],
                forall|j: int| c_offset + i <= j < before.len() ==> self.data@[j] == before[j],
                forall|j: int| c_offset <= j < c_offset + i ==> self.data@[j] == data@[j - c_offset],
            decreases trunc_len - i,
        {
            self.data.set(c_offset + i, data[i]);
            i += 1;
        }
        assert(self.data@ =~= splice(before, offset as int, data@.subrange(0, trunc_len as int)));
        let new_size = end_offset as u32;
        if new_size > self.actual_size {
            self.actual_size = new_size;
        }
    }

    /// Reads up to `len` bytes at `offset`, stopping at the actual size.
    pub fn read(&self, offset: u32, len: u32) -> (r: Vec<u8>)
        requires
            self.wf(),
            offset + len <= u32::MAX,
        ensures
            r@ == page_read(self@, offset as int, len as int),
    {
        if offset >= self.actual_size {
            return Vec::new();
        }
        let sum = offset + len;
        let end_offset = if sum < self.actual_size { sum } else { self.actual_size };
        let mut dst: Vec<u8> = Vec::new();
        let mut i: usize = offset as usize;
        while i < end_offset as usize
            invariant
                offset <= i <= end_offset,
                end_offset <= self.data@.len(),
                dst@ == self.data@.subrange(offset as int, i as int),
            decreases end_offset - i,
        {
            dst.push(self.data[i]);
            i += 1;
            assert(dst@ =~= self.data@.subrange(offset as int, i as int));
        }
        dst
    }

    /// Cuts the bytes in use down to `len`, zeroing every byte from `len` on.
    pub fn truncate(&mut self, len: u32)
        requires
            old(self).wf(),
        ensures
            final(self).wf(),
            final(self)@ == page_after_truncate(old(self)@, len as int),
    {
        if len >= self.actual_size {
            return;
        }
        if len >= self.max_size {
            return;
        }
        self.actual_size = len;
        let ghost before = self.data@;
        let mut i: usize = len as usize;
        while i < self.max_size as usize
            invariant
                len <= i <= self.max_size,
                self.max_size == old(self).max_size,
                self.actual_size == len,
                before == old(self)@.bytes,
                before.len() == self.max_size,
                self.data@.len() == before.len(),
                old(self).wf(),
                forall|j: int| 0 <= j < len ==> self.data@[j] == before[j],
                forall|j: int| len <= j < i ==> self.data@[j] == 0u8,
                forall|j: int| i <= j < before.len() ==> self.data@[j] == before[j],
            decreases self.max_size - i,
        {
            self.data.set(i, 0u8);
            i += 1;
        }
        assert(self.data@ =~= before.subrange(0, len as int) + Seq::new(
            (self.max_size - len) as nat,
            |i: int| 0u8,
        ));
    }

    /// The maximum size.
    pub fn get_max_size(&self) -> (r: u32)
        ensures
            r == self@.max_size,
    {
        self.max_size
    }

    /// The number of bytes in use.
    pub fn get_actual_size(&self) -> (r: u32)
        ensures
            r == self@.actual_size,
    {
        self.actual_size
    }
}

} // verus!

verus! {

/// Writing and truncating keep the page invariant: in particular every byte
/// past the actual size stays zero, so bytes that were never written, or that
/// were cut off, read as zero once the page grows over them again.
pub proof fn law_page_invariant_kept(s: PageState, offset: int, data: Seq<u8>, len: int)
    requires
        page_inv(s),
        0 <= offset,
        0 <= len,
    ensures
        page_inv(page_after_write(s, offset, data)),
        page_inv(page_after_truncate(s, len)),
{
    let t = page_after_write(s, offset, data);
    let end = min_int(offset + data.len(), s.max_size as int);
    if offset <= end {
        assert forall|i: int| t.actual_size <= i < t.max_size implies #[trigger] t.bytes[i] == 0u8 by {
            assert(t.bytes[i] == s.bytes[i]);
        }
    }
}

/// A write that fits below the maximum size reads back as written.
pub proof fn law_page_write_then_read(s: PageState, offset: int, data: Seq<u8>)
    requires
        page_inv(s),
        0 <= offset,
        offset + data.len() <= s.max_size,
    ensures
        page_read(page_after_write(s, offset, data), offset, data.len() as int) == data,
{
    let t = page_after_write(s, offset, data);
    assert(data.subrange(0, data.len() as int) =~= data);
    if data.len() > 0 {
        assert(page_read(t, offset, data.len() as int) =~= data);
    }
}

} // verus!
