//! A cache of fixed-size pages of a file. Pages are loaded on a read miss,
//! kept in insertion order, evicted oldest first once the cache is full,
//! kept in step with writes to the file, and cut back when the file shrinks.
//! The file itself is read by the caller, who hands the bytes of a missing
//! page to `read_from_page`.
use vstd::prelude::*;
use crate::binary_storage::ERR_STORAGE_ALLOC;
use crate::error::{Error, MemoryError};
use crate::util::is_power_of_2;
use vstd::slice::slice_subrange;
use crate::file_page::{
    FilePage, PageState, law_page_invariant_kept, law_page_write_then_read, min_int, page_after_truncate, page_after_write,
    page_inv, page_read,
};

verus! {

/// The abstract state of the cache: the page size, the most pages it holds,
/// and the cached pages with their indices, oldest first.
pub struct BufferState {
    pub page_size: nat,
    pub max_pages: nat,
    pub pages: Seq<(u64, PageState)>,
}

/// The page indices in `pages`, oldest first.
pub open spec fn page_indices(pages: Seq<(u64, PageState)>) -> Seq<u64> {
    Seq::new(pages.len(), |k: int| pages[k].0)
}

/// Page `index` is cached.
pub open spec fn holds_page(pages: Seq<(u64, PageState)>, index: u64) -> bool {
    exists|k: int| 0 <= k < pages.len() && #[trigger] pages[k].0 == index
}

/// The position of page `index` among the cached pages.
pub open spec fn slot_of(pages: Seq<(u64, PageState)>, index: u64) -> int {
    choose|k: int| 0 <= k < pages.len() && #[trigger] pages[k].0 == index
}

/// The cached page `index`.
pub open spec fn cached_page(s: BufferState, index: u64) -> PageState {
    s.pages[slot_of(s.pages, index)].1
}

/// No page index occurs twice.
pub open spec fn distinct_indices(pages: Seq<(u64, PageState)>) -> bool {
    forall|j: int, k: int|
        0 <= j < pages.len() && 0 <= k < pages.len() && j != k ==> #[trigger] pages[j].0
            != #[trigger] pages[k].0
}

/// Each page is cached once, and every page is a valid page of `page_size`
/// bytes.
pub open spec fn pages_valid(pages: Seq<(u64, PageState)>, page_size: nat) -> bool {
    &&& distinct_indices(pages)
    &&& forall|k: int|
        0 <= k < pages.len() ==> page_inv(#[trigger] pages[k].1) && pages[k].1.max_size
            == page_size
}

/// What the cache keeps: valid pages, and no more of them than allowed.
pub open spec fn buffer_inv(s: BufferState) -> bool {
    &&& pages_valid(s.pages, s.page_size)
    &&& s.pages.len() <= s.max_pages
}

/// The pages left after making room for `room` more under a limit of `max`:
/// the oldest are dropped until the rest and the room fit.
pub open spec fn after_eviction(pages: Seq<(u64, PageState)>, room: nat, max: nat) -> Seq<(u64, PageState)> {
    if pages.len() + room <= max {
        pages
    } else {
        pages.subrange(pages.len() + room - max, pages.len() as int)
    }
}

/// A page of `page_size` zero bytes, none in use.
pub open spec fn empty_page(page_size: nat) -> PageState {
    PageState { max_size: page_size, actual_size: 0, bytes: Seq::new(page_size, |i: int| 0u8) }
}

/// The page made from the bytes the file holds at it.
pub open spec fn loaded_page(page_size: nat, file_bytes: Seq<u8>) -> PageState {
    page_after_write(empty_page(page_size), 0, file_bytes)
}

/// The cache after page `index`, made from `file_bytes`, is loaded: with no
/// room at all it stays as it is; otherwise the oldest page leaves when the
/// cache is full, and the new page comes last.
pub open spec fn state_after_load(s: BufferState, index: u64, file_bytes: Seq<u8>) -> BufferState {
    if s.max_pages == 0 {
        s
    } else {
        BufferState {
            pages: after_eviction(s.pages, 1, s.max_pages).push(
                (index, loaded_page(s.page_size, file_bytes)),
            ),
            ..s
        }
    }
}

/// Cached page entry `e` after `data` is written to the file at `offset`:
/// the part of the write that falls in the page is written into it.
pub open spec fn updated_entry(ps: int, e: (u64, PageState), offset: int, data: Seq<u8>) -> (
    u64,
    PageState,
) {
    let base = e.0 * ps;
    let lo = if offset > base {
        offset
    } else {
        base
    };
    let hi = min_int(offset + data.len(), base + ps);
    if lo < hi {
        (e.0, page_after_write(e.1, lo - base, data.subrange(lo - offset, hi - offset)))
    } else {
        e
    }
}

/// The cache after `data` is written to the file at `offset`: every cached
/// page takes its part of the write; no page is loaded or dropped.
pub open spec fn state_after_update(s: BufferState, offset: int, data: Seq<u8>) -> BufferState {
    BufferState {
        pages: Seq::new(
            s.pages.len(),
            |k: int| updated_entry(s.page_size as int, s.pages[k], offset, data),
        ),
        ..s
    }
}

/// The cached pages after the file is cut to end in page `last`, at
/// `last_len` bytes into it: later pages leave, page `last` is truncated.
pub open spec fn truncated_pages(pages: Seq<(u64, PageState)>, last: int, last_len: int) -> Seq<
    (u64, PageState),
>
    decreases pages.len(),
{
    if pages.len() == 0 {
        pages
    } else {
        let rest = truncated_pages(pages.drop_last(), last, last_len);
        let e = pages.last();
        if e.0 > last {
            rest
        } else if e.0 == last {
            rest.push((e.0, page_after_truncate(e.1, last_len)))
        } else {
            rest.push(e)
        }
    }
}

/// The cache after the file is cut to `len` bytes.
pub open spec fn state_after_truncate(s: BufferState, len: int) -> BufferState {
    if len == 0 {
        BufferState { pages: Seq::empty(), ..s }
    } else {
        BufferState {
            pages: truncated_pages(s.pages, len / (s.page_size as int), len % (s.page_size as int)),
            ..s
        }
    }
}

/// The part of page `i` (of `ps` bytes) that `len` bytes at `offset`
/// cover: where it starts in the page, and how many bytes it spans.
pub open spec fn page_section(ps: int, i: int, offset: int, len: int) -> (int, int) {
    let base = i * ps;
    let lo = if offset > base {
        offset
    } else {
        base
    };
    let hi = min_int(offset + len, base + ps);
    (lo - base, hi - lo)
}

/// Where a read through the cache stands: the `len` bytes at `offset` asked
/// for, the next page to read and the last one, the bytes gathered so far,
/// and whether the read is over.
pub struct PageRead {
    pub offset: u64,
    pub len: usize,
    pub next: u64,
    pub last: u64,
    pub data: Vec<u8>,
    pub done: bool,
}

/// What a step of a read asks of its caller: the bytes the file holds at a
/// page that is not cached, another step, or nothing more (the read is over
/// and its bytes are gathered).
pub enum ReadStep {
    NeedPage(u64),
    Continue,
    Done,
}

/// A read of pages of `ps` bytes that stands where it may go on: the bytes
/// asked for end within `u64`, the next page lies between the first and (on
/// a read that is not over) the last page they span, and the end of the
/// last page fits in a `u64`.
pub open spec fn read_state_ok(st: PageRead, ps: int) -> bool {
    &&& ps > 0
    &&& 1 <= st.offset + st.len <= u64::MAX
    &&& st.last == (st.offset + st.len - 1) / ps
    &&& (st.offset as int) / ps <= st.next
    &&& !st.done ==> st.next <= st.last
    &&& (st.last + 1) * ps <= u64::MAX
}

/// The read after a part of `l` bytes was asked of its next page and `part`
/// came back: the part is added, and the read is over once a part comes back
/// short or the last page was read; otherwise it moves to the next page.
pub open spec fn read_advanced(st: PageRead, part: Seq<u8>, l: int, st2: PageRead) -> bool {
    let done = part.len() < l || st.next == st.last;
    &&& st2.data@ == st.data@ + part
    &&& st2.done == done
    &&& st2.next == (if done {
        st.next
    } else {
        (st.next + 1) as u64
    })
    &&& st2.offset == st.offset
    &&& st2.len == st.len
    &&& st2.last == st.last
}

/// The step's answer once a page was read into the read `st2`.
pub open spec fn step_answer(st2: PageRead) -> ReadStep {
    if st2.done {
        ReadStep::Done
    } else {
        ReadStep::Continue
    }
}

/// A page index between the first and last pages that a range spans has
/// its section inside the range, and the page ends in a `u64`.
proof fn lemma_page_in_range(ps: int, i: int, offset: int, len: int, last: int)
    requires
        ps > 0,
        offset >= 0,
        offset + len >= 1,
        last == (offset + len - 1) / ps,
        offset / ps <= i <= last,
    ensures
        i * ps < offset + len,
        offset < i * ps + ps,
        i * ps + ps <= (last + 1) * ps,
{
    assert(i * ps <= last * ps) by (nonlinear_arith)
        requires
            i <= last,
            ps > 0,
    ;
    assert(last * ps <= offset + len - 1) by (nonlinear_arith)
        requires
            last == (offset + len - 1) / ps,
            ps > 0,
            offset + len - 1 >= 0,
    ;
    assert(offset < (offset / ps) * ps + ps) by (nonlinear_arith)
        requires
            ps > 0,
            offset >= 0,
    ;
    assert((offset / ps) * ps <= i * ps) by (nonlinear_arith)
        requires
            offset / ps <= i,
            ps > 0,
    ;
    assert((last + 1) * ps == last * ps + ps) by (nonlinear_arith);
}

/// The abstract entries of a vector of cached pages.
pub open spec fn entries_view(v: Seq<(u64, FilePage)>) -> Seq<(u64, PageState)> {
    Seq::new(v.len(), |k: int| (v[k].0, v[k].1@))
}

/// A cache of pages of a file, oldest first.
#[derive(Debug)]
pub struct FileSyncedBuffer {
    page_size: u32,
    max_pages: u64,
    pages: Vec<(u64, FilePage)>,
}

impl View for FileSyncedBuffer {
    type V = BufferState;

    closed spec fn view(&self) -> BufferState {
        BufferState {
            page_size: self.page_size as nat,
            max_pages: self.max_pages as nat,
            pages: entries_view(self.pages@),
        }
    }
}

impl FileSyncedBuffer {
    /// The internal consistency of a cache.
    pub open spec fn wf(&self) -> bool {
        buffer_inv(self@)
    }

    /// Creates an empty cache of pages of `page_size` bytes that holds at
    /// most `max_pages` pages.
    pub fn new(page_size: u32, max_pages: u64) -> (r: FileSyncedBuffer)
        ensures
            r.wf(),
            r@ == (BufferState {
                page_size: page_size as nat,
                max_pages: max_pages as nat,
                pages: Seq::empty(),
            }),
    {
        let r = FileSyncedBuffer { page_size, max_pages, pages: Vec::new() };
        assert(entries_view(r.pages@) =~= Seq::empty());
        r
    }

    /// The pages spanned by `length` bytes at `offset`: the first and the
    /// last page index.
    pub fn calc_page_range(&self, offset: u64, length: u64) -> (r: (u64, u64))
        requires
            self@.page_size > 0,
            1 <= offset + length <= u64::MAX,
        ensures
            r.0 == (offset as int) / (self@.page_size as int),
            r.1 == (offset + length - 1) / (self@.page_size as int),
    {
        let page_size = self.page_size as u64;
        let start = offset / page_size;
        let end = (offset + length - 1) / page_size;
        (start, end)
    }

    /// The part of page `page_index` that `length` bytes at `offset` cover:
    /// where it starts in the page, and how many bytes it spans.
    pub fn calc_page_section(&self, page_index: u64, offset: u64, length: usize) -> (r: Result<
        (u32, u32),
        Error,
    >)
        requires
            self@.page_size > 0,
            offset + length <= u64::MAX,
            page_index * self@.page_size + self@.page_size <= u64::MAX,
            page_index * self@.page_size < offset + length,
            offset < page_index * self@.page_size + self@.page_size,
        ensures
            ({
                let base = page_index * self@.page_size;
                let lo = if offset > base {
                    offset as int
                } else {
                    base
                };
                let hi = min_int(offset + length, base + self@.page_size);
                r == Ok::<(u32, u32), Error>(((lo - base) as u32, (hi - lo) as u32))
            }),
    {
        let page_size = self.page_size as u64;
        let len = length as u64;
        let page_start_offset = page_index * page_size;
        let page_end_offset = page_start_offset + page_size;
        let end_offset = offset + len;
        let start_offset_in_page = if page_start_offset < offset {
            offset - page_start_offset
        } else {
            0
        };
        let end_offset_in_page = if end_offset > page_end_offset {
            page_size
        } else {
            end_offset - page_start_offset
        };
        Ok((start_offset_in_page as u32, (end_offset_in_page - start_offset_in_page) as u32))
    }

    /// Begins a read of `len` bytes at `offset`, page by page; a read of no
    /// bytes that spans no page is over at once.
    pub fn begin_read(&self, offset: u64, len: usize) -> (r: PageRead)
        requires
            self@.page_size > 0,
            1 <= offset + len <= u64::MAX,
            ((offset + len - 1) / (self@.page_size as int) + 1) * self@.page_size <= u64::MAX,
        ensures
            read_state_ok(r, self@.page_size as int),
            r.offset == offset,
            r.len == len,
            r.next == (offset as int) / (self@.page_size as int),
            r.data@ == Seq::<u8>::empty(),
            r.done == (r.next > r.last),
    {
        let (start, end) = self.calc_page_range(offset, len as u64);
        PageRead { offset, len, next: start, last: end, data: Vec::new(), done: start > end }
    }

    /// One step of the read `st`: the part of its next page that the read
    /// covers is taken from the cache, or, when the page is not cached, from
    /// `file_page` (the bytes the file holds at that page), which becomes a
    /// cached page; without those bytes the step asks for them and changes
    /// nothing. A read that is over stays so. Only the allocation of a new
    /// page can fail, which changes nothing.
    pub fn read_step(&mut self, st: &mut PageRead, file_page: Option<&[u8]>) -> (r: Result<ReadStep, Error>)
        requires
            old(self).wf(),
            !old(st).done && file_page is Some ==> is_power_of_2(old(self)@.page_size as int),
            read_state_ok(*old(st), old(self)@.page_size as int),
        ensures
            final(self).wf(),
            read_state_ok(*final(st), final(self)@.page_size as int),
            old(st).done ==> (r matches Ok(ReadStep::Done) && *final(st) == *old(st) && final(self)@
                == old(self)@),
            !old(st).done ==> ({
                let i = old(st).next;
                let sec = page_section(
                    old(self)@.page_size as int,
                    i as int,
                    old(st).offset as int,
                    old(st).len as int,
                );
                if holds_page(old(self)@.pages, i) {
                    let part = page_read(cached_page(old(self)@, i), sec.0, sec.1);
                    &&& final(self)@ == old(self)@
                    &&& read_advanced(*old(st), part, sec.1, *final(st))
                    &&& r == Ok::<ReadStep, Error>(step_answer(*final(st)))
                } else {
                    match file_page {
                        None => r == Ok::<ReadStep, Error>(ReadStep::NeedPage(i)) && *final(st) == *old(
                            st,
                        ) && final(self)@ == old(self)@,
                        Some(b) => match r {
                            Ok(a) => {
                                let part = page_read(
                                    loaded_page(old(self)@.page_size, b@),
                                    sec.0,
                                    sec.1,
                                );
                                &&& final(self)@ == state_after_load(old(self)@, i, b@)
                                &&& read_advanced(*old(st), part, sec.1, *final(st))
                                &&& a == step_answer(*final(st))
                            },
                            Err(e) => {
                                &&& e matches Error::Memory(m) && m@ == ERR_STORAGE_ALLOC@
                                &&& *final(st) == *old(st)
                                &&& final(self)@ == old(self)@
                            },
                        },
                    }
                }
            }),
    {
        if st.done {
            return Ok(ReadStep::Done);
        }
        let i = st.next;
        proof {
            lemma_page_in_range(
                self@.page_size as int,
                i as int,
                st.offset as int,
                st.len as int,
                st.last as int,
            );
        }
        let (start_in_page, len_in_page) = match self.calc_page_section(i, st.offset, st.len) {
            Ok(p) => p,
            Err(e) => return Err(e),
        };
        assert(start_in_page + len_in_page <= self@.page_size);
        let part = match self.cached_read(i, start_in_page, len_in_page) {
            Some(d) => d,
            None => match file_page {
                None => return Ok(ReadStep::NeedPage(i)),
                Some(b) => match self.read_from_page(i, start_in_page, len_in_page, b) {
                    Ok(d) => d,
                    Err(e) => return Err(e),
                },
            },
        };
        let short = part.len() < len_in_page as usize;
        let mut part = part;
        st.data.append(&mut part);
        if short || i == st.last {
            st.done = true;
            Ok(ReadStep::Done)
        } else {
            st.next = i + 1;
            Ok(ReadStep::Continue)
        }
    }

    /// The position of page `index` in the cache, if it is cached.
    fn find_page(&self, index: u64) -> (r: Option<usize>)
        requires
            self.wf(),
        ensures
            r is Some <==> holds_page(self@.pages, index),
            r matches Some(k) ==> k < self@.pages.len() && k == slot_of(self@.pages, index),
    {
        let mut k: usize = 0;
        while k < self.pages.len()
            invariant
                self.wf(),
                k <= self.pages@.len(),
                self@.pages.len() == self.pages@.len(),
                forall|j: int| 0 <= j < k ==> self@.pages[j].0 != index,
            decreases self.pages@.len() - k,
        {
            if self.pages[k].0 == index {
                assert(self@.pages[k as int].0 == index);
                let ghost c = slot_of(self@.pages, index);
                assert(c == k) by {
                    assert(distinct_indices(self@.pages));
                    if c != k as int {
                        assert(self@.pages[c].0 != self@.pages[k as int].0);
                    }
                }
                return Some(k);
            }
            assert(self@.pages[k as int].0 != index);
            k += 1;
        }
        None
    }

    /// Reads up to `len` bytes at `start` in page `index`, if it is cached.
    pub fn cached_read(&self, index: u64, start: u32, len: u32) -> (r: Option<Vec<u8>>)
        requires
            self.wf(),
            start + len <= u32::MAX,
        ensures
            r is Some <==> holds_page(self@.pages, index),
            r matches Some(d) ==> d@ == page_read(cached_page(self@, index), start as int, len as int),
    {
        match self.find_page(index) {
            Some(k) => {
                assert(page_inv(self@.pages[k as int].1));
                Some(self.pages[k].1.read(start, len))
            },
            None => None,
        }
    }

    /// Drops the oldest pages until `room_for` more pages fit.
    fn remove_oldest_pages(&mut self, room_for: u64)
        requires
            pages_valid(old(self)@.pages, old(self)@.page_size),
            room_for <= old(self)@.max_pages,
        ensures
            final(self)@ == (BufferState {
                pages: after_eviction(old(self)@.pages, room_for as nat, old(self)@.max_pages),
                ..old(self)@
            }),
            pages_valid(final(self)@.pages, final(self)@.page_size),
            final(self)@.pages.len() + room_for <= final(self)@.max_pages,
    {
        let n = self.pages.len() as u64;
        if n <= self.max_pages - room_for {
            return;
        }
        let num_to_rm = n - (self.max_pages - room_for);
        let ghost before = self.pages@;
        let mut i: u64 = 0;
        while i < num_to_rm
            invariant
                i <= num_to_rm,
                num_to_rm <= n,
                n == before.len(),
                self.page_size == old(self).page_size,
                self.max_pages == old(self).max_pages,
                before == old(self).pages@,
                self.pages@ == before.subrange(i as int, n as int),
            decreases num_to_rm - i,
        {
            self.pages.remove(0);
            i += 1;
            assert(self.pages@ =~= before.subrange(i as int, n as int));
        }
        assert(entries_view(self.pages@) =~= after_eviction(
            old(self)@.pages,
            room_for as nat,
            old(self)@.max_pages,
        ));
        assert(pages_valid(self@.pages, self@.page_size)) by {
            let v = old(self)@.pages;
            let d = num_to_rm as int;
            assert forall|j: int, k: int|
                0 <= j < self@.pages.len() && 0 <= k < self@.pages.len() && j != k implies #[trigger] self@.pages[j].0
                != #[trigger] self@.pages[k].0 by {
                assert(self@.pages[j] == v[j + d]);
                assert(self@.pages[k] == v[k + d]);
            }
            assert forall|k: int| 0 <= k < self@.pages.len() implies page_inv(
                #[trigger] self@.pages[k].1,
            ) && self@.pages[k].1.max_size == self@.page_size by {
                assert(self@.pages[k] == v[k + d]);
            }
        }
    }

    /// Caches `page` as page `index`, after dropping the oldest page if the
    /// cache is full; a cache that may hold no page stays empty.
    fn insert_page(&mut self, index: u64, page: FilePage)
        requires
            old(self).wf(),
            !holds_page(old(self)@.pages, index),
            page.wf(),
            page@.max_size == old(self)@.page_size,
        ensures
            final(self).wf(),
            final(self)@ == (if old(self)@.max_pages == 0 {
                old(self)@
            } else {
                BufferState {
                    pages: after_eviction(old(self)@.pages, 1, old(self)@.max_pages).push(
                        (index, page@),
                    ),
                    ..old(self)@
                }
            }),
    {
        if self.max_pages == 0 {
            return;
        }
        self.remove_oldest_pages(1);
        let ghost mid = self@.pages;
        self.pages.push((index, page));
        assert(entries_view(self.pages@) =~= mid.push((index, page@)));
        assert(pages_valid(self@.pages, self@.page_size)) by {
            let v = old(self)@.pages;
            assert forall|k: int| 0 <= k < mid.len() implies #[trigger] mid[k].0 != index by {
                let d = v.len() + 1 - old(self)@.max_pages;
                if v.len() + 1 > old(self)@.max_pages {
                    assert(mid[k] == v[k + d]);
                } else {
                    assert(mid[k] == v[k]);
                }
            }
        }
    }

    /// Reads up to `len` bytes at `start` in page `index`. A cached page is
    /// read as it is; otherwise `file_page`, the bytes the file holds at that
    /// page, become a new page that is read and then cached. Only the
    /// allocation of a new page can fail.
    pub fn read_from_page(&mut self, index: u64, start: u32, len: u32, file_page: &[u8]) -> (r: Result<
        Vec<u8>,
        Error,
    >)
        requires
            old(self).wf(),
            start + len <= u32::MAX,
            is_power_of_2(old(self)@.page_size as int),
        ensures
            final(self).wf(),
            holds_page(old(self)@.pages, index) ==> {
                &&& r matches Ok(d) && d@ == page_read(
                    cached_page(old(self)@, index),
                    start as int,
                    len as int,
                )
                &&& final(self)@ == old(self)@
            },
            !holds_page(old(self)@.pages, index) ==> match r {
                Ok(d) => {
                    &&& d@ == page_read(
                        loaded_page(old(self)@.page_size, file_page@),
                        start as int,
                        len as int,
                    )
                    &&& final(self)@ == state_after_load(old(self)@, index, file_page@)
                },
                Err(e) => {
                    &&& e matches Error::Memory(m) && m@ == ERR_STORAGE_ALLOC@
                    &&& final(self)@ == old(self)@
                },
            },
    {
        match self.cached_read(index, start, len) {
            Some(d) => return Ok(d),
            None => {},
        }
        let mut page = match FilePage::new(self.page_size) {
            Some(p) => p,
            None => return Err(Error::Memory(MemoryError::new(ERR_STORAGE_ALLOC))),
        };
        let _file_len = file_page.len();
        page.write(0, file_page);
        let data = page.read(start, len);
        self.insert_page(index, page);
        Ok(data)
    }

    /// Writes into the cached pages the parts of `data`, written to the file
    /// at `offset`, that fall in them; pages that are not cached stay so.
    pub fn update(&mut self, offset: u64, data: &[u8]) -> (r: Result<(), Error>)
        requires
            old(self).wf(),
            offset + data@.len() <= u64::MAX,
        ensures
            final(self).wf(),
            r is Ok,
            final(self)@ == state_after_update(old(self)@, offset as int, data@),
    {
        let ghost v = self@.pages;
        let ps = self.page_size as u64;
        let dlen = data.len();
        let end = offset + dlen as u64;
        let mut k: usize = 0;
        while k < self.pages.len()
            invariant
                self.page_size == old(self).page_size,
                self.max_pages == old(self).max_pages,
                v == old(self)@.pages,
                old(self).wf(),
                ps == self.page_size,
                dlen == data@.len(),
                end == offset + data@.len(),
                k <= self.pages@.len(),
                self.pages@.len() == v.len(),
                forall|j: int|
                    0 <= j < k ==> #[trigger] self@.pages[j] == updated_entry(
                        ps as int,
                        v[j],
                        offset as int,
                        data@,
                    ),
                forall|j: int| k <= j < v.len() ==> #[trigger] self@.pages[j] == v[j],
            decreases self.pages@.len() - k,
        {
            let idx = self.pages[k].0;
            let ghost pre = self@.pages;
            assert(pre[k as int] == v[k as int]);
            let ghost target = updated_entry(ps as int, v[k as int], offset as int, data@);
            match idx.checked_mul(ps) {
                None => {
                    assert(self@.pages[k as int] == target);
                },
                Some(base) => {
                    if base < end {
                        let lo = if offset > base {
                            offset
                        } else {
                            base
                        };
                        let hi = match base.checked_add(ps) {
                            Some(page_end) => if end < page_end {
                                end
                            } else {
                                page_end
                            },
                            None => end,
                        };
                        if lo < hi {
                            let ghost before = self.pages@;
                            let (i2, mut page) = self.pages.remove(k);
                            assert(page_inv(v[k as int].1));
                            let part = slice_subrange(
                                data,
                                (lo - offset) as usize,
                                (hi - offset) as usize,
                            );
                            page.write((lo - base) as u32, part);
                            self.pages.insert(k, (i2, page));
                            assert forall|j: int| 0 <= j < v.len() && j != k implies #[trigger] self.pages@[j]
                                == before[j] by {}
                            assert(self@.pages[k as int] == target);
                        } else {
                            assert(self@.pages[k as int] == target);
                        }
                    } else {
                        assert(self@.pages[k as int] == target);
                    }
                },
            }
            assert(self@.pages[k as int] == target);
            assert forall|j: int| 0 <= j < v.len() && j != k implies #[trigger] self@.pages[j]
                == pre[j] by {}
            k += 1;
        }
        assert(self@.pages =~= state_after_update(old(self)@, offset as int, data@).pages);
        assert(pages_valid(self@.pages, self@.page_size)) by {
            assert forall|j: int, i: int|
                0 <= j < self@.pages.len() && 0 <= i < self@.pages.len() && j != i implies #[trigger] self@.pages[j].0
                != #[trigger] self@.pages[i].0 by {
                assert(self@.pages[j] == updated_entry(ps as int, v[j], offset as int, data@));
                assert(self@.pages[i] == updated_entry(ps as int, v[i], offset as int, data@));
            }
            assert forall|j: int| 0 <= j < self@.pages.len() implies page_inv(
                #[trigger] self@.pages[j].1,
            ) && self@.pages[j].1.max_size == self@.page_size by {
                assert(self@.pages[j] == updated_entry(ps as int, v[j], offset as int, data@));
                assert(page_inv(v[j].1));
                let base = v[j].0 * ps;
                let lo = if offset > base {
                    offset as int
                } else {
                    base
                };
                let hi = min_int(offset + data@.len(), base + ps);
                if lo < hi {
                    law_page_invariant_kept(
                        v[j].1,
                        lo - base,
                        data@.subrange(lo - offset, hi - offset),
                        0,
                    );
                }
            }
        }
        Ok(())
    }

    /// Cuts the cache down to a file of `len` bytes: pages past the end
    /// leave, and the page the end falls in is truncated.
    pub fn truncate(&mut self, len: usize)
        requires
            old(self).wf(),
            len > 0 ==> old(self)@.page_size > 0,
        ensures
            final(self).wf(),
            final(self)@ == state_after_truncate(old(self)@, len as int),
    {
        if len == 0 {
            self.pages = Vec::new();
            assert(self@.pages =~= Seq::<(u64, PageState)>::empty());
            return;
        }
        let ps = self.page_size as usize;
        let last_page = (len / ps) as u64;
        let last_len = (len % ps) as u32;
        let ghost v = self@.pages;
        let mut rest: Vec<(u64, FilePage)> = Vec::new();
        std::mem::swap(&mut rest, &mut self.pages);
        let ghost orig = rest@;
        let ghost n = orig.len();
        let ghost mut k: int = 0;
        assert(entries_view(self.pages@) =~= truncated_pages(v.subrange(0, 0), last_page as int, last_len as int));
        while rest.len() > 0
            invariant
                self.page_size == old(self).page_size,
                self.max_pages == old(self).max_pages,
                v == old(self)@.pages,
                v == entries_view(orig),
                n == orig.len(),
                old(self).wf(),
                0 <= k <= n,
                rest@ == orig.subrange(k, n as int),
                entries_view(self.pages@) == truncated_pages(v.subrange(0, k), last_page as int, last_len as int),
            decreases rest@.len(),
        {
            let (idx, mut page) = rest.remove(0);
            assert(orig[k] == (idx, page));
            assert(v[k] == (idx, page@));
            assert(page_inv(v[k].1));
            let ghost before = self.pages@;
            if idx > last_page {
            } else if idx == last_page {
                page.truncate(last_len);
                self.pages.push((idx, page));
            } else {
                self.pages.push((idx, page));
            }
            proof {
                let pre = v.subrange(0, k + 1);
                assert(pre.drop_last() =~= v.subrange(0, k));
                assert(pre.last() == v[k]);
                k = k + 1;
                assert(rest@ =~= orig.subrange(k, n as int));
                assert(entries_view(self.pages@) =~= truncated_pages(v.subrange(0, k), last_page as int, last_len as int));
            }
        }
        assert(v.subrange(0, k) =~= v);
        proof {
            lemma_truncated_valid(v, self.page_size as nat, last_page as int, last_len as int);
        }
    }

    /// Changes the most pages the cache holds, dropping the oldest pages
    /// that no longer fit.
    pub fn set_max_pages(&mut self, pages: u64)
        requires
            old(self).wf(),
        ensures
            final(self).wf(),
            final(self)@ == (BufferState {
                max_pages: pages as nat,
                pages: after_eviction(old(self)@.pages, 0, pages as nat),
                ..old(self)@
            }),
    {
        self.max_pages = pages;
        self.remove_oldest_pages(0);
    }

    /// The page size.
    pub fn get_page_size(&self) -> (r: u32)
        ensures
            r == self@.page_size,
    {
        self.page_size
    }

    /// The most pages the cache holds.
    pub fn get_max_pages(&self) -> (r: u64)
        ensures
            r == self@.max_pages,
    {
        self.max_pages
    }

    /// The number of cached pages.
    pub fn get_num_current_pages(&self) -> (r: u64)
        requires
            self.wf(),
        ensures
            r == self@.pages.len(),
    {
        self.pages.len() as u64
    }

    /// The indices of the cached pages, oldest first.
    pub fn get_current_page_insertions(&self) -> (r: Vec<u64>)
        ensures
            r@ == page_indices(self@.pages),
    {
        let mut r: Vec<u64> = Vec::new();
        let mut k: usize = 0;
        while k < self.pages.len()
            invariant
                k <= self.pages@.len(),
                self@.pages.len() == self.pages@.len(),
                r@ == page_indices(self@.pages).subrange(0, k as int),
            decreases self.pages@.len() - k,
        {
            r.push(self.pages[k].0);
            k += 1;
            assert(r@ =~= page_indices(self@.pages).subrange(0, k as int));
        }
        assert(r@ =~= page_indices(self@.pages));
        r
    }
}

/// Truncation keeps the cached pages valid and never adds a page: every page
/// it leaves was cached before.
pub proof fn lemma_truncated_valid(pages: Seq<(u64, PageState)>, ps: nat, last: int, last_len: int)
    requires
        pages_valid(pages, ps),
        last_len >= 0,
    ensures
        pages_valid(truncated_pages(pages, last, last_len), ps),
        truncated_pages(pages, last, last_len).len() <= pages.len(),
        forall|k: int|
            0 <= k < truncated_pages(pages, last, last_len).len() ==> holds_page(
                pages.drop_last(),
                #[trigger] truncated_pages(pages, last, last_len)[k].0,
            ) || truncated_pages(pages, last, last_len)[k].0 == pages.last().0,
        forall|k: int|
            0 <= k < truncated_pages(pages, last, last_len).len() ==> #[trigger] truncated_pages(
                pages,
                last,
                last_len,
            )[k].0 <= last,
    decreases pages.len(),
{
    if pages.len() > 0 {
        let init = pages.drop_last();
        assert(pages_valid(init, ps)) by {
            assert forall|j: int, k: int|
                0 <= j < init.len() && 0 <= k < init.len() && j != k implies #[trigger] init[j].0
                != #[trigger] init[k].0 by {
                assert(init[j] == pages[j]);
                assert(init[k] == pages[k]);
            }
            assert forall|k: int| 0 <= k < init.len() implies page_inv(#[trigger] init[k].1)
                && init[k].1.max_size == ps by {
                assert(init[k] == pages[k]);
            }
        }
        lemma_truncated_valid(init, ps, last, last_len);
        let rest = truncated_pages(init, last, last_len);
        let e = pages.last();
        assert(page_inv(pages[pages.len() - 1].1));
        law_page_invariant_kept(e.1, 0, Seq::empty(), last_len);
        assert forall|k: int| 0 <= k < rest.len() implies #[trigger] rest[k].0 != e.0 by {
            if init.len() > 0 && holds_page(init.drop_last(), rest[k].0) {
                let j = choose|j: int| 0 <= j < init.drop_last().len() && #[trigger] init.drop_last()[j].0 == rest[k].0;
                assert(init.drop_last()[j] == pages[j]);
                assert(pages[j].0 != pages[pages.len() - 1].0);
            } else {
                assert(init.last() == pages[init.len() - 1]);
                assert(pages[init.len() - 1].0 != pages[pages.len() - 1].0);
            }
        }
        let res = truncated_pages(pages, last, last_len);
        assert forall|k: int| 0 <= k < res.len() implies holds_page(init, #[trigger] res[k].0) || res[k].0 == e.0 by {
            if k < rest.len() {
                assert(res[k] == rest[k]);
                if init.len() > 0 && holds_page(init.drop_last(), rest[k].0) {
                    let j = choose|j: int| 0 <= j < init.drop_last().len() && #[trigger] init.drop_last()[j].0 == rest[k].0;
                    assert(init[j].0 == rest[k].0);
                } else {
                    assert(init[init.len() - 1].0 == rest[k].0);
                }
            }
        }
    }
}

/// Writing to the file keeps the cache in step with it: where a write falls
/// in a cached page, reading that part of the page gives the written bytes.
pub proof fn law_update_keeps_pages_in_step(s: BufferState, offset: int, data: Seq<u8>, index: u64)
    requires
        buffer_inv(s),
        holds_page(s.pages, index),
        0 <= offset,
    ensures
        ({
            let t = state_after_update(s, offset, data);
            let ps = s.page_size as int;
            let base = index * ps;
            let lo = if offset > base {
                offset
            } else {
                base
            };
            let hi = min_int(offset + data.len(), base + ps);
            &&& buffer_inv(t)
            &&& holds_page(t.pages, index)
            &&& lo < hi ==> page_read(cached_page(t, index), lo - base, hi - lo) == data.subrange(
                lo - offset,
                hi - offset,
            )
        }),
{
    let t = state_after_update(s, offset, data);
    let ps = s.page_size as int;
    let k = slot_of(s.pages, index);
    assert(t.pages[k] == updated_entry(ps, s.pages[k], offset, data));
    assert(t.pages[k].0 == index);
    let kt = slot_of(t.pages, index);
    assert(t.pages[kt] == updated_entry(ps, s.pages[kt], offset, data));
    assert(kt == k) by {
        if kt != k {
            assert(s.pages[kt].0 != s.pages[k].0);
        }
    }
    assert(pages_valid(t.pages, t.page_size)) by {
        assert forall|j: int, i: int|
            0 <= j < t.pages.len() && 0 <= i < t.pages.len() && j != i implies #[trigger] t.pages[j].0
            != #[trigger] t.pages[i].0 by {
            assert(t.pages[j] == updated_entry(ps, s.pages[j], offset, data));
            assert(t.pages[i] == updated_entry(ps, s.pages[i], offset, data));
        }
        assert forall|j: int| 0 <= j < t.pages.len() implies page_inv(#[trigger] t.pages[j].1)
            && t.pages[j].1.max_size == t.page_size by {
            assert(t.pages[j] == updated_entry(ps, s.pages[j], offset, data));
            assert(page_inv(s.pages[j].1));
            let b = s.pages[j].0 * ps;
            let l = if offset > b {
                offset
            } else {
                b
            };
            let h = min_int(offset + data.len(), b + ps);
            if l < h {
                law_page_invariant_kept(s.pages[j].1, l - b, data.subrange(l - offset, h - offset), 0);
            }
        }
    }
    let base = index * ps;
    let lo = if offset > base {
        offset
    } else {
        base
    };
    let hi = min_int(offset + data.len(), base + ps);
    if lo < hi {
        assert(page_inv(s.pages[k].1));
        law_page_write_then_read(s.pages[k].1, lo - base, data.subrange(lo - offset, hi - offset));
    }
}

/// A page loaded on a read miss is cached afterwards (unless the cache may
/// hold no page) and reads as the file bytes it was made from; the cache
/// never holds more pages than allowed.
pub proof fn law_loaded_page_is_cached(s: BufferState, index: u64, file_bytes: Seq<u8>)
    requires
        buffer_inv(s),
        !holds_page(s.pages, index),
        is_power_of_2(s.page_size as int),
        file_bytes.len() <= s.page_size,
    ensures
        ({
            let t = state_after_load(s, index, file_bytes);
            &&& buffer_inv(t)
            &&& s.max_pages > 0 ==> holds_page(t.pages, index) && cached_page(t, index) == loaded_page(
                s.page_size,
                file_bytes,
            ) && page_read(cached_page(t, index), 0, file_bytes.len() as int) == file_bytes
        }),
{
    let t = state_after_load(s, index, file_bytes);
    let e = empty_page(s.page_size);
    assert(page_inv(e));
    law_page_invariant_kept(e, 0, file_bytes, 0);
    law_page_write_then_read(e, 0, file_bytes);
    if s.max_pages > 0 {
        let mid = after_eviction(s.pages, 1, s.max_pages);
        let d = if s.pages.len() + 1 <= s.max_pages {
            0
        } else {
            s.pages.len() + 1 - s.max_pages
        };
        assert forall|k: int| 0 <= k < mid.len() implies #[trigger] mid[k] == s.pages[k + d] by {}
        let n = mid.len() as int;
        assert(t.pages[n].0 == index);
        let kt = slot_of(t.pages, index);
        assert(kt == n) by {
            if kt != n {
                assert(t.pages[kt] == mid[kt]);
                assert(mid[kt] == s.pages[kt + d]);
            }
        }
        assert(pages_valid(t.pages, t.page_size)) by {
            assert forall|j: int, i: int|
                0 <= j < t.pages.len() && 0 <= i < t.pages.len() && j != i implies #[trigger] t.pages[j].0
                != #[trigger] t.pages[i].0 by {
                if j < n {
                    assert(t.pages[j] == s.pages[j + d]);
                }
                if i < n {
                    assert(t.pages[i] == s.pages[i + d]);
                }
            }
            assert forall|j: int| 0 <= j < t.pages.len() implies page_inv(#[trigger] t.pages[j].1)
                && t.pages[j].1.max_size == t.page_size by {
                if j < n {
                    assert(t.pages[j] == s.pages[j + d]);
                }
            }
        }
    }
}

/// After the file is cut to `len` bytes, no cached page starts past the new
/// end (every index is at most `len / page_size`), and the cache stays
/// valid.
pub proof fn law_truncate_drops_pages_past_end(s: BufferState, len: int)
    requires
        buffer_inv(s),
        len >= 0,
        len > 0 ==> s.page_size > 0,
    ensures
        ({
            let t = state_after_truncate(s, len);
            &&& buffer_inv(t)
            &&& len > 0 ==> forall|k: int|
                0 <= k < t.pages.len() ==> #[trigger] t.pages[k].0 <= len / (s.page_size as int)
            &&& len == 0 ==> t.pages.len() == 0
        }),
{
    if len > 0 {
        let ps = s.page_size as int;
        lemma_truncated_valid(s.pages, s.page_size, len / ps, len % ps);
    }
}

} // verus!
