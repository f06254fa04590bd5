//! The rules of a byte storage kept in a file: its parameters, whether it is
//! open, its capacity and how it grows, and which reads, writes and fills it
//! accepts. The caller holds the file and its page cache, performs the file
//! operations these rules call for, and reports their results back.
use vstd::prelude::*;
use vstd::bytes::*;
use crate::binary_storage::{
    ERR_ARITHMETIC_OVERFLOW, ERR_EXPAND_SIZE_NOT_POWER_OF_2, ERR_EXPAND_SIZE_TOO_SMALL,
    ERR_INITIAL_CAP_NOT_POWER_OF_2, ERR_INITIAL_CAP_TOO_SMALL, ERR_OPERATION_INVALID_WHEN_CLOSED,
    ERR_OPERATION_INVALID_WHEN_OPEN, ERR_READ_NOTHING, ERR_READ_PAST_END, ERR_STORAGE_ALLOC,
    ERR_WRITE_NOTHING, ERR_WRITE_PAST_END,
};
use crate::error::{AssertionError, Error, is_assertion};
use crate::file_synced_buffer::{BufferState, FileSyncedBuffer};
use crate::le_bytes::{cursor_read_u16, cursor_read_u32, cursor_read_u64, encode_u16, encode_u32, encode_u64};
use crate::memory_binary_storage::params_error;
use crate::util::{all_equal, ceil_div, is_power_of_two_u64, lemma_round_up, round_up};

verus! {

/// The error reported when the file of a storage is needed but not open.
pub const ERR_NO_FILE: &'static str = "File has not been opened";

/// The abstract state of a file storage.
pub struct FileStorageState {
    pub path: Seq<char>,
    pub create: bool,
    pub open: bool,
    pub initial_capacity: nat,
    pub capacity: nat,
    pub expand_size: nat,
    pub page_size: nat,
    pub max_pages: nat,
}

/// The error a write of `len` bytes at `offset` reports before any
/// expansion, if any.
pub open spec fn file_write_error(s: FileStorageState, offset: int, len: int) -> Option<Seq<char>> {
    if !s.open {
        Some(ERR_OPERATION_INVALID_WHEN_CLOSED@)
    } else if offset + len > u64::MAX {
        Some(ERR_ARITHMETIC_OVERFLOW@)
    } else {
        None
    }
}

/// The error a read of `len` bytes at `offset` reports, if any.
pub open spec fn file_read_error(s: FileStorageState, offset: int, len: int) -> Option<Seq<char>> {
    if !s.open {
        Some(ERR_OPERATION_INVALID_WHEN_CLOSED@)
    } else if offset + len > u64::MAX {
        Some(ERR_ARITHMETIC_OVERFLOW@)
    } else if offset + len > s.capacity {
        Some(ERR_READ_PAST_END@)
    } else {
        None
    }
}

/// The first byte a fill or fill check covers.
pub open spec fn file_range_start(start: Option<u64>) -> int {
    match start {
        Some(v) => v as int,
        None => 0,
    }
}

/// The end of what a fill or fill check covers: the capacity when absent.
pub open spec fn file_range_end(s: FileStorageState, end: Option<u64>) -> int {
    match end {
        Some(v) => v as int,
        None => s.capacity as int,
    }
}

/// The error a fill of `[start, end)` reports, if any.
pub open spec fn file_fill_error(s: FileStorageState, start: Option<u64>, end: Option<u64>) -> Option<
    Seq<char>,
> {
    let lo = file_range_start(start);
    let hi = file_range_end(s, end);
    if !s.open {
        Some(ERR_OPERATION_INVALID_WHEN_CLOSED@)
    } else if lo >= s.capacity || hi > s.capacity {
        Some(ERR_WRITE_PAST_END@)
    } else if hi <= lo {
        Some(ERR_WRITE_NOTHING@)
    } else if hi - lo > usize::MAX {
        Some(ERR_ARITHMETIC_OVERFLOW@)
    } else {
        None
    }
}

/// The error a fill check of `[start, end)` reports, if any.
pub open spec fn file_is_filled_error(s: FileStorageState, start: Option<u64>, end: Option<u64>) -> Option<
    Seq<char>,
> {
    let lo = file_range_start(start);
    let hi = file_range_end(s, end);
    if !s.open {
        Some(ERR_OPERATION_INVALID_WHEN_CLOSED@)
    } else if lo >= s.capacity || hi > s.capacity {
        Some(ERR_READ_PAST_END@)
    } else if hi <= lo {
        Some(ERR_READ_NOTHING@)
    } else if hi - lo > usize::MAX {
        Some(ERR_ARITHMETIC_OVERFLOW@)
    } else {
        None
    }
}

/// The capacity an expansion to at least `min_capacity` bytes asks for: the
/// smallest multiple of the expansion size that holds them.
pub open spec fn file_expand_target(s: FileStorageState, min_capacity: int) -> nat {
    round_up(min_capacity as nat, s.expand_size)
}

/// The file-backed byte storage: its parameters and state.
#[derive(Debug)]
pub struct FileBinaryStorage {
    path: String,
    create: bool,
    buffer_page_size: u32,
    buffer_max_pages: u32,
    is_open: bool,
    initial_capacity: u64,
    capacity: u64,
    expand_size: u64,
}

impl View for FileBinaryStorage {
    type V = FileStorageState;

    closed spec fn view(&self) -> FileStorageState {
        FileStorageState {
            path: self.path@,
            create: self.create,
            open: self.is_open,
            initial_capacity: self.initial_capacity as nat,
            capacity: self.capacity as nat,
            expand_size: self.expand_size as nat,
            page_size: self.buffer_page_size as nat,
            max_pages: self.buffer_max_pages as nat,
        }
    }
}

impl FileBinaryStorage {
    /// The internal consistency of a storage: its parameters pass the
    /// parameter check.
    pub open spec fn wf(&self) -> bool {
        params_error(self@.expand_size as int, self@.initial_capacity as int) is None
    }

    fn check_params(expand_size: u64, initial_capacity: u64) -> (r: Result<(), AssertionError>)
        ensures
            match params_error(expand_size as int, initial_capacity as int) {
                Some(msg) => r matches Err(e) && e@ == msg,
                None => r is Ok,
            },
    {
        AssertionError::assert_true(expand_size > 0, ERR_EXPAND_SIZE_TOO_SMALL)?;
        AssertionError::assert_true(initial_capacity > 0, ERR_INITIAL_CAP_TOO_SMALL)?;
        AssertionError::assert_true(
            is_power_of_two_u64(initial_capacity),
            ERR_INITIAL_CAP_NOT_POWER_OF_2,
        )?;
        AssertionError::assert_true(is_power_of_two_u64(expand_size), ERR_EXPAND_SIZE_NOT_POWER_OF_2)?;
        Ok(())
    }

    /// Creates a closed storage for the file at `path`; `create` says whether
    /// a missing file is made, with `initial_capacity` bytes. Reads go
    /// through a cache of `buffer_max_pages` pages of `buffer_page_size`
    /// bytes.
    pub fn new(
        path: String,
        create: bool,
        initial_capacity: u64,
        buffer_page_size: u32,
        buffer_max_pages: u32,
        expand_size: u64,
    ) -> (r: Result<FileBinaryStorage, Error>)
        ensures
            match params_error(expand_size as int, initial_capacity as int) {
                Some(msg) => r matches Err(e) && is_assertion(e, msg),
                None => r matches Ok(s) && s.wf() && s@ == FileStorageState {
                    path: path@,
                    create,
                    open: false,
                    initial_capacity: initial_capacity as nat,
                    capacity: 0,
                    expand_size: expand_size as nat,
                    page_size: buffer_page_size as nat,
                    max_pages: buffer_max_pages as nat,
                },
            },
    {
        match FileBinaryStorage::check_params(expand_size, initial_capacity) {
            Ok(()) => {},
            Err(e) => return Err(Error::Assertion(e)),
        }
        Ok(FileBinaryStorage {
            path,
            create,
            buffer_page_size,
            buffer_max_pages,
            is_open: false,
            initial_capacity,
            capacity: 0,
            expand_size,
        })
    }

    /// The path of the file.
    pub fn path(&self) -> (r: &str)
        ensures
            r@ == self@.path,
    {
        self.path.as_str()
    }

    /// Whether the storage is open.
    pub fn is_open(&self) -> (r: bool)
        ensures
            r == self@.open,
    {
        self.is_open
    }

    /// The check that comes before the file is opened: an open storage
    /// cannot be opened again.
    pub fn begin_open(&self) -> (r: Result<(), Error>)
        ensures
            r is Ok <==> !self@.open,
            r matches Err(e) ==> is_assertion(e, ERR_OPERATION_INVALID_WHEN_OPEN@),
    {
        if self.is_open {
            return Err(Error::Assertion(AssertionError::new(ERR_OPERATION_INVALID_WHEN_OPEN)));
        }
        Ok(())
    }

    /// The length a newly opened file is to be given: the initial capacity
    /// when the file did not exist before and was created; nothing otherwise.
    pub fn initial_file_len(&self, preexisting: bool) -> (r: Option<u64>)
        ensures
            r == (if !preexisting && self@.create {
                Some(self@.initial_capacity as u64)
            } else {
                None::<u64>
            }),
    {
        if !preexisting && self.create {
            Some(self.initial_capacity)
        } else {
            None
        }
    }

    /// The empty page cache an opened storage reads through.
    pub fn new_buffer(&self) -> (r: FileSyncedBuffer)
        ensures
            r.wf(),
            r@ == (BufferState {
                page_size: self@.page_size,
                max_pages: self@.max_pages,
                pages: Seq::empty(),
            }),
    {
        FileSyncedBuffer::new(self.buffer_page_size, self.buffer_max_pages as u64)
    }

    /// Marks the storage open on a file of `file_len` bytes, which becomes
    /// the capacity; an open storage is refused and left as it is.
    pub fn open(&mut self, file_len: u64) -> (r: Result<(), Error>)
        requires
            old(self).wf(),
        ensures
            final(self).wf(),
            r is Ok <==> !old(self)@.open,
            r matches Err(e) ==> is_assertion(e, ERR_OPERATION_INVALID_WHEN_OPEN@) && final(self)@
                == old(self)@,
            r is Ok ==> final(self)@ == (FileStorageState {
                open: true,
                capacity: file_len as nat,
                ..old(self)@
            }),
    {
        self.begin_open()?;
        self.capacity = file_len;
        self.is_open = true;
        Ok(())
    }

    /// Marks an open storage closed; a closed storage is refused.
    pub fn close(&mut self) -> (r: Result<(), Error>)
        requires
            old(self).wf(),
        ensures
            final(self).wf(),
            r is Ok <==> old(self)@.open,
            r matches Err(e) ==> is_assertion(e, ERR_OPERATION_INVALID_WHEN_CLOSED@) && final(self)@
                == old(self)@,
            r is Ok ==> final(self)@ == (FileStorageState { open: false, ..old(self)@ }),
    {
        if !self.is_open {
            return Err(Error::Assertion(AssertionError::new(ERR_OPERATION_INVALID_WHEN_CLOSED)));
        }
        self.is_open = false;
        Ok(())
    }

    /// The capacity of an open storage.
    pub fn get_capacity(&self) -> (r: Result<u64, Error>)
        ensures
            r is Ok <==> self@.open,
            r matches Ok(c) ==> c == self@.capacity,
            r matches Err(e) ==> is_assertion(e, ERR_OPERATION_INVALID_WHEN_CLOSED@),
    {
        if !self.is_open {
            return Err(Error::Assertion(AssertionError::new(ERR_OPERATION_INVALID_WHEN_CLOSED)));
        }
        Ok(self.capacity)
    }

    /// The end of a write of `len` bytes at `offset`: the capacity the
    /// storage must reach before the file is written.
    pub fn write_end(&self, offset: u64, len: u64) -> (r: Result<u64, Error>)
        ensures
            match file_write_error(self@, offset as int, len as int) {
                Some(msg) => r matches Err(e) && is_assertion(e, msg),
                None => r == Ok::<u64, Error>((offset + len) as u64),
            },
    {
        if !self.is_open {
            return Err(Error::Assertion(AssertionError::new(ERR_OPERATION_INVALID_WHEN_CLOSED)));
        }
        match offset.checked_add(len) {
            Some(end) => Ok(end),
            None => Err(Error::Assertion(AssertionError::new(ERR_ARITHMETIC_OVERFLOW))),
        }
    }

    /// The capacity an expansion to at least `min_capacity` bytes needs the
    /// file to be resized to: the smallest multiple of the expansion size
    /// that holds them, or nothing when the storage already holds that many.
    pub fn expand_target(&self, min_capacity: u64) -> (r: Result<Option<u64>, Error>)
        requires
            self.wf(),
        ensures
            !self@.open ==> (r matches Err(e) && is_assertion(e, ERR_OPERATION_INVALID_WHEN_CLOSED@)),
            self@.open && file_expand_target(self@, min_capacity as int) > u64::MAX ==> (r matches Err(
                e,
            ) && is_assertion(e, ERR_ARITHMETIC_OVERFLOW@)),
            self@.open && file_expand_target(self@, min_capacity as int) <= u64::MAX ==> r == Ok::<
                Option<u64>,
                Error,
            >(
                if file_expand_target(self@, min_capacity as int) <= self@.capacity {
                    None
                } else {
                    Some(file_expand_target(self@, min_capacity as int) as u64)
                },
            ),
    {
        if !self.is_open {
            return Err(Error::Assertion(AssertionError::new(ERR_OPERATION_INVALID_WHEN_CLOSED)));
        }
        let q = min_capacity / self.expand_size;
        let increments = if min_capacity % self.expand_size == 0 {
            q
        } else {
            proof {
                assert(q < u64::MAX) by (nonlinear_arith)
                    requires
                        q == min_capacity / self.expand_size,
                        self.expand_size > 0,
                        min_capacity % self.expand_size != 0,
                ;
            }
            q + 1
        };
        assert(increments == ceil_div(min_capacity as nat, self.expand_size as nat));
        let new_capacity = match increments.checked_mul(self.expand_size) {
            Some(c) => c,
            None => return Err(Error::Assertion(AssertionError::new(ERR_ARITHMETIC_OVERFLOW))),
        };
        if new_capacity <= self.capacity {
            return Ok(None);
        }
        Ok(Some(new_capacity))
    }

    /// Records the outcome of resizing the file to `new_capacity` bytes: on
    /// success that is the new capacity; a failed resize leaves the storage
    /// as it was and reports that storage could not be allocated.
    pub fn finish_expand(&mut self, new_capacity: u64, resized: bool) -> (r: Result<(), Error>)
        requires
            old(self).wf(),
        ensures
            final(self).wf(),
            r is Ok <==> resized,
            r matches Err(e) ==> is_assertion(e, ERR_STORAGE_ALLOC@) && final(self)@ == old(self)@,
            r is Ok ==> final(self)@ == (FileStorageState {
                capacity: new_capacity as nat,
                ..old(self)@
            }),
    {
        if !resized {
            return Err(Error::Assertion(AssertionError::new(ERR_STORAGE_ALLOC)));
        }
        self.capacity = new_capacity;
        Ok(())
    }

    /// The check before `len` bytes at `offset` are read from the file.
    pub fn read_check(&self, offset: u64, len: u64) -> (r: Result<(), Error>)
        ensures
            match file_read_error(self@, offset as int, len as int) {
                Some(msg) => r matches Err(e) && is_assertion(e, msg),
                None => r is Ok,
            },
    {
        if !self.is_open {
            return Err(Error::Assertion(AssertionError::new(ERR_OPERATION_INVALID_WHEN_CLOSED)));
        }
        let end_offset = match offset.checked_add(len) {
            Some(e) => e,
            None => return Err(Error::Assertion(AssertionError::new(ERR_ARITHMETIC_OVERFLOW))),
        };
        if end_offset > self.capacity {
            return Err(Error::Assertion(AssertionError::new(ERR_READ_PAST_END)));
        }
        Ok(())
    }

    /// Where a fill of `[start, end)` writes, and how many bytes: an absent
    /// bound stands for the start or the end of the storage.
    pub fn fill_range(&self, start: Option<u64>, end: Option<u64>) -> (r: Result<(u64, usize), Error>)
        ensures
            match file_fill_error(self@, start, end) {
                Some(msg) => r matches Err(e) && is_assertion(e, msg),
                None => r matches Ok(p) && p.0 == file_range_start(start) && p.1 == file_range_end(
                    self@,
                    end,
                ) - file_range_start(start),
            },
    {
        if !self.is_open {
            return Err(Error::Assertion(AssertionError::new(ERR_OPERATION_INVALID_WHEN_CLOSED)));
        }
        let start_offset = match start {
            Some(v) => v,
            None => 0,
        };
        let end_offset = match end {
            Some(v) => v,
            None => self.capacity,
        };
        if start_offset >= self.capacity || end_offset > self.capacity {
            return Err(Error::Assertion(AssertionError::new(ERR_WRITE_PAST_END)));
        }
        if end_offset <= start_offset {
            return Err(Error::Assertion(AssertionError::new(ERR_WRITE_NOTHING)));
        }
        let len = end_offset - start_offset;
        if len > usize::MAX as u64 {
            return Err(Error::Assertion(AssertionError::new(ERR_ARITHMETIC_OVERFLOW)));
        }
        Ok((start_offset, len as usize))
    }

    /// Where a fill check of `[start, end)` reads, and how many bytes: an
    /// absent bound stands for the start or the end of the storage.
    pub fn is_filled_range(&self, start: Option<u64>, end: Option<u64>) -> (r: Result<
        (u64, usize),
        Error,
    >)
        ensures
            match file_is_filled_error(self@, start, end) {
                Some(msg) => r matches Err(e) && is_assertion(e, msg),
                None => r matches Ok(p) && p.0 == file_range_start(start) && p.1 == file_range_end(
                    self@,
                    end,
                ) - file_range_start(start),
            },
    {
        if !self.is_open {
            return Err(Error::Assertion(AssertionError::new(ERR_OPERATION_INVALID_WHEN_CLOSED)));
        }
        let start_offset = match start {
            Some(v) => v,
            None => 0,
        };
        let end_offset = match end {
            Some(v) => v,
            None => self.capacity,
        };
        if start_offset >= self.capacity || end_offset > self.capacity {
            return Err(Error::Assertion(AssertionError::new(ERR_READ_PAST_END)));
        }
        if end_offset <= start_offset {
            return Err(Error::Assertion(AssertionError::new(ERR_READ_NOTHING)));
        }
        let len = end_offset - start_offset;
        if len > usize::MAX as u64 {
            return Err(Error::Assertion(AssertionError::new(ERR_ARITHMETIC_OVERFLOW)));
        }
        Ok((start_offset, len as usize))
    }

    /// The expansion size.
    pub fn get_expand_size(&self) -> (r: u64)
        ensures
            r == self@.expand_size,
    {
        self.expand_size
    }

    /// Changes the expansion size, which must pass the parameter check
    /// together with the initial capacity.
    pub fn set_expand_size(&mut self, expand_size: u64) -> (r: Result<(), Error>)
        requires
            old(self).wf(),
        ensures
            final(self).wf(),
            match params_error(expand_size as int, old(self)@.initial_capacity as int) {
                Some(msg) => r matches Err(e) && is_assertion(e, msg) && final(self)@ == old(self)@,
                None => r is Ok && final(self)@ == (FileStorageState {
                    expand_size: expand_size as nat,
                    ..old(self)@
                }),
            },
    {
        match FileBinaryStorage::check_params(expand_size, self.initial_capacity) {
            Ok(()) => {},
            Err(e) => return Err(Error::Assertion(e)),
        }
        self.expand_size = expand_size;
        Ok(())
    }
}

/// Whether every byte of `data` equals `val`: what a fill check answers
/// once the range has been read.
pub fn is_filled_with(data: &[u8], val: u8) -> (r: bool)
    ensures
        r == all_equal(data@, val),
{
    let mut i: usize = 0;
    while i < data.len()
        invariant
            i <= data@.len(),
            forall|j: int| 0 <= j < i ==> data@[j] == val,
        decreases data@.len() - i,
    {
        if data[i] != val {
            return false;
        }
        i += 1;
    }
    true
}

/// The bytes a storage writes for a `u16`: its little-endian encoding.
pub fn u16_bytes(data: u16) -> (r: Vec<u8>)
    ensures
        r@ == spec_u16_to_le_bytes(data),
{
    encode_u16(data)
}

/// The bytes a storage writes for a `u32`: its little-endian encoding.
pub fn u32_bytes(data: u32) -> (r: Vec<u8>)
    ensures
        r@ == spec_u32_to_le_bytes(data),
{
    encode_u32(data)
}

/// The bytes a storage writes for a `u64`: its little-endian encoding.
pub fn u64_bytes(data: u64) -> (r: Vec<u8>)
    ensures
        r@ == spec_u64_to_le_bytes(data),
{
    encode_u64(data)
}

/// The `u16` that bytes read from a storage hold: the little-endian value
/// of the first two, or an I/O error when fewer came back.
pub fn u16_of(data: &[u8]) -> (r: Result<u16, Error>)
    ensures
        r is Ok <==> data@.len() >= 2,
        r matches Ok(v) ==> v == spec_u16_from_le_bytes(data@.subrange(0, 2)),
        r is Err ==> r matches Err(Error::Io(_)),
{
    match cursor_read_u16(data, 0) {
        Ok(v) => Ok(v),
        Err(text) => Err(Error::Io(text)),
    }
}

/// The `u32` that bytes read from a storage hold: the little-endian value
/// of the first four, or an I/O error when fewer came back.
pub fn u32_of(data: &[u8]) -> (r: Result<u32, Error>)
    ensures
        r is Ok <==> data@.len() >= 4,
        r matches Ok(v) ==> v == spec_u32_from_le_bytes(data@.subrange(0, 4)),
        r is Err ==> r matches Err(Error::Io(_)),
{
    match cursor_read_u32(data, 0) {
        Ok(v) => Ok(v),
        Err(text) => Err(Error::Io(text)),
    }
}

/// The `u64` that bytes read from a storage hold: the little-endian value
/// of the first eight, or an I/O error when fewer came back.
pub fn u64_of(data: &[u8]) -> (r: Result<u64, Error>)
    ensures
        r is Ok <==> data@.len() >= 8,
        r matches Ok(v) ==> v == spec_u64_from_le_bytes(data@.subrange(0, 8)),
        r is Err ==> r matches Err(Error::Io(_)),
{
    match cursor_read_u64(data, 0) {
        Ok(v) => Ok(v),
        Err(text) => Err(Error::Io(text)),
    }
}

/// A write makes room for itself: the capacity an expansion asks for holds
/// the end of the write, is a multiple of the expansion size, and is the
/// smallest such; once the storage has it (or already had more), a read of
/// the written range passes its check.
pub proof fn law_write_makes_room(s: FileStorageState, offset: nat, len: nat)
    requires
        s.open,
        s.expand_size > 0,
        offset + len <= u64::MAX,
    ensures
        ({
            let target = file_expand_target(s, (offset + len) as int);
            let t = FileStorageState {
                capacity: if target <= s.capacity {
                    s.capacity
                } else {
                    target
                },
                ..s
            };
            &&& offset + len <= target < offset + len + s.expand_size
            &&& target % s.expand_size == 0
            &&& file_read_error(t, offset as int, len as int) is None
        }),
{
    lemma_round_up((offset + len) as nat, s.expand_size);
}

} // verus!
