//! Messages of the errors that binary storage operations report.
use vstd::prelude::*;

verus! {

pub const ERR_STORAGE_ALLOC: &'static str = "Storage allocation failed";
pub const ERR_ARITHMETIC_OVERFLOW: &'static str = "Operation failed due to arithmetic overflow";
pub const ERR_EXPAND_SIZE_TOO_SMALL: &'static str = "Expansion size must be greater that zero";
pub const ERR_INITIAL_CAP_TOO_SMALL: &'static str = "Initial capacity must be greater than zero";
pub const ERR_INITIAL_CAP_NOT_POWER_OF_2: &'static str = "Initial capacity must be a power of 2";
pub const ERR_EXPAND_SIZE_NOT_POWER_OF_2: &'static str = "Expansion size must be a power of 2";
pub const ERR_WRITE_PAST_END: &'static str = "Cannot write past end of allocated storage";
pub const ERR_READ_PAST_END: &'static str = "Cannot read past end of allocated storage";
pub const ERR_OPERATION_INVALID_WHEN_OPEN: &'static str = "Cannot perform this operation when storage is open";
pub const ERR_OPERATION_INVALID_WHEN_CLOSED: &'static str = "Cannot perform this operation when storage is closed";
pub const ERR_WRITE_NOTHING: &'static str = "End of write must be after start of write";
pub const ERR_READ_NOTHING: &'static str = "End of read must be after start of read";

} // verus!
