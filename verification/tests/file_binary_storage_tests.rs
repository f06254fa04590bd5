use journal_storage::binary_storage;
use journal_storage::error::Error;
use journal_storage::file_binary_storage::{
    is_filled_with, u16_bytes, u16_of, u32_bytes, u32_of, u64_bytes, u64_of, FileBinaryStorage,
};

fn storage(expand_size: u64) -> FileBinaryStorage {
    FileBinaryStorage::new("data.bin".to_string(), true, 256, 16, 16, expand_size).unwrap()
}

fn open_storage(expand_size: u64) -> FileBinaryStorage {
    let mut s = storage(expand_size);
    s.open(256).unwrap();
    s
}

fn assertion_text(r: Error) -> String {
    match r {
        Error::Assertion(a) => a.description().to_string(),
        _ => panic!("not an assertion error"),
    }
}

#[test]
fn file_storage_new_checks_params() {
    let e = FileBinaryStorage::new("a".to_string(), true, 256, 16, 16, 0).unwrap_err();
    assert_eq!(binary_storage::ERR_EXPAND_SIZE_TOO_SMALL, assertion_text(e));
    let e = FileBinaryStorage::new("a".to_string(), true, 0, 16, 16, 512).unwrap_err();
    assert_eq!(binary_storage::ERR_INITIAL_CAP_TOO_SMALL, assertion_text(e));
    let e = FileBinaryStorage::new("a".to_string(), true, 257, 16, 16, 512).unwrap_err();
    assert_eq!(binary_storage::ERR_INITIAL_CAP_NOT_POWER_OF_2, assertion_text(e));
    let e = FileBinaryStorage::new("a".to_string(), true, 256, 16, 16, 513).unwrap_err();
    assert_eq!(binary_storage::ERR_EXPAND_SIZE_NOT_POWER_OF_2, assertion_text(e));
}

#[test]
fn file_storage_is_closed_when_new() {
    let s = storage(512);
    assert!(!s.is_open());
    assert_eq!("data.bin", s.path());
    assert!(s.get_capacity().is_err());
}

#[test]
fn file_storage_open_sets_capacity_to_file_len() {
    let mut s = storage(512);
    assert!(s.begin_open().is_ok());
    s.open(1024).unwrap();
    assert!(s.is_open());
    assert_eq!(1024, s.get_capacity().unwrap());
}

#[test]
fn file_storage_open_returns_err_when_already_open() {
    let mut s = open_storage(512);
    let e = s.begin_open().unwrap_err();
    assert_eq!(binary_storage::ERR_OPERATION_INVALID_WHEN_OPEN, assertion_text(e));
    let e = s.open(8).unwrap_err();
    assert_eq!(binary_storage::ERR_OPERATION_INVALID_WHEN_OPEN, assertion_text(e));
    assert_eq!(256, s.get_capacity().unwrap());
}

#[test]
fn file_storage_close_returns_err_when_already_closed() {
    let mut s = open_storage(512);
    assert!(s.close().is_ok());
    assert!(!s.is_open());
    let e = s.close().unwrap_err();
    assert_eq!(binary_storage::ERR_OPERATION_INVALID_WHEN_CLOSED, assertion_text(e));
}

#[test]
fn file_storage_initial_file_len_only_for_new_created_files() {
    let s = storage(512);
    assert_eq!(Some(256), s.initial_file_len(false));
    assert_eq!(None, s.initial_file_len(true));
    let t = FileBinaryStorage::new("b".to_string(), false, 256, 16, 16, 512).unwrap();
    assert_eq!(None, t.initial_file_len(false));
}

#[test]
fn file_storage_new_buffer_uses_buffer_params() {
    let s = FileBinaryStorage::new("b".to_string(), false, 256, 32, 8, 512).unwrap();
    let b = s.new_buffer();
    assert_eq!(32, b.get_page_size());
    assert_eq!(8, b.get_max_pages());
    assert_eq!(0, b.get_num_current_pages());
}

#[test]
fn file_storage_write_end_checks_open_and_overflow() {
    let s = storage(512);
    assert!(s.write_end(0, 8).is_err());
    let s = open_storage(512);
    assert_eq!(12, s.write_end(4, 8).unwrap());
    let e = s.write_end(u64::MAX, 1).unwrap_err();
    assert_eq!(binary_storage::ERR_ARITHMETIC_OVERFLOW, assertion_text(e));
}

#[test]
fn file_storage_expand_target_rounds_up_to_expand_size() {
    let s = open_storage(512);
    assert_eq!(None, s.expand_target(0).unwrap());
    assert_eq!(Some(512), s.expand_target(100).unwrap());
    assert_eq!(Some(512), s.expand_target(257).unwrap());
    let u = open_storage(64);
    assert_eq!(None, u.expand_target(100).unwrap());
    assert_eq!(None, u.expand_target(256).unwrap());
    assert_eq!(Some(320), u.expand_target(257).unwrap());
    assert_eq!(Some(1024), s.expand_target(513).unwrap());
    let t = open_storage(4);
    assert_eq!(Some(260), t.expand_target(257).unwrap());
    let e = s.expand_target(u64::MAX).unwrap_err();
    assert_eq!(binary_storage::ERR_ARITHMETIC_OVERFLOW, assertion_text(e));
}

#[test]
fn file_storage_expand_target_returns_err_when_closed() {
    let s = storage(512);
    let e = s.expand_target(1000).unwrap_err();
    assert_eq!(binary_storage::ERR_OPERATION_INVALID_WHEN_CLOSED, assertion_text(e));
}

#[test]
fn file_storage_finish_expand_sets_capacity_only_when_resized() {
    let mut s = open_storage(512);
    let e = s.finish_expand(512, false).unwrap_err();
    assert_eq!(binary_storage::ERR_STORAGE_ALLOC, assertion_text(e));
    assert_eq!(256, s.get_capacity().unwrap());
    s.finish_expand(512, true).unwrap();
    assert_eq!(512, s.get_capacity().unwrap());
}

#[test]
fn file_storage_read_check_rejects_reads_past_end() {
    let s = open_storage(512);
    assert!(s.read_check(248, 8).is_ok());
    let e = s.read_check(249, 8).unwrap_err();
    assert_eq!(binary_storage::ERR_READ_PAST_END, assertion_text(e));
    let e = s.read_check(u64::MAX, 8).unwrap_err();
    assert_eq!(binary_storage::ERR_ARITHMETIC_OVERFLOW, assertion_text(e));
    let c = storage(512);
    let e = c.read_check(0, 1).unwrap_err();
    assert_eq!(binary_storage::ERR_OPERATION_INVALID_WHEN_CLOSED, assertion_text(e));
}

#[test]
fn file_storage_fill_range_defaults_to_whole_storage() {
    let s = open_storage(512);
    assert_eq!((0, 256), s.fill_range(None, None).unwrap());
    assert_eq!((10, 246), s.fill_range(Some(10), None).unwrap());
    assert_eq!((0, 20), s.fill_range(None, Some(20)).unwrap());
}

#[test]
fn file_storage_fill_range_errors() {
    let s = open_storage(512);
    let e = s.fill_range(Some(256), None).unwrap_err();
    assert_eq!(binary_storage::ERR_WRITE_PAST_END, assertion_text(e));
    let e = s.fill_range(Some(0), Some(257)).unwrap_err();
    assert_eq!(binary_storage::ERR_WRITE_PAST_END, assertion_text(e));
    let e = s.fill_range(Some(20), Some(10)).unwrap_err();
    assert_eq!(binary_storage::ERR_WRITE_NOTHING, assertion_text(e));
    let c = storage(512);
    let e = c.fill_range(None, None).unwrap_err();
    assert_eq!(binary_storage::ERR_OPERATION_INVALID_WHEN_CLOSED, assertion_text(e));
}

#[test]
fn file_storage_is_filled_range_errors() {
    let s = open_storage(512);
    assert_eq!((5, 10), s.is_filled_range(Some(5), Some(15)).unwrap());
    let e = s.is_filled_range(Some(300), None).unwrap_err();
    assert_eq!(binary_storage::ERR_READ_PAST_END, assertion_text(e));
    let e = s.is_filled_range(Some(10), Some(10)).unwrap_err();
    assert_eq!(binary_storage::ERR_READ_NOTHING, assertion_text(e));
}

#[test]
fn file_storage_is_filled_with_checks_every_byte() {
    assert!(is_filled_with(&[7, 7, 7], 7));
    assert!(!is_filled_with(&[7, 6, 7], 7));
    assert!(is_filled_with(&[], 1));
}

#[test]
fn file_storage_set_expand_size_checks_params() {
    let mut s = open_storage(512);
    assert_eq!(512, s.get_expand_size());
    let e = s.set_expand_size(3).unwrap_err();
    assert_eq!(binary_storage::ERR_EXPAND_SIZE_NOT_POWER_OF_2, assertion_text(e));
    assert_eq!(512, s.get_expand_size());
    s.set_expand_size(64).unwrap();
    assert_eq!(64, s.get_expand_size());
}

#[test]
fn file_storage_encodes_little_endian() {
    assert_eq!(vec![0x34, 0x12], u16_bytes(0x1234));
    assert_eq!(vec![0x78, 0x56, 0x34, 0x12], u32_bytes(0x12345678));
    assert_eq!(vec![8, 7, 6, 5, 4, 3, 2, 1], u64_bytes(0x0102030405060708));
}

#[test]
fn file_storage_decodes_little_endian() {
    assert_eq!(0x1234, u16_of(&[0x34, 0x12]).unwrap());
    assert_eq!(0x12345678, u32_of(&[0x78, 0x56, 0x34, 0x12, 0xff]).unwrap());
    assert_eq!(0x0102030405060708, u64_of(&[8, 7, 6, 5, 4, 3, 2, 1]).unwrap());
    assert!(matches!(u16_of(&[1]), Err(Error::Io(_))));
    assert!(matches!(u32_of(&[1, 2, 3]), Err(Error::Io(_))));
    assert!(matches!(u64_of(&[]), Err(Error::Io(_))));
}
