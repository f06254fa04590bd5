use journal_storage::binary_storage;
use journal_storage::event_journal::EventJournal;
use journal_storage::memory_binary_storage;
use journal_storage::memory_binary_storage::MemoryBinaryStorage;

#[test]
fn event_journal_is_closed_by_default() {
    let j = EventJournal::new(MemoryBinaryStorage::new(256, 256, false).unwrap());
    assert!(!j.is_open());
}

#[test]
fn event_journal_close_returns_err_when_already_closed() {
    let mut j = EventJournal::new(MemoryBinaryStorage::new(256, 256, false).unwrap());
    assert_eq!(
        binary_storage::ERR_OPERATION_INVALID_WHEN_CLOSED,
        j.close().unwrap_err().description()
    );
}

#[test]
fn event_journal_open_returns_ok_when_previously_closed() {
    let mut j = EventJournal::new(MemoryBinaryStorage::new(256, 256, false).unwrap());
    assert!(j.open().is_ok());
}

#[test]
fn event_journal_open_returns_err_when_previously_open() {
    let mut j = EventJournal::new(MemoryBinaryStorage::new(256, 256, false).unwrap());
    j.open().unwrap();
    assert_eq!(
        binary_storage::ERR_OPERATION_INVALID_WHEN_OPEN,
        j.open().unwrap_err().description()
    );
}

#[test]
fn event_journal_close_returns_ok_when_previously_open() {
    let mut j = EventJournal::new(MemoryBinaryStorage::new(256, 256, false).unwrap());
    j.open().unwrap();
    assert!(j.close().is_ok());
}

#[test]
fn event_journal_is_open_after_open() {
    let mut j = EventJournal::new(MemoryBinaryStorage::new(256, 256, false).unwrap());
    j.open().unwrap();
    assert!(j.is_open());
}

#[test]
fn event_journal_is_closed_after_open_and_close() {
    let mut j = EventJournal::new(MemoryBinaryStorage::new(256, 256, false).unwrap());
    j.open().unwrap();
    j.close().unwrap();
    assert!(!j.is_open());
}

#[test]
fn event_journal_committed_event_reads_back() {
    let mut j = EventJournal::new(MemoryBinaryStorage::new(256, 256, false).unwrap());
    j.open().unwrap();
    j.write(&[1, 2, 3]).unwrap();
    assert!(j.is_writing());
    j.commit().unwrap();
    assert!(!j.is_writing());
    j.reset();
    assert!(j.has_start().unwrap());
    assert!(j.has_end().unwrap());
    assert_eq!(vec![1, 2, 3], j.read().unwrap());
    // Looking for a record after the last committed one reads past the
    // transaction boundary.
    assert_eq!(
        memory_binary_storage::ERR_READ_AFTER_TXN_BOUNDARY,
        j.next().unwrap_err().description()
    );
}

#[test]
fn event_journal_uncommitted_event_is_not_read() {
    let mut j = EventJournal::new(MemoryBinaryStorage::new(256, 256, false).unwrap());
    j.open().unwrap();
    j.write(&[1, 2, 3]).unwrap();
    j.reset();
    assert!(j.read().is_err());
    assert!(j.discard().is_ok());
    assert!(!j.is_writing());
}
