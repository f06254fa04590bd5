use journal_storage::journal::Journal;
use journal_storage::memory_binary_storage::MemoryBinaryStorage;
use journal_storage::transactional_storage::TransactionalStorage;
use journal_storage::journal_reader::JournalReader;
use journal_storage::journal_writer::JournalWriter;

#[test]
fn committed_records_read_back_in_order() {
    let mut writer = JournalWriter::new(64, 64, 64, 4096).unwrap();
    let records: Vec<Vec<u8>> = vec![vec![1], vec![2, 3], vec![], vec![4, 5, 6, 7, 8, 9, 10]];
    for r in &records {
        assert!(writer.write(r.as_slice()));
        assert!(writer.commit());
    }
    assert!(writer.write(&[42, 42]));
    let reader = JournalReader::new(writer.as_slice().to_vec(), writer.capacity(), writer.align());
    assert_eq!(4, reader.count());
    let mut reader = JournalReader::new(writer.as_slice().to_vec(), writer.capacity(), writer.align());
    for r in &records {
        assert_eq!(Some(r.clone()), reader.next());
    }
    assert_eq!(None, reader.next());
}

#[test]
fn discarded_record_leaves_memory_as_before() {
    let mut writer = JournalWriter::new(64, 64, 64, 4096).unwrap();
    writer.write(&[1, 2]);
    writer.commit();
    let before = writer.as_slice().to_vec();
    writer.write(&[3, 4, 5]);
    writer.discard();
    assert_eq!(before, writer.as_slice().to_vec());
}

#[test]
fn writer_grows_past_record_that_does_not_fit() {
    let mut writer = JournalWriter::new(16, 16, 16, 4096).unwrap();
    let data = [7u8; 40];
    assert!(writer.write(&data));
    assert_eq!(48, writer.capacity());
    assert!(writer.commit());
    let mut reader = JournalReader::new(writer.as_slice().to_vec(), writer.capacity(), writer.align());
    assert_eq!(Some(data.to_vec()), reader.next());
}

#[test]
fn expand_if_needed_keeps_capacity_when_room_exists() {
    let mut writer = JournalWriter::new(64, 16, 16, 4096).unwrap();
    assert!(writer.expand_if_needed(58));
    assert_eq!(64, writer.capacity());
    assert!(writer.expand_if_needed(59));
    assert_eq!(80, writer.capacity());
}

#[test]
fn reader_last_of_no_records_is_none() {
    let reader = JournalReader::new(vec![0u8; 32], 32, 8);
    assert_eq!(None, reader.last());
}

#[test]
fn journal_one_byte_record_reads_back() {
    let mut j = Journal::new(TransactionalStorage::new(MemoryBinaryStorage::new(256, 256, false).unwrap()));
    j.open().unwrap();
    j.write(&[0x42]).unwrap();
    j.commit().unwrap();
    j.jump_to(0).unwrap();
    assert_eq!(vec![0x42], j.read().unwrap());
    assert_eq!(vec![0x42], j.read().unwrap());
    assert_eq!(0, j.read_offset());
}

#[test]
fn journal_write_after_discard_succeeds() {
    let mut j = Journal::new(TransactionalStorage::new(MemoryBinaryStorage::new(256, 256, false).unwrap()));
    j.open().unwrap();
    j.write(&[1, 2, 3]).unwrap();
    j.discard().unwrap();
    assert_eq!(0, j.write_offset());
    assert!(j.write(&[4, 5]).is_ok());
}
