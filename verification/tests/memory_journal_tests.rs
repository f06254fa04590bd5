use journal_storage::memory_journal::MemoryJournal;

fn journal(initial_capacity: usize, expand_size: usize) -> MemoryJournal {
    MemoryJournal::new(initial_capacity, expand_size).unwrap()
}

#[test]
fn memory_journal_new_refuses_sizes_that_are_not_powers_of_2() {
    assert!(MemoryJournal::new(1000, 1024).is_none());
    assert!(MemoryJournal::new(1024, 1000).is_none());
    assert!(MemoryJournal::new(0, 1024).is_none());
    assert!(MemoryJournal::new(1024, 1024).is_some());
}

#[test]
fn memory_journal_is_closed_when_new() {
    let j = journal(1024, 1024);
    assert!(!j.is_open());
    assert_eq!(0, j.capacity());
}

#[test]
fn memory_journal_does_nothing_when_closed() {
    let mut j = journal(1024, 1024);
    assert!(!j.write(&[1, 2, 3]));
    assert!(!j.commit());
    assert!(!j.discard());
    assert!(!j.next());
    assert!(!j.reset());
    assert_eq!(0, j.size());
    assert_eq!(None, j.read());
    assert!(!j.is_writing());
}

#[test]
fn memory_journal_commits_and_reads_one_item() {
    let mut j = journal(1024, 1024);
    j.open();
    assert!(j.write(&[1, 2, 3]));
    assert!(j.commit());
    assert_eq!(Some(vec![1, 2, 3]), j.read());
}

#[test]
fn memory_journal_returns_correct_record_size() {
    let mut j = journal(1024, 1024);
    j.open();
    j.write(&[0, 1, 2, 3, 4]);
    j.commit();
    assert_eq!(5, j.size());
}

#[test]
fn memory_journal_is_writing_between_write_and_commit_or_discard() {
    let mut j = journal(1024, 1024);
    j.open();
    assert!(!j.is_writing());
    j.write(&[0, 1, 2, 3, 4]);
    assert!(j.is_writing());
    j.commit();
    assert!(!j.is_writing());
    j.write(&[0, 1, 2, 3, 4]);
    j.discard();
    assert!(!j.is_writing());
}

#[test]
fn memory_journal_write_refused_while_writing() {
    let mut j = journal(1024, 1024);
    j.open();
    assert!(j.write(&[1]));
    assert!(!j.write(&[2]));
}

#[test]
fn memory_journal_read_returns_none_for_discarded_or_uncommitted_record() {
    let mut j = journal(1024, 1024);
    j.open();
    j.write(&[0, 1, 2, 3, 4]);
    assert_eq!(None, j.read());
    j.discard();
    assert_eq!(None, j.read());
}

#[test]
fn memory_journal_write_adds_record_in_place_of_discarded_record() {
    let mut j = journal(1024, 1024);
    j.open();
    j.write(&[0, 1]);
    j.commit();
    j.write(&[7, 8, 9]);
    j.discard();
    j.write(&[6, 5, 4, 3]);
    j.commit();
    assert_eq!(2, j.size());
    assert!(j.next());
    assert_eq!(4, j.size());
    assert_eq!(Some(vec![6, 5, 4, 3]), j.read());
}

#[test]
fn memory_journal_commits_multiple_items_then_reads_from_beginning() {
    let mut j = journal(1024, 1024);
    j.open();
    j.write(&[0, 1]);
    j.commit();
    j.write(&[7, 8, 9]);
    j.commit();
    j.write(&[6, 5, 4, 3]);
    j.commit();
    assert_eq!(2, j.size());
    assert!(j.next());
    assert_eq!(3, j.size());
    assert!(j.next());
    assert_eq!(4, j.size());
    assert!(j.next());
    assert!(!j.next());
    assert_eq!(0, j.size());
}

#[test]
fn memory_journal_reset_starts_reading_from_beginning() {
    let mut j = journal(1024, 1024);
    j.open();
    j.write(&[0, 1]);
    j.commit();
    j.write(&[7, 8, 9]);
    j.commit();
    j.next();
    j.next();
    assert!(j.reset());
    assert_eq!(Some(vec![0, 1]), j.read());
    assert_eq!(Some(vec![0, 1]), j.read());
}

#[test]
fn memory_journal_allocates_initial_capacity() {
    let mut j = journal(1024, 2048);
    j.open();
    assert_eq!(1024, j.capacity());
}

#[test]
fn memory_journal_allocates_more_capacity_by_given_size_increment() {
    let mut j = journal(4096, 2048);
    j.open();
    let data = [0u8; 1500];
    j.write(&data);
    j.commit();
    j.write(&data);
    j.commit();
    j.write(&data);
    j.commit();
    assert_eq!(6144, j.capacity());
    j.write(&data);
    j.commit();
    assert_eq!(6144, j.capacity());
    j.write(&data);
    j.commit();
    assert_eq!(8192, j.capacity());
    j.write(&data);
    j.commit();
    assert_eq!(10240, j.capacity());
}

#[test]
fn memory_journal_allocates_enough_capacity_for_record_larger_than_size_increment() {
    let mut j = journal(1024, 512);
    j.open();
    let data = [0u8; 4000];
    j.write(&data);
    j.commit();
    assert_eq!(4096, j.capacity());
}

#[test]
fn memory_journal_close_keeps_records() {
    let mut j = journal(1024, 1024);
    j.open();
    j.write(&[9, 9]);
    j.commit();
    j.close();
    assert_eq!(None, j.read());
    j.open();
    assert_eq!(Some(vec![9, 9]), j.read());
}
