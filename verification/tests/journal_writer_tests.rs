use journal_storage::journal_writer::JournalWriter;

#[test]
fn new_requires_initial_capacity_greater_than_zero() {
    assert!(JournalWriter::new(0, 2, 2, 2).is_none());
    assert!(JournalWriter::new(2, 2, 2, 2).is_some());
}

#[test]
fn new_requires_expansion_size_greater_than_zero() {
    assert!(JournalWriter::new(2, 0, 2, 2).is_none());
    assert!(JournalWriter::new(2, 2, 2, 2).is_some());
}

#[test]
fn new_requires_max_page_size_is_power_of_2() {
    assert!(JournalWriter::new(5, 2, 2, 2).is_none());
    assert!(JournalWriter::new(2, 2, 2, 2).is_some());
}

#[test]
fn new_requires_alignment_is_power_of_2() {
    assert!(JournalWriter::new(2, 2, 2, 5).is_none());
    assert!(JournalWriter::new(2, 2, 2, 2).is_some());
}

#[test]
fn journal_writer_new_requires_initial_capacity_is_power_of_2() {
    assert!(JournalWriter::new(5, 2, 2, 2).is_none());
    assert!(JournalWriter::new(2, 2, 2, 2).is_some());
}

#[test]
fn journal_writer_new_requires_expand_size_is_power_of_2() {
    assert!(JournalWriter::new(2, 5, 2, 2).is_none());
    assert!(JournalWriter::new(2, 2, 2, 2).is_some());
}

#[test]
fn new_requires_alignement_no_larger_than_page_size() {
    assert!(JournalWriter::new(2, 2, 4, 2).is_none());
    assert!(JournalWriter::new(2, 2, 2, 2).is_some());
}

#[test]
fn journal_writer_new_sets_properties() {
    let writer = JournalWriter::new(256, 512, 1024, 4096).unwrap();
    assert_eq!(256, writer.capacity());
    assert_eq!(512, writer.expand_size());
    assert_eq!(1024, writer.align());
}

#[test]
fn as_slice_returns_slice_with_capacity_length() {
    let writer = JournalWriter::new(256, 512, 1024, 4096).unwrap();
    let slice = writer.as_slice();
    assert_eq!(slice.len(), writer.capacity());
}

#[test]
fn new_inits_memory_to_zeroes() {
    let writer = JournalWriter::new(256, 512, 1024, 4096).unwrap();
    let slice = writer.as_slice();
    for i in slice {
        assert_eq!(0x00, *i);
    }
}

#[test]
fn as_slice_returns_empty_slice_after_forget() {
    let mut writer = JournalWriter::new(256, 512, 1024, 4096).unwrap();
    writer.forget();
    let slice = writer.as_slice();
    assert_eq!(0, slice.len());
}

#[test]
fn capacity_is_zero_after_forget() {
    let mut writer = JournalWriter::new(256, 512, 1024, 4096).unwrap();
    writer.forget();
    assert_eq!(0, writer.capacity());
}

#[test]
fn storage_origin_returns_non_null_pointer() {
    let writer = JournalWriter::new(256, 512, 1024, 4096).unwrap();
    assert!(!writer.storage_origin().as_ptr().is_null());
}

#[test]
#[should_panic]
fn storage_origin_panics_after_forget() {
    let mut writer = JournalWriter::new(256, 512, 1024, 4096).unwrap();
    writer.forget();
    writer.storage_origin();
}

#[test]
fn journal_writer_is_not_writing_when_new() {
    let writer = JournalWriter::new(256, 512, 1024, 4096).unwrap();
    assert!(!writer.is_writing());
}

#[test]
fn commit_returns_false_when_not_writing() {
    let mut writer = JournalWriter::new(256, 512, 1024, 4096).unwrap();
    assert!(!writer.commit());
}

#[test]
fn commit_does_not_alter_contents_or_capacity_when_not_writing() {
    let mut writer = JournalWriter::new(256, 512, 1024, 4096).unwrap();
    writer.commit();
    assert_eq!(256, writer.capacity());
    let slice = writer.as_slice();
    for i in slice {
        assert_eq!(0x00, *i);
    }
}

#[test]
fn write_sets_is_writing_to_true() {
    let mut writer = JournalWriter::new(256, 512, 1024, 4096).unwrap();
    writer.write(&[1, 2, 3]);
    assert!(writer.is_writing());
}

#[test]
fn write_returns_true_when_not_already_writing() {
    let mut writer = JournalWriter::new(256, 512, 1024, 4096).unwrap();
    assert!(writer.write(&[1, 2, 3]));
}

#[test]
fn write_returns_false_when_already_writing() {
    let mut writer = JournalWriter::new(256, 512, 1024, 4096).unwrap();
    writer.write(&[1, 2, 3]);
    assert!(!writer.write(&[4, 5, 6]));
}

#[test]
fn write_sets_data_except_end_byte() {
    let mut writer = JournalWriter::new(256, 512, 1024, 4096).unwrap();
    writer.write(&[1, 2, 3]);
    assert_eq!(
        [0x02, 0x03, 0x00, 0x00, 0x00, 0x01, 0x02, 0x03, 0x00],
        writer.as_slice()[0..9]
    );
}

#[test]
fn discard_returns_false_when_not_writing() {
    let mut writer = JournalWriter::new(256, 512, 1024, 4096).unwrap();
    assert!(!writer.discard());
}

#[test]
fn discard_returns_true_when_writing() {
    let mut writer = JournalWriter::new(256, 512, 1024, 4096).unwrap();
    writer.write(&[1, 2, 3]);
    assert!(writer.discard());
}

#[test]
fn discard_zeroes_bytes() {
    let mut writer = JournalWriter::new(256, 512, 1024, 4096).unwrap();
    writer.write(&[1, 2, 3]);
    writer.discard();
    assert_eq!(
        [0x00, 0x00, 0x00, 0x00, 0x00, 0x00, 0x00, 0x00, 0x00],
        writer.as_slice()[0..9]
    );
}

#[test]
fn commit_sets_end_byte() {
    let mut writer = JournalWriter::new(256, 512, 1024, 4096).unwrap();
    writer.write(&[1, 2, 3]);
    writer.commit();
    assert_eq!(
        [0x02, 0x03, 0x00, 0x00, 0x00, 0x01, 0x02, 0x03, 0x03],
        writer.as_slice()[0..9]
    );
}

#[test]
fn discard_zeroes_only_uncommitted_bytes() {
    let mut writer = JournalWriter::new(256, 512, 1024, 4096).unwrap();
    writer.write(&[1, 2, 3]);
    writer.commit();
    writer.write(&[4, 5, 6]);
    assert_eq!(
        [
            0x02, 0x03, 0x00, 0x00, 0x00, 0x01, 0x02, 0x03, 0x03, 
            0x02, 0x03, 0x00, 0x00, 0x00, 0x04, 0x05, 0x06, 0x00
        ],
        writer.as_slice()[0..18]
    );
    writer.discard();
    assert_eq!(
        [
            0x02, 0x03, 0x00, 0x00, 0x00, 0x01, 0x02, 0x03, 0x03, 
            0x00, 0x00, 0x00, 0x00, 0x00, 0x00, 0x00, 0x00, 0x00
        ],
        writer.as_slice()[0..18]
    );
}

#[test]
fn write_sets_contents_in_place_of_discarded_record() {
    let mut writer = JournalWriter::new(256, 512, 1024, 4096).unwrap();
    writer.write(&[1, 2, 3]);
    writer.commit();
    writer.write(&[4, 5, 6]);
    writer.discard();
    writer.write(&[7, 8, 9]);
    assert_eq!(
        [
            0x02, 0x03, 0x00, 0x00, 0x00, 0x01, 0x02, 0x03, 0x03, 
            0x02, 0x03, 0x00, 0x00, 0x00, 0x07, 0x08, 0x09, 0x00
        ],
        writer.as_slice()[0..18]
    );
}

#[test]
fn commit_sets_end_bytes_on_multiple_records() {
    let mut writer = JournalWriter::new(256, 512, 1024, 4096).unwrap();
    writer.write(&[1, 2, 3]);
    writer.commit();
    writer.write(&[4, 5, 6]);
    writer.commit();
    assert_eq!(
        [
            0x02, 0x03, 0x00, 0x00, 0x00, 0x01, 0x02, 0x03, 0x03, 
            0x02, 0x03, 0x00, 0x00, 0x00, 0x04, 0x05, 0x06, 0x03
        ],
        writer.as_slice()[0..18]
    );
}

#[test]
fn expands_when_enough_room_exists() {
    let mut writer = JournalWriter::new(256, 512, 1024, 4096).unwrap();

    let mut data = Vec::<u8>::with_capacity(200);
    for i in 0..200 {
        data.push(i);
    }

    writer.write(data.as_slice());
    assert_eq!(200, data.as_slice().len());
    assert_eq!(256, writer.capacity());
    writer.commit();
    writer.write(data.as_slice());
    assert_eq!(512, writer.capacity());
    writer.commit();
    writer.write(data.as_slice());
    assert_eq!(1024, writer.capacity());
    writer.commit();
    writer.write(data.as_slice());
    assert_eq!(1024, writer.capacity());
}

#[test]
fn expands_when_record_larger_than_expand_size() {
    let mut writer = JournalWriter::new(128, 64, 1024, 4096).unwrap();

    let mut data = Vec::<u8>::with_capacity(200);
    for i in 0..200 {
        data.push(i);
    }

    writer.write(data.as_slice());
    assert_eq!(200, data.as_slice().len());
    assert_eq!(256, writer.capacity());
    writer.commit();
    writer.write(data.as_slice());
    assert_eq!(448, writer.capacity());
    writer.commit();
    writer.write(data.as_slice());
    assert_eq!(640, writer.capacity());
    writer.commit();
    writer.write(data.as_slice());
    assert_eq!(832, writer.capacity());
}

#[test]
fn expand_returns_false_when_arithmetic_overflow() {
    let mut writer = JournalWriter::new(128, 64, 1024, 4096).unwrap();
    assert!(!writer.expand_if_needed(usize::max_value()));
}

#[test]
fn expand_returns_false_when_alloc_fails() {
    let mut writer = JournalWriter::new(128, 64, 1024, 4096).unwrap();
    // Subtract 1000 from usize::MAX to avoid arithmetic overflow
    // when calculating required size for new record
    assert!(!writer.expand_if_needed(usize::max_value() - 1000));
}

#[test]
fn failed_expansion_does_not_alter_record_data() {
    let mut writer = JournalWriter::new(128, 64, 1024, 4096).unwrap();
    writer.write(&[0x01, 0x02, 0x03]);
    writer.commit();
    assert_eq!(
        [0x02, 0x03, 0x00, 0x00, 0x00, 0x01, 0x02, 0x03, 0x03],
        writer.as_slice()[0..9]
    );
    assert!(!writer.expand_if_needed(usize::max_value()));
    assert_eq!(
        [0x02, 0x03, 0x00, 0x00, 0x00, 0x01, 0x02, 0x03, 0x03],
        writer.as_slice()[0..9]
    );
}
