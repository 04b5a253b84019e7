use dua::attributes::{AttributeError, DataFork, ParsedRecord, EF_MAY_SHARE_BLOCKS, SF_FIRMLINK, VDIR, VLNK, VNON, VREG};
use dua::darwin::{
    enumerated_entry, is_dot_entry, record_end, BulkReader, FileType, Metadata, MetadataSource, ReadAction, RefillStep, EACCES,
    EINVAL, ENOTSUP,
};
use dua::timestamp::Timestamp;

fn file_record(name: &[u8]) -> ParsedRecord {
    ParsedRecord {
        file_name: Some(name.to_vec()),
        object_type: Some(VREG),
        file_length: Some(10),
        file_allocated: Some(4096),
        file_links: Some(1),
        modified: Some(Timestamp { seconds: 7, nanos: 5 }),
        device: Some(3),
        inode: Some(99),
        ..Default::default()
    }
}

#[test]
fn record_end_follows_the_length_prefix() {
    let mut buffer = vec![0u8; 64];
    buffer[0] = 32;
    assert_eq!(record_end(&buffer, 0), Ok(32));
    buffer[32] = 40;
    assert_eq!(record_end(&buffer, 32), Err(AttributeError::RecordExceedsBuffer));
    buffer[32] = 8;
    assert_eq!(record_end(&buffer, 32), Err(AttributeError::RecordExceedsBuffer));
    assert_eq!(record_end(&buffer, 61), Err(AttributeError::RecordHasNoLength));
}

#[test]
fn file_types_follow_the_std_predicates_in_order() {
    assert_eq!(FileType::from_flags(true, true, true).kind, VDIR);
    assert_eq!(FileType::from_flags(false, true, true).kind, VREG);
    assert_eq!(FileType::from_flags(false, false, true).kind, VLNK);
    assert_eq!(FileType::from_flags(false, false, false).kind, VNON);
    assert!(FileType { kind: VDIR }.is_dir());
    assert!(!FileType { kind: VREG }.is_symlink());
}

#[test]
fn stat_metadata_counts_whole_blocks_and_keeps_fitting_forks() {
    let fork = DataFork { allocated_size: 1024, clone_id: Some(5) };
    let file = FileType { kind: VREG };
    let m = Metadata::from_stat(100, 3, None, 1, 2, 1, file, Some(fork));
    assert_eq!(m.allocated_size(), 1536);
    assert_eq!(m.blocks(), 3);
    assert_eq!(m.data_allocated_size(), 1024);
    assert_eq!(m.clone_id(), Some(5));
    assert_eq!(m.modified(), Err(AttributeError::ModificationTimeUnavailable));

    let too_large = Metadata::from_stat(100, 1, None, 1, 2, 1, file, Some(fork));
    assert_eq!(too_large.data_allocated_size(), 512);
    let directory = Metadata::from_stat(100, 8, None, 1, 2, 1, FileType { kind: VDIR }, Some(fork));
    assert_eq!(directory.clone_id(), None);
    assert_eq!(Metadata::from_stat(0, u64::MAX, None, 1, 2, 1, file, None).allocated_size(), u64::MAX);
}

#[test]
fn complete_file_records_stand_for_stat() {
    let mut record = file_record(b"a");
    record.file_data_allocated = Some(2048);
    record.extended_flags = Some(EF_MAY_SHARE_BLOCKS);
    record.clone_id = Some(77);
    let m = record.metadata(FileType { kind: VREG }).unwrap();
    assert_eq!(m.len(), 10);
    assert_eq!(m.allocated_size(), 4096);
    assert_eq!(m.nlink(), 1);
    assert_eq!(m.dev(), 3);
    assert_eq!(m.ino(), 99);
    assert_eq!(m.clone_id(), Some(77));
    assert_eq!(m.modified(), Ok(Timestamp { seconds: 7, nanos: 5 }));
}

#[test]
fn incomplete_records_name_the_first_missing_attribute() {
    let file = FileType { kind: VREG };
    assert_eq!(file_record(b"a").metadata(FileType { kind: VDIR }), Err(AttributeError::MissingDirectoryLength));
    let mut record = file_record(b"a");
    record.file_links = None;
    record.inode = None;
    assert_eq!(record.metadata(file), Err(AttributeError::MissingFileLinks));
    let mut record = file_record(b"a");
    record.device = None;
    assert_eq!(record.metadata(file), Err(AttributeError::MissingDevice));
    assert_eq!(AttributeError::MissingDevice.message(), "missing device number");
}

#[test]
fn enumerated_entries_choose_their_metadata_source() {
    let entry = enumerated_entry(file_record(b"name"), None).unwrap();
    assert_eq!(entry.file_name, b"name".to_vec());
    assert!(matches!(entry.metadata, MetadataSource::Record(m) if m.len == 10));

    let mut firmlink = file_record(b"link");
    firmlink.flags = SF_FIRMLINK;
    assert_eq!(enumerated_entry(firmlink, None).unwrap().metadata, MetadataSource::Stat);

    let mut directory = file_record(b"dir");
    directory.object_type = Some(VDIR);
    let entry = enumerated_entry(directory, None).unwrap();
    assert_eq!(entry.metadata, MetadataSource::Stat);
    assert!(entry.file_type.is_dir());

    let mut failed = file_record(b"x");
    failed.error = 13;
    failed.object_type = None;
    let entry = enumerated_entry(failed, Some(1)).unwrap();
    assert_eq!(entry.metadata, MetadataSource::Failed(13));
    assert_eq!(entry.file_type.kind, VNON);
    assert_eq!(enumerated_entry(file_record(b"y"), Some(1)).unwrap().metadata, MetadataSource::Failed(1));

    let mut untyped = file_record(b"z");
    untyped.object_type = None;
    assert_eq!(enumerated_entry(untyped, None).err(), Some(AttributeError::MissingObjectType));
    let mut unnamed = file_record(b"z");
    unnamed.file_name = None;
    assert_eq!(enumerated_entry(unnamed, Some(1)).err(), Some(AttributeError::MissingFilename));
}

#[test]
fn bulk_reads_refill_retry_and_fall_back() {
    let mut reader = BulkReader::new(true);
    assert_eq!(reader.next_action(), ReadAction::Refill);
    assert_eq!(reader.after_bulk_read(3, None, false, false), RefillStep::Records(3));
    assert_eq!((reader.offset, reader.remaining), (0, 3));
    assert_eq!(reader.next_action(), ReadAction::NextRecord);
    reader.consume_record(40);
    assert_eq!((reader.offset, reader.remaining), (40, 2));

    let mut reader = BulkReader::new(true);
    assert_eq!(reader.after_bulk_read(-1, Some(4), true, false), RefillStep::Retry);
    assert_eq!(reader, BulkReader::new(true));
    assert_eq!(reader.after_bulk_read(-1, Some(EACCES), false, false), RefillStep::Retry);
    assert_eq!(reader.listing_error, Some(EACCES));
    assert!(!reader.extended_attributes);
    assert_eq!(reader.after_bulk_read(-1, Some(EACCES), false, false), RefillStep::Failed);
    assert_eq!(reader.next_action(), ReadAction::Done);

    let mut reader = BulkReader::new(true);
    assert_eq!(reader.after_bulk_read(-1, Some(EINVAL), false, false), RefillStep::Retry);
    assert!(!reader.extended_attributes);
    assert_eq!(reader.after_bulk_read(-1, Some(ENOTSUP), false, false), RefillStep::FallBack);
    assert!(!reader.exhausted);
    assert_eq!(reader.after_bulk_read(0, None, false, false), RefillStep::Exhausted);
    assert!(reader.exhausted);
}

#[test]
fn dot_entries_are_skipped() {
    assert!(is_dot_entry(b"."));
    assert!(is_dot_entry(b".."));
    assert!(!is_dot_entry(b"..."));
    assert!(!is_dot_entry(b".a"));
    assert!(!is_dot_entry(b""));
}
