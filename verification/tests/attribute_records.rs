use dua::attributes::{
    parse_record, read_record_length, root_clone_attributes, AttributeError, DataFork, ParsedRecord,
    APFS_EXTENDED_ATTRIBUTES, APFS_FILE_ATTRIBUTES, ATTR_CMN_DEVID, ATTR_CMN_ERROR, ATTR_CMN_FILEID, ATTR_CMN_MODTIME,
    ATTR_CMN_NAME, ATTR_CMN_OBJTYPE, ATTR_CMN_RETURNED_ATTRS, ATTR_FILE_ALLOCSIZE, ATTR_FILE_DATALENGTH,
    ATTR_FILE_LINKCOUNT, EF_MAY_SHARE_BLOCKS, VREG,
};
use dua::darwin::FileType;
use dua::timestamp::Timestamp;

struct Record {
    bytes: Vec<u8>,
}

impl Record {
    fn new(common: u32, file: u32, fork: u32) -> Record {
        let mut bytes = Vec::new();
        for value in [0u32, common, 0, 0, file, fork] {
            bytes.extend_from_slice(&value.to_le_bytes());
        }
        Record { bytes }
    }
    fn u32(mut self, value: u32) -> Record {
        self.bytes.extend_from_slice(&value.to_le_bytes());
        self
    }
    fn i32(mut self, value: i32) -> Record {
        self.bytes.extend_from_slice(&value.to_le_bytes());
        self
    }
    fn u64(mut self, value: u64) -> Record {
        self.bytes.extend_from_slice(&value.to_le_bytes());
        self
    }
    fn i64(mut self, value: i64) -> Record {
        self.bytes.extend_from_slice(&value.to_le_bytes());
        self
    }
    fn raw(mut self, data: &[u8]) -> Record {
        self.bytes.extend_from_slice(data);
        self
    }
    fn finish(mut self) -> Vec<u8> {
        let length = self.bytes.len() as u32;
        self.bytes[0..4].copy_from_slice(&length.to_le_bytes());
        self.bytes
    }
}

const FILE_COMMON: u32 = ATTR_CMN_RETURNED_ATTRS | ATTR_CMN_NAME | ATTR_CMN_DEVID | ATTR_CMN_OBJTYPE | ATTR_CMN_MODTIME | ATTR_CMN_FILEID;
const FILE_ATTRS: u32 = ATTR_FILE_LINKCOUNT | ATTR_FILE_ALLOCSIZE | ATTR_FILE_DATALENGTH;

/// A file record whose name reference starts at byte 24 and whose name lies at byte 84.
fn file_record(name_offset: i32, name_length: u32, seconds: i64, nanoseconds: i64) -> Vec<u8> {
    Record::new(FILE_COMMON, FILE_ATTRS, 0)
        .i32(name_offset)
        .u32(name_length)
        .i32(-1)
        .u32(VREG)
        .i64(seconds)
        .i64(nanoseconds)
        .u64(77)
        .u32(2)
        .u64(1000)
        .u64(900)
        .raw(b"a.txt\0")
        .finish()
}

#[test]
fn ordinary_records_decode_returned_attributes() {
    let record = parse_record(&file_record(60, 6, 5, 250), false, false).unwrap();
    assert_eq!(record.returned_common, FILE_COMMON);
    assert_eq!(record.returned_file, FILE_ATTRS);
    assert_eq!(record.file_name, Some(b"a.txt".to_vec()));
    assert_eq!(record.device, Some(u64::MAX), "device numbers are sign-extended");
    assert_eq!(record.object_type, Some(VREG));
    assert_eq!(record.modified, Some(Timestamp { seconds: 5, nanos: 250 }));
    assert_eq!(record.inode, Some(77));
    assert_eq!(record.file_links, Some(2));
    assert_eq!(record.file_allocated, Some(1024), "allocation rounds up to whole stat blocks");
    assert_eq!(record.file_length, Some(900));
    assert_eq!(record.file_data_allocated, None);
    assert_eq!((record.error, record.flags), (0, 0));
}

#[test]
fn fractional_pre_epoch_modification_times_are_normalized() {
    let record = parse_record(&file_record(60, 6, -1, -100_000_000), false, false).unwrap();
    assert_eq!(record.modified, Some(Timestamp { seconds: -2, nanos: 900_000_000 }));
    let record = parse_record(&file_record(60, 6, 0, -1), false, false).unwrap();
    assert_eq!(record.modified, Some(Timestamp { seconds: -1, nanos: 999_999_999 }));
    assert_eq!(
        parse_record(&file_record(60, 6, 1, -1), false, false).err(),
        Some(AttributeError::InvalidModificationNanoseconds)
    );
    assert_eq!(
        parse_record(&file_record(60, 6, 0, 1_000_000_000), false, false).err(),
        Some(AttributeError::InvalidModificationNanoseconds)
    );
}

#[test]
fn malformed_records_are_rejected() {
    assert_eq!(parse_record(&[0u8; 23], false, false).err(), Some(AttributeError::RecordTruncated));
    let without_bitmap = Record::new(ATTR_CMN_NAME, 0, 0).finish();
    assert_eq!(parse_record(&without_bitmap, false, false).err(), Some(AttributeError::MissingReturnedBitmap));
    assert_eq!(parse_record(&file_record(61, 6, 0, 0), false, false).err(), Some(AttributeError::FilenameExceedsRecord));
    assert_eq!(parse_record(&file_record(-25, 1, 0, 0), false, false).err(), Some(AttributeError::InvalidFilenameOffset));
    let truncated = Record::new(ATTR_CMN_RETURNED_ATTRS | ATTR_CMN_DEVID | ATTR_CMN_OBJTYPE, 0, 0).i32(1).finish();
    assert_eq!(parse_record(&truncated, false, false).err(), Some(AttributeError::AttributeExceedsRecord));
}

#[test]
fn packed_invalid_records_hold_every_requested_slot() {
    // Every common slot is present though the device was not returned; file slots follow.
    let bytes = Record::new(ATTR_CMN_RETURNED_ATTRS | ATTR_CMN_NAME | ATTR_CMN_OBJTYPE | ATTR_CMN_ERROR, 0, 0)
        .u32(13)
        .i32(132)
        .u32(2)
        .i32(5)
        .u32(VREG)
        .raw(&[0u8; 64])
        .u32(0)
        .u32(0)
        .u32(0)
        .u32(0)
        .u64(0)
        .raw(&[0u8; 28])
        .raw(b"n\0")
        .finish();
    let record = parse_record(&bytes, true, false).unwrap();
    assert_eq!(record.error, 13);
    assert_eq!(record.file_name, Some(b"n".to_vec()));
    assert_eq!(record.device, None);
    assert_eq!(record.object_type, Some(VREG));
    assert_eq!(record.modified, None);
    assert_eq!(record.inode, None);
    assert_eq!(record.file_links, None);
}

#[test]
fn record_lengths_and_clone_requests() {
    assert_eq!(read_record_length(&[0x10, 0, 0, 0, 9]), Ok(16));
    assert_eq!(read_record_length(&[1, 2, 3]), Err(AttributeError::AttributeExceedsRecord));
    let attributes = root_clone_attributes();
    assert_eq!(attributes.commonattr, ATTR_CMN_RETURNED_ATTRS | ATTR_CMN_DEVID | ATTR_CMN_FILEID);
    assert_eq!(attributes.fileattr, APFS_FILE_ATTRIBUTES);
    assert_eq!(attributes.forkattr, APFS_EXTENDED_ATTRIBUTES);
}

#[test]
fn clone_identity_needs_a_shared_block_flag_and_a_data_fork() {
    let mut record = ParsedRecord { file_data_allocated: Some(512), clone_id: Some(9), ..Default::default() };
    assert!(matches!(record.data_fork(), Some(DataFork { allocated_size: 512, clone_id: None })));
    record.extended_flags = Some(EF_MAY_SHARE_BLOCKS);
    assert!(matches!(record.data_fork(), Some(DataFork { allocated_size: 512, clone_id: Some(9) })));
    record.file_data_allocated = None;
    assert!(record.data_fork().is_none());
}

#[test]
fn bulk_metadata_preserves_fractional_pre_epoch_timestamps() {
    // 900 milliseconds before the epoch, as Apple's bulk enumeration reports it.
    let expected = Timestamp { seconds: -1, nanos: 100_000_000 };
    let record = parse_record(&file_record(60, 6, 0, -900_000_000), false, false).unwrap();
    let metadata = record.metadata(FileType { kind: VREG }).unwrap();
    assert_eq!(metadata.modified(), Ok(expected), "bulk metadata must preserve fractional pre-epoch timestamps");
}
