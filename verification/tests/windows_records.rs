use dua::timestamp::Timestamp;
use dua::winfs::{
    absolute_verbatim_path, absolute_without_name_normalization, verbatim_path_for, PathComponent, entry_at, filetime_to_timestamp, refill_outcome, FileType, RecordError, RefillOutcome,
    ERROR_HANDLE_EOF, ERROR_NO_MORE_FILES, FILE_ATTRIBUTE_DIRECTORY, FILE_ATTRIBUTE_REPARSE_POINT, HEADER_SIZE,
    WINDOWS_TO_UNIX_TICKS,
};

#[test]
fn type_flags_match_windows_symlink_metadata_semantics() {
    const FILE_ATTRIBUTE_NORMAL: u32 = 0x80;
    const IO_REPARSE_TAG_SYMLINK: u32 = 0xA000_000C;
    const IO_REPARSE_TAG_MOUNT_POINT: u32 = 0xA000_0003;
    const IO_REPARSE_TAG_CLOUD: u32 = 0x9000_001A;

    let file = FileType::from_attributes(FILE_ATTRIBUTE_NORMAL, 0);
    assert!(!file.is_dir());
    assert!(file.is_file());
    assert!(!file.is_symlink());
    let dir = FileType::from_attributes(FILE_ATTRIBUTE_DIRECTORY, 0);
    assert!(dir.is_dir());
    assert!(!dir.is_file());
    assert!(!dir.is_symlink());
    for tag in [IO_REPARSE_TAG_SYMLINK, IO_REPARSE_TAG_MOUNT_POINT] {
        let link = FileType::from_attributes(FILE_ATTRIBUTE_DIRECTORY | FILE_ATTRIBUTE_REPARSE_POINT, tag);
        assert!(!link.is_dir());
        assert!(!link.is_file());
        assert!(link.is_symlink());
    }
    let cloud = FileType::from_attributes(FILE_ATTRIBUTE_DIRECTORY | FILE_ATTRIBUTE_REPARSE_POINT, IO_REPARSE_TAG_CLOUD);
    assert!(cloud.is_dir());
    assert!(!cloud.is_symlink());
}

fn put_u32(buffer: &mut [u8], at: usize, value: u32) {
    buffer[at..at + 4].copy_from_slice(&value.to_le_bytes());
}

fn put_u64(buffer: &mut [u8], at: usize, value: u64) {
    buffer[at..at + 8].copy_from_slice(&value.to_le_bytes());
}

fn record(buffer: &mut [u8], at: usize, next: u32, name: &str, size: u64, file_id: u64) {
    put_u32(buffer, at, next);
    put_u64(buffer, at + 24, WINDOWS_TO_UNIX_TICKS + 15);
    put_u64(buffer, at + 40, size);
    put_u64(buffer, at + 48, 4096);
    put_u32(buffer, at + 56, 0x20);
    let units: Vec<u16> = name.encode_utf16().collect();
    put_u32(buffer, at + 60, (units.len() * 2) as u32);
    put_u64(buffer, at + 96, file_id);
    for (i, unit) in units.iter().enumerate() {
        buffer[at + HEADER_SIZE + 2 * i..at + HEADER_SIZE + 2 * i + 2].copy_from_slice(&unit.to_le_bytes());
    }
}

#[test]
fn enumeration_records_decode_and_chain() {
    let mut buffer = vec![0u8; 256];
    record(&mut buffer, 0, 120, "ab", 7, 42);
    record(&mut buffer, 120, 0, "c", u64::MAX, 0);
    let (first, next) = entry_at(&buffer, 0, 9).unwrap();
    assert_eq!(String::from_utf16(&first.file_name).unwrap(), "ab");
    assert!(first.file_type.is_file());
    assert_eq!(first.metadata.len(), 7);
    assert_eq!(first.metadata.allocated_size(), 4096);
    assert_eq!(first.metadata.hard_link_id(), Some((9, 42)));
    assert_eq!(first.metadata.modified(), Timestamp { seconds: 0, nanos: 1500 });
    assert_eq!(next, Some(120));
    let (second, next) = entry_at(&buffer, 120, 9).unwrap();
    assert_eq!(second.metadata.len(), 0, "negative sizes count as zero");
    assert_eq!(second.metadata.hard_link_id(), None);
    assert_eq!(next, None);
}

#[test]
fn malformed_enumeration_records_are_rejected() {
    let mut buffer = vec![0u8; 256];
    record(&mut buffer, 0, 200, "ab", 7, 42);
    assert_eq!(entry_at(&buffer, 0, 9).err(), Some(RecordError::OffsetExceedsBuffer));
    assert_eq!(entry_at(&buffer, 200, 9).err(), Some(RecordError::HeaderExceedsBuffer));
    put_u32(&mut buffer, 60, 3);
    assert_eq!(entry_at(&buffer, 0, 9).err(), Some(RecordError::OddNameLength));
    put_u32(&mut buffer, 60, 400);
    assert_eq!(entry_at(&buffer, 0, 9).err(), Some(RecordError::FilenameExceedsBuffer));
    assert_eq!(RecordError::OddNameLength.message(), "Windows directory record has an odd UTF-16 byte length");
}

#[test]
fn filetimes_before_the_epoch_round_towards_the_past() {
    assert_eq!(filetime_to_timestamp(WINDOWS_TO_UNIX_TICKS), Timestamp { seconds: 0, nanos: 0 });
    assert_eq!(filetime_to_timestamp(WINDOWS_TO_UNIX_TICKS + 10_000_001), Timestamp { seconds: 1, nanos: 100 });
    assert_eq!(filetime_to_timestamp(WINDOWS_TO_UNIX_TICKS - 9_000_000), Timestamp { seconds: -1, nanos: 100_000_000 });
    assert_eq!(filetime_to_timestamp(0), Timestamp { seconds: -11_644_473_600, nanos: 0 });
}

fn wide(text: &str) -> Vec<u16> {
    text.encode_utf16().collect()
}

fn with_nul(text: &str) -> Vec<u16> {
    let mut units = wide(text);
    units.push(0);
    units
}

#[test]
fn paths_become_verbatim() {
    assert_eq!(absolute_verbatim_path(&wide(r"\\?\C:\x"), &wide("ignored")), with_nul(r"\\?\C:\x"));
    assert_eq!(absolute_verbatim_path(&wide(r"\??\C:\x"), &wide("ignored")), with_nul(r"\??\C:\x"));
    assert_eq!(absolute_verbatim_path(&wide("x"), &wide("C:/dir/x")), with_nul(r"\\?\C:\dir\x"));
    assert_eq!(absolute_verbatim_path(&wide("x"), &wide(r"\\.\pipe\p")), with_nul(r"\\?\pipe\p"));
    assert_eq!(absolute_verbatim_path(&wide("x"), &wide(r"\\server\share\x")), with_nul(r"\\?\UNC\server\share\x"));
}

#[test]
fn listing_ends_on_its_two_end_errors() {
    assert_eq!(refill_outcome(true, None), RefillOutcome::Records);
    assert_eq!(refill_outcome(false, Some(ERROR_NO_MORE_FILES)), RefillOutcome::Exhausted);
    assert_eq!(refill_outcome(false, Some(ERROR_HANDLE_EOF)), RefillOutcome::Exhausted);
    assert_eq!(refill_outcome(false, Some(5)), RefillOutcome::Failed);
    assert_eq!(refill_outcome(false, None), RefillOutcome::Failed);
}

fn name(text: &str) -> PathComponent {
    PathComponent::Normal(wide(text))
}

fn drive(text: &str) -> PathComponent {
    PathComponent::Prefix(wide(text))
}

#[test]
fn relative_paths_join_the_current_directory_and_resolve_dots_lexically() {
    let cwd = vec![drive("C:"), PathComponent::RootDir, name("work")];
    let relative = vec![name("dir"), name("child.")];
    assert_eq!(absolute_without_name_normalization(&relative, &cwd), Some(wide(r"C:\work\dir\child.")));
    assert_eq!(
        verbatim_path_for(&wide(r"dir\child."), &relative, &cwd),
        Some(with_nul(r"\\?\C:\work\dir\child.")),
        "trailing dots of names are kept"
    );
    let dotted = vec![PathComponent::CurDir, name("a"), PathComponent::ParentDir, PathComponent::ParentDir, PathComponent::ParentDir, name("b")];
    assert_eq!(absolute_without_name_normalization(&dotted, &cwd), Some(wide(r"C:\b")));
    let rooted = vec![PathComponent::RootDir, name("top")];
    assert_eq!(absolute_without_name_normalization(&rooted, &cwd), Some(wide(r"C:\top")));
    let absolute = vec![drive("D:"), PathComponent::RootDir, name("x"), PathComponent::CurDir];
    assert_eq!(absolute_without_name_normalization(&absolute, &cwd), Some(wide(r"D:\x")));
    let drive_relative = vec![drive("D:"), name("x")];
    assert_eq!(absolute_without_name_normalization(&drive_relative, &cwd), None);
    assert_eq!(verbatim_path_for(&wide("D:x"), &drive_relative, &cwd), None);
    let share = vec![drive(r"\\server\share"), PathComponent::RootDir, name("x")];
    assert_eq!(verbatim_path_for(&wide(r"\\server\share\x"), &share, &cwd), Some(with_nul(r"\\?\UNC\server\share\x")));
    assert_eq!(verbatim_path_for(&wide(r"\\?\C:\a\..\b"), &Vec::new(), &cwd), Some(with_nul(r"\\?\C:\a\..\b")));
}
