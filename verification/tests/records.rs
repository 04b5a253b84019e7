use dua::attributes::{
    fts_allocated_bytes, requested_attributes, ParsedRecord, APFS_EXTENDED_ATTRIBUTES, APFS_FILE_ATTRIBUTES,
    ATTR_CMN_CRTIME, ATTR_CMN_DEVID, ATTR_FILE_ALLOCSIZE, ATTR_FILE_DEVTYPE, FTS_COMMON_ATTRIBUTES,
    FTS_FILE_ATTRIBUTES, VBLK, VCHR, VDIR, VFIFO, VLNK, VNON, VREG, VSOCK,
};
use dua::inodefilter::InodeFilter;

fn complete_record(object_type: u32) -> ParsedRecord {
    ParsedRecord {
        returned_common: FTS_COMMON_ATTRIBUTES,
        returned_file: FTS_FILE_ATTRIBUTES,
        object_type: Some(object_type),
        ..Default::default()
    }
}

#[test]
fn full_request_matches_fts_without_directory_attributes() {
    let attributes = requested_attributes(false, false);

    assert_eq!(attributes.commonattr, FTS_COMMON_ATTRIBUTES);
    assert_eq!(attributes.dirattr, 0);
    assert_eq!(attributes.fileattr, FTS_FILE_ATTRIBUTES);
    assert_eq!(attributes.forkattr, 0);

    let apfs_attributes = requested_attributes(false, true);
    assert_eq!(apfs_attributes.commonattr, FTS_COMMON_ATTRIBUTES);
    assert_eq!(apfs_attributes.dirattr, 0);
    assert_eq!(apfs_attributes.fileattr, FTS_FILE_ATTRIBUTES | APFS_FILE_ATTRIBUTES);
    assert_eq!(apfs_attributes.forkattr, APFS_EXTENDED_ATTRIBUTES);
}

#[test]
fn fts_contract_accepts_only_known_non_directory_vnode_types() {
    for object_type in [VREG, VBLK, VCHR, VLNK, VSOCK, VFIFO] {
        assert!(
            complete_record(object_type).satisfies_fts_stat_contract(),
            "known vnode type {object_type} must use complete bulk metadata"
        );
    }
    for object_type in [VNON, VDIR, 8, u32::MAX] {
        assert!(
            !complete_record(object_type).satisfies_fts_stat_contract(),
            "unknown or directory vnode type {object_type} must fall back to stat"
        );
    }

    assert!(
        !ParsedRecord {
            returned_common: FTS_COMMON_ATTRIBUTES,
            returned_file: FTS_FILE_ATTRIBUTES,
            ..Default::default()
        }
        .satisfies_fts_stat_contract(),
        "a missing vnode type must fall back to stat"
    );
}

#[test]
fn fts_contract_rejects_missing_required_attributes() {
    let mut missing_common = complete_record(VREG);
    missing_common.returned_common &= !ATTR_CMN_DEVID;
    assert!(!missing_common.satisfies_fts_stat_contract());

    let mut missing_file = complete_record(VREG);
    missing_file.returned_file &= !ATTR_FILE_ALLOCSIZE;
    assert!(!missing_file.satisfies_fts_stat_contract());

    let mut missing_creation_time = complete_record(VREG);
    missing_creation_time.returned_common &= !ATTR_CMN_CRTIME;
    assert!(missing_creation_time.satisfies_fts_stat_contract());

    let mut regular_without_device_type = complete_record(VREG);
    regular_without_device_type.returned_file &= !ATTR_FILE_DEVTYPE;
    assert!(regular_without_device_type.satisfies_fts_stat_contract());

    let mut block_without_device_type = complete_record(VBLK);
    block_without_device_type.returned_file &= !ATTR_FILE_DEVTYPE;
    assert!(!block_without_device_type.satisfies_fts_stat_contract());
}

#[test]
fn fts_allocation_rounds_up_to_512_byte_stat_blocks() {
    assert_eq!(fts_allocated_bytes(0), 0);
    assert_eq!(fts_allocated_bytes(1), 512);
    assert_eq!(fts_allocated_bytes(512), 512);
    assert_eq!(fts_allocated_bytes(513), 1024);
}

#[test]
fn it_filters_inodes() {
    let mut inodes = InodeFilter::new();

    assert!(inodes.add_dev_inode((1, 1), 2));
    assert!(inodes.add_dev_inode((2, 1), 2));
    assert!(!inodes.add_dev_inode((1, 1), 2));
    assert!(!inodes.add_dev_inode((2, 1), 2));

    assert!(inodes.add_dev_inode((1, 1), 3));
    assert!(!inodes.add_dev_inode((1, 1), 3));
    assert!(!inodes.add_dev_inode((1, 1), 3));

    assert!(inodes.add_dev_inode((1, 1), 1));
    assert!(inodes.add_dev_inode((1, 1), 1));
}

#[test]
fn windows_hard_link_ids_count_once() {
    let mut inodes = InodeFilter::new();
    assert!(inodes.add_hard_link_id(None));
    assert!(inodes.add_hard_link_id(None));
    assert!(inodes.add_hard_link_id(Some((7, 9))));
    assert!(!inodes.add_hard_link_id(Some((7, 9))));
    assert!(inodes.add_hard_link_id(Some((8, 9))));
}

#[test]
fn unresolved_directories_resolve_their_links_on_revisit() {
    let mut inodes = InodeFilter::new();
    assert!(inodes.add_directory((1, 5), 1, None));
    assert!(inodes.needs_link_resolution((1, 5), 1));
    assert!(!inodes.add_directory((1, 5), 1, Some(2)));
    assert!(!inodes.needs_link_resolution((1, 5), 1));
}

#[test]
fn every_link_of_a_file_is_visited_but_counted_once() {
    let mut filter = InodeFilter::new();
    assert!(filter.add_dev_inode((9, 9), 1));
    let results: Vec<bool> = (0..4).map(|_| filter.add_dev_inode((1, 2), 4)).collect();
    assert_eq!(results, vec![true, false, false, false]);
    assert!(filter.add_dev_inode((1, 2), 4), "the count is cleared after the last link");
    assert!(!filter.add_dev_inode((1, 2), 4));
    assert!(filter.add_dev_inode((1, 3), 2), "other files are counted on their own");
    assert!(filter.add_dev_inode((9, 9), 1));
}
