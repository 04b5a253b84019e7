//! Safe decoding of Darwin's packed filesystem attribute records.
//!
//! A record starts with its length and the bitmap of returned attributes, followed by the
//! attribute values in a fixed order. Records produced by the kernel on Darwin are little-endian.
use vstd::prelude::*;
use crate::timestamp::{Timestamp, NANOS_PER_SECOND};

verus! {

/// Accounting unit of `st_blocks`.
pub const STAT_BLOCK_BYTES: u64 = 512;

/// Errors found while decoding attribute records.
#[derive(Clone, Copy, Debug, PartialEq, Eq, Structural)]
pub enum AttributeError {
    /// The record is shorter than its fixed header.
    RecordTruncated,
    /// The returned-attribute bitmap is missing from the record.
    MissingReturnedBitmap,
    /// An attribute value extends past the end of the record.
    AttributeExceedsRecord,
    /// The filename reference points before the record or outside the address space.
    InvalidFilenameOffset,
    /// The filename extends past the end of the record.
    FilenameExceedsRecord,
    /// The modification time carries nanoseconds outside `0..1_000_000_000`.
    InvalidModificationNanoseconds,
    /// A buffer offset leaves no room for a record length.
    RecordHasNoLength,
    /// A record length is shorter than a header or extends past its buffer.
    RecordExceedsBuffer,
    /// No modification time is known.
    ModificationTimeUnavailable,
    /// An enumeration record carries no filename.
    MissingFilename,
    /// An enumeration record carries no object type.
    MissingObjectType,
    /// A directory record carries no directory length.
    MissingDirectoryLength,
    /// A file record carries no file length.
    MissingFileLength,
    /// A file record carries no allocation size.
    MissingFileAllocation,
    /// A file record carries no hard-link count.
    MissingFileLinks,
    /// A record carries no modification time.
    MissingModificationTime,
    /// A record carries no device number.
    MissingDevice,
    /// A record carries no inode number.
    MissingInode,
}

impl AttributeError {
    /// The human-readable description of this error.
    pub fn message(&self) -> (m: &'static str)
        ensures
            m@ == match self {
                AttributeError::RecordTruncated => "macOS attribute record is truncated"@,
                AttributeError::MissingReturnedBitmap => "macOS attributes omit their returned bitmap"@,
                AttributeError::AttributeExceedsRecord => "macOS attribute exceeds its record"@,
                AttributeError::InvalidFilenameOffset => "macOS filename has an invalid offset"@,
                AttributeError::FilenameExceedsRecord => "macOS filename exceeds its record"@,
                AttributeError::InvalidModificationNanoseconds => "macOS modification time has invalid nanoseconds"@,
                AttributeError::RecordHasNoLength => "macOS directory record has no length"@,
                AttributeError::RecordExceedsBuffer => "macOS directory record exceeds its buffer"@,
                AttributeError::ModificationTimeUnavailable => "macOS modification time is unavailable"@,
                AttributeError::MissingFilename => "macOS directory record has no filename"@,
                AttributeError::MissingObjectType => "macOS directory record has no object type"@,
                AttributeError::MissingDirectoryLength => "missing directory length"@,
                AttributeError::MissingFileLength => "missing file length"@,
                AttributeError::MissingFileAllocation => "missing file allocation"@,
                AttributeError::MissingFileLinks => "missing file hard-link count"@,
                AttributeError::MissingModificationTime => "missing modification timestamp"@,
                AttributeError::MissingDevice => "missing device number"@,
                AttributeError::MissingInode => "missing inode number"@,
            },
    {
        match self {
            AttributeError::RecordTruncated => "macOS attribute record is truncated",
            AttributeError::MissingReturnedBitmap => "macOS attributes omit their returned bitmap",
            AttributeError::AttributeExceedsRecord => "macOS attribute exceeds its record",
            AttributeError::InvalidFilenameOffset => "macOS filename has an invalid offset",
            AttributeError::FilenameExceedsRecord => "macOS filename exceeds its record",
            AttributeError::InvalidModificationNanoseconds => "macOS modification time has invalid nanoseconds",
            AttributeError::RecordHasNoLength => "macOS directory record has no length",
            AttributeError::RecordExceedsBuffer => "macOS directory record exceeds its buffer",
            AttributeError::ModificationTimeUnavailable => "macOS modification time is unavailable",
            AttributeError::MissingFilename => "macOS directory record has no filename",
            AttributeError::MissingObjectType => "macOS directory record has no object type",
            AttributeError::MissingDirectoryLength => "missing directory length",
            AttributeError::MissingFileLength => "missing file length",
            AttributeError::MissingFileAllocation => "missing file allocation",
            AttributeError::MissingFileLinks => "missing file hard-link count",
            AttributeError::MissingModificationTime => "missing modification timestamp",
            AttributeError::MissingDevice => "missing device number",
            AttributeError::MissingInode => "missing inode number",
        }
    }
}


// Darwin's vnode types, declared by `<sys/vnode.h>`.
/// No type.
pub const VNON: u32 = 0;
/// Regular file.
pub const VREG: u32 = 1;
/// Directory.
pub const VDIR: u32 = 2;
/// Block device.
pub const VBLK: u32 = 3;
/// Character device.
pub const VCHR: u32 = 4;
/// Symbolic link.
pub const VLNK: u32 = 5;
/// Socket.
pub const VSOCK: u32 = 6;
/// Named pipe.
pub const VFIFO: u32 = 7;
/// `<sys/stat.h>` flag of firmlinks.
pub const SF_FIRMLINK: u32 = 0x0080_0000;
/// Extended flag telling that a file may share its blocks with clones.
pub const EF_MAY_SHARE_BLOCKS: u64 = 0x0000_0001;
/// Number of attribute groups in an attribute list.
pub const ATTR_BIT_MAP_COUNT: u16 = 5;

// Common attributes, `<sys/attr.h>`.
/// Entry name.
pub const ATTR_CMN_NAME: u32 = 0x0000_0001;
/// Device of the containing filesystem.
pub const ATTR_CMN_DEVID: u32 = 0x0000_0002;
/// Vnode type.
pub const ATTR_CMN_OBJTYPE: u32 = 0x0000_0008;
/// Creation time.
pub const ATTR_CMN_CRTIME: u32 = 0x0000_0200;
/// Modification time.
pub const ATTR_CMN_MODTIME: u32 = 0x0000_0400;
/// Status change time.
pub const ATTR_CMN_CHGTIME: u32 = 0x0000_0800;
/// Access time.
pub const ATTR_CMN_ACCTIME: u32 = 0x0000_1000;
/// Owner.
pub const ATTR_CMN_OWNERID: u32 = 0x0000_8000;
/// Group.
pub const ATTR_CMN_GRPID: u32 = 0x0001_0000;
/// Access mask.
pub const ATTR_CMN_ACCESSMASK: u32 = 0x0002_0000;
/// File flags.
pub const ATTR_CMN_FLAGS: u32 = 0x0004_0000;
/// Inode number.
pub const ATTR_CMN_FILEID: u32 = 0x0200_0000;
/// Entry-specific error of a bulk enumeration.
pub const ATTR_CMN_ERROR: u32 = 0x2000_0000;
/// The returned-attribute bitmap.
pub const ATTR_CMN_RETURNED_ATTRS: u32 = 0x8000_0000;
// File attributes.
/// Hard-link count.
pub const ATTR_FILE_LINKCOUNT: u32 = 0x0000_0001;
/// Allocated size of all forks.
pub const ATTR_FILE_ALLOCSIZE: u32 = 0x0000_0004;
/// Preferred I/O block size.
pub const ATTR_FILE_IOBLOCKSIZE: u32 = 0x0000_0008;
/// Device type of block and character devices.
pub const ATTR_FILE_DEVTYPE: u32 = 0x0000_0020;
/// Logical length of the data fork.
pub const ATTR_FILE_DATALENGTH: u32 = 0x0000_0200;
/// Allocated size of the data fork.
pub const ATTR_FILE_DATAALLOCSIZE: u32 = 0x0000_0400;
// Extended common attributes.
/// Clone identifier.
pub const ATTR_CMNEXT_CLONEID: u32 = 0x0000_0100;
/// Extended flags.
pub const ATTR_CMNEXT_EXT_FLAGS: u32 = 0x0000_0200;

/// Common attributes that Apple FTS requests to synthesize a `stat`.
pub const FTS_COMMON_ATTRIBUTES: u32 = ATTR_CMN_RETURNED_ATTRS | ATTR_CMN_NAME | ATTR_CMN_DEVID
    | ATTR_CMN_OBJTYPE | ATTR_CMN_CRTIME | ATTR_CMN_MODTIME | ATTR_CMN_CHGTIME | ATTR_CMN_ACCTIME
    | ATTR_CMN_OWNERID | ATTR_CMN_GRPID | ATTR_CMN_ACCESSMASK | ATTR_CMN_FLAGS | ATTR_CMN_FILEID;
/// The subset authorized by listing a directory without search permission.
pub const LIST_ONLY_ATTRIBUTES: u32 = ATTR_CMN_RETURNED_ATTRS | ATTR_CMN_NAME | ATTR_CMN_OBJTYPE
    | ATTR_CMN_FILEID | ATTR_CMN_ERROR;
/// File attributes that Apple FTS requests.
pub const FTS_FILE_ATTRIBUTES: u32 = ATTR_FILE_LINKCOUNT | ATTR_FILE_ALLOCSIZE
    | ATTR_FILE_IOBLOCKSIZE | ATTR_FILE_DEVTYPE | ATTR_FILE_DATALENGTH;
/// Additional file attributes for APFS clone accounting.
pub const APFS_FILE_ATTRIBUTES: u32 = ATTR_FILE_DATAALLOCSIZE;
/// Additional extended attributes for APFS clone accounting.
pub const APFS_EXTENDED_ATTRIBUTES: u32 = ATTR_CMNEXT_CLONEID | ATTR_CMNEXT_EXT_FLAGS;

/// An attribute request, laid out like Darwin's `attrlist`.
#[derive(Clone, Copy, Debug, PartialEq, Eq, Structural)]
pub struct AttrList {
    /// Number of attribute groups.
    pub bitmapcount: u16,
    /// Reserved, zero.
    pub reserved: u16,
    /// Requested common attributes.
    pub commonattr: u32,
    /// Requested volume attributes.
    pub volattr: u32,
    /// Requested directory attributes.
    pub dirattr: u32,
    /// Requested file attributes.
    pub fileattr: u32,
    /// Requested extended attributes.
    pub forkattr: u32,
}

/// The attributes requested from bulk directory enumeration.
pub fn requested_attributes(list_only: bool, include_apfs: bool) -> (a: AttrList)
    ensures
        a.bitmapcount == ATTR_BIT_MAP_COUNT,
        a.reserved == 0,
        a.volattr == 0,
        a.dirattr == 0,
        a.commonattr == if list_only { LIST_ONLY_ATTRIBUTES } else { FTS_COMMON_ATTRIBUTES },
        a.fileattr == if list_only { 0 } else if include_apfs { FTS_FILE_ATTRIBUTES | APFS_FILE_ATTRIBUTES } else { FTS_FILE_ATTRIBUTES },
        a.forkattr == if include_apfs && !list_only { APFS_EXTENDED_ATTRIBUTES } else { 0 },
{
    let mut attributes = AttrList {
        bitmapcount: ATTR_BIT_MAP_COUNT,
        reserved: 0,
        commonattr: if list_only { LIST_ONLY_ATTRIBUTES } else { FTS_COMMON_ATTRIBUTES },
        volattr: 0,
        dirattr: 0,
        fileattr: if list_only { 0 } else { FTS_FILE_ATTRIBUTES },
        forkattr: 0,
    };
    if include_apfs && !list_only {
        attributes.fileattr = attributes.fileattr | APFS_FILE_ATTRIBUTES;
        attributes.forkattr = APFS_EXTENDED_ATTRIBUTES;
    }
    attributes
}

/// The attributes requested to identify the data fork of an explicitly named file.
pub fn root_clone_attributes() -> (a: AttrList)
    ensures
        a == (AttrList {
            bitmapcount: ATTR_BIT_MAP_COUNT,
            reserved: 0,
            commonattr: ATTR_CMN_RETURNED_ATTRS | ATTR_CMN_DEVID | ATTR_CMN_FILEID,
            volattr: 0,
            dirattr: 0,
            fileattr: APFS_FILE_ATTRIBUTES,
            forkattr: APFS_EXTENDED_ATTRIBUTES,
        }),
{
    AttrList {
        bitmapcount: ATTR_BIT_MAP_COUNT,
        reserved: 0,
        commonattr: ATTR_CMN_RETURNED_ATTRS | ATTR_CMN_DEVID | ATTR_CMN_FILEID,
        volattr: 0,
        dirattr: 0,
        fileattr: APFS_FILE_ATTRIBUTES,
        forkattr: APFS_EXTENDED_ATTRIBUTES,
    }
}

/// Allocation of a file's data fork, and the identity it shares with its full clones.
#[derive(Clone, Copy, Debug, PartialEq, Eq, Structural)]
pub struct DataFork {
    /// Bytes allocated to the data fork.
    pub allocated_size: u64,
    /// Nonzero identifier shared by full clones, if the file may share blocks.
    pub clone_id: Option<u64>,
}

/// The values decoded from one attribute record.
#[derive(Clone, Debug)]
pub struct ParsedRecord {
    /// Returned common attributes.
    pub returned_common: u32,
    /// Returned file attributes.
    pub returned_file: u32,
    /// Entry name without a trailing NUL.
    pub file_name: Option<Vec<u8>>,
    /// Device number, sign-extended like `stat`.
    pub device: Option<u64>,
    /// Vnode type.
    pub object_type: Option<u32>,
    /// Modification time.
    pub modified: Option<Timestamp>,
    /// File flags.
    pub flags: u32,
    /// Inode number.
    pub inode: Option<u64>,
    /// Entry-specific error number, zero if none.
    pub error: u32,
    /// Hard-link count of a file.
    pub file_links: Option<u64>,
    /// Logical length of a file.
    pub file_length: Option<u64>,
    /// Bytes allocated to a file, rounded up to whole `stat` blocks.
    pub file_allocated: Option<u64>,
    /// Bytes allocated to the data fork, rounded up to whole `stat` blocks.
    pub file_data_allocated: Option<u64>,
    /// Nonzero clone identifier.
    pub clone_id: Option<u64>,
    /// Extended flags.
    pub extended_flags: Option<u64>,
}

impl Default for ParsedRecord {
    fn default() -> (r: ParsedRecord)
        ensures
            r.returned_common == 0,
            r.returned_file == 0,
            r.file_name is None,
            r.device is None,
            r.object_type is None,
            r.modified is None,
            r.flags == 0,
            r.inode is None,
            r.error == 0,
            r.file_links is None,
            r.file_length is None,
            r.file_allocated is None,
            r.file_data_allocated is None,
            r.clone_id is None,
            r.extended_flags is None,
    {
        ParsedRecord {
            returned_common: 0,
            returned_file: 0,
            file_name: None,
            device: None,
            object_type: None,
            modified: None,
            flags: 0,
            inode: None,
            error: 0,
            file_links: None,
            file_length: None,
            file_allocated: None,
            file_data_allocated: None,
            clone_id: None,
            extended_flags: None,
        }
    }
}

impl ParsedRecord {
    /// The data fork described by this record: known only with its own allocation, and carrying
    /// a clone identity only when the file may share its blocks.
    pub open spec fn data_fork_spec(&self) -> Option<DataFork> {
        match self.file_data_allocated {
            None => None,
            Some(allocated_size) => Some(DataFork {
                allocated_size,
                clone_id: match self.extended_flags {
                    Some(flags) if flags & EF_MAY_SHARE_BLOCKS != 0 => self.clone_id,
                    _ => None,
                },
            }),
        }
    }

    /// Clone identity is meaningful only when independent data-fork allocation is also known.
    pub fn data_fork(&self) -> (r: Option<DataFork>)
        ensures
            r == self.data_fork_spec(),
    {
        let allocated_size = match self.file_data_allocated {
            Some(size) => size,
            None => return None,
        };
        let clone_id = match self.extended_flags {
            Some(flags) if flags & EF_MAY_SHARE_BLOCKS != 0 => self.clone_id,
            _ => None,
        };
        Some(DataFork { allocated_size, clone_id })
    }

    /// Whether the vnode type is one for which Apple FTS trusts bulk metadata.
    pub open spec fn fts_type(t: u32) -> bool {
        t == VREG || t == VBLK || t == VCHR || t == VLNK || t == VSOCK || t == VFIFO
    }

    /// Whether Apple FTS would synthesize a complete `stat` from this record.
    pub open spec fn fts_complete(&self) -> bool {
        match self.object_type {
            None => false,
            Some(t) => {
                let required_common = FTS_COMMON_ATTRIBUTES & !ATTR_CMN_CRTIME;
                let required_file = if t != VBLK && t != VCHR {
                    FTS_FILE_ATTRIBUTES & !ATTR_FILE_DEVTYPE
                } else {
                    FTS_FILE_ATTRIBUTES
                };
                &&& Self::fts_type(t)
                &&& self.returned_common & required_common == required_common
                &&& self.returned_file & required_file == required_file
            },
        }
    }

    /// Return whether Apple FTS would synthesize a complete `stat` from this bulk record.
    ///
    /// FTS always stats directories, tolerates an unavailable creation time, and only requires a
    /// device type for block and character devices.
    pub fn satisfies_fts_stat_contract(&self) -> (r: bool)
        ensures
            r == self.fts_complete(),
    {
        let object_type = match self.object_type {
            Some(t) => t,
            None => return false,
        };
        if !(object_type == VREG || object_type == VBLK || object_type == VCHR || object_type == VLNK
            || object_type == VSOCK || object_type == VFIFO) {
            return false;
        }
        let required_common = FTS_COMMON_ATTRIBUTES & !ATTR_CMN_CRTIME;
        let required_file = if object_type != VBLK && object_type != VCHR {
            FTS_FILE_ATTRIBUTES & !ATTR_FILE_DEVTYPE
        } else {
            FTS_FILE_ATTRIBUTES
        };
        self.returned_common & required_common == required_common
            && self.returned_file & required_file == required_file
    }
}

/// The unsigned little-endian value of the four bytes of `s` starting at `i`.
pub open spec fn le_u32(s: Seq<u8>, i: int) -> int {
    s[i] + s[i + 1] * 0x100 + s[i + 2] * 0x1_0000 + s[i + 3] * 0x100_0000
}

/// The unsigned little-endian value of the eight bytes of `s` starting at `i`.
pub open spec fn le_u64(s: Seq<u8>, i: int) -> int {
    le_u32(s, i) + le_u32(s, i + 4) * 0x1_0000_0000
}

/// The two's complement reading of a 32-bit pattern.
pub open spec fn signed32(v: int) -> int {
    if v < 0x8000_0000 { v } else { v - 0x1_0000_0000 }
}

/// The two's complement reading of a 64-bit pattern.
pub open spec fn signed64(v: int) -> int {
    if v < 0x8000_0000_0000_0000 { v } else { v - 0x1_0000_0000_0000_0000 }
}

/// Reads native-endian integers from a record, failing instead of reading past its end.
struct Cursor<'a> {
    bytes: &'a [u8],
    pos: usize,
}

impl<'a> Cursor<'a> {
    fn new(bytes: &'a [u8]) -> (c: Self)
        ensures
            c.bytes@ == bytes@,
            c.pos == 0,
    {
        Cursor { bytes, pos: 0 }
    }

    /// Skip `count` bytes.
    fn take(&mut self, count: usize) -> (r: Result<(), AttributeError>)
        requires
            old(self).pos <= old(self).bytes@.len(),
        ensures
            final(self).bytes@ == old(self).bytes@,
            final(self).pos <= final(self).bytes@.len(),
            old(self).pos + count <= old(self).bytes@.len() ==> r is Ok && final(self).pos == old(self).pos + count,
            old(self).pos + count > old(self).bytes@.len() ==> r == Err::<(), _>(AttributeError::AttributeExceedsRecord)
                && final(self).pos == old(self).pos,
    {
        if self.bytes.len() - self.pos < count {
            return Err(AttributeError::AttributeExceedsRecord);
        }
        self.pos = self.pos + count;
        Ok(())
    }

    fn take_u32(&mut self) -> (r: Result<u32, AttributeError>)
        requires
            old(self).pos <= old(self).bytes@.len(),
        ensures
            final(self).bytes@ == old(self).bytes@,
            final(self).pos <= final(self).bytes@.len(),
            old(self).pos + 4 <= old(self).bytes@.len() ==> r == Ok::<u32, AttributeError>(le_u32(old(self).bytes@, old(self).pos as int) as u32)
                && final(self).pos == old(self).pos + 4,
            old(self).pos + 4 > old(self).bytes@.len() ==> r == Err::<u32, _>(AttributeError::AttributeExceedsRecord)
                && final(self).pos == old(self).pos,
    {
        if self.bytes.len() - self.pos < 4 {
            return Err(AttributeError::AttributeExceedsRecord);
        }
        let p = self.pos;
        let b0 = self.bytes[p] as u32;
        let b1 = self.bytes[p + 1] as u32;
        let b2 = self.bytes[p + 2] as u32;
        let b3 = self.bytes[p + 3] as u32;
        self.pos = p + 4;
        Ok(b0 + b1 * 0x100 + b2 * 0x1_0000 + b3 * 0x100_0000)
    }

    fn take_i32(&mut self) -> (r: Result<i32, AttributeError>)
        requires
            old(self).pos <= old(self).bytes@.len(),
        ensures
            final(self).bytes@ == old(self).bytes@,
            final(self).pos <= final(self).bytes@.len(),
            old(self).pos + 4 <= old(self).bytes@.len() ==> r is Ok
                && r->Ok_0 as int == signed32(le_u32(old(self).bytes@, old(self).pos as int))
                && final(self).pos == old(self).pos + 4,
            old(self).pos + 4 > old(self).bytes@.len() ==> r == Err::<i32, _>(AttributeError::AttributeExceedsRecord)
                && final(self).pos == old(self).pos,
    {
        let u = self.take_u32()?;
        if u < 0x8000_0000 {
            Ok(u as i32)
        } else {
            let low = (u - 0x8000_0000) as i32;
            Ok(low - 0x7fff_ffff - 1)
        }
    }

    fn take_u64(&mut self) -> (r: Result<u64, AttributeError>)
        requires
            old(self).pos <= old(self).bytes@.len(),
        ensures
            final(self).bytes@ == old(self).bytes@,
            final(self).pos <= final(self).bytes@.len(),
            old(self).pos + 8 <= old(self).bytes@.len() ==> r == Ok::<u64, AttributeError>(le_u64(old(self).bytes@, old(self).pos as int) as u64)
                && final(self).pos == old(self).pos + 8,
            old(self).pos + 8 > old(self).bytes@.len() ==> r == Err::<u64, _>(AttributeError::AttributeExceedsRecord)
                && final(self).pos == old(self).pos,
    {
        if self.bytes.len() - self.pos < 8 {
            return Err(AttributeError::AttributeExceedsRecord);
        }
        let low = self.take_u32()?;
        let high = self.take_u32()?;
        Ok(low as u64 + high as u64 * 0x1_0000_0000)
    }

    fn take_i64(&mut self) -> (r: Result<i64, AttributeError>)
        requires
            old(self).pos <= old(self).bytes@.len(),
        ensures
            final(self).bytes@ == old(self).bytes@,
            final(self).pos <= final(self).bytes@.len(),
            old(self).pos + 8 <= old(self).bytes@.len() ==> r is Ok
                && r->Ok_0 as int == signed64(le_u64(old(self).bytes@, old(self).pos as int))
                && final(self).pos == old(self).pos + 8,
            old(self).pos + 8 > old(self).bytes@.len() ==> r == Err::<i64, _>(AttributeError::AttributeExceedsRecord)
                && final(self).pos == old(self).pos,
    {
        let u = self.take_u64()?;
        if u < 0x8000_0000_0000_0000 {
            Ok(u as i64)
        } else {
            let low = (u - 0x8000_0000_0000_0000) as i64;
            Ok(low - 0x7fff_ffff_ffff_ffff - 1)
        }
    }
}


/// The packing of one record: the returned-attribute bitmaps, whether unavailable attributes
/// still occupy space, whether APFS attributes were requested, and whether the entry is a
/// directory (directories never carry file attributes in packed-invalid records).
pub struct Layout {
    /// Returned common attributes.
    pub common: u32,
    /// Returned file attributes.
    pub file: u32,
    /// Returned extended attributes.
    pub fork: u32,
    /// Whether unavailable attributes still occupy their slot.
    pub pack_invalid: bool,
    /// Whether APFS clone attributes were requested.
    pub include_apfs: bool,
    /// Whether the record describes a directory.
    pub is_dir: bool,
}

/// Number of attribute slots that may follow the header.
pub open spec fn slot_count() -> nat {
    21
}

/// Size of the header: the record length and five attribute-group bitmaps.
pub open spec fn header_size() -> int {
    24
}

/// Slots in record order: error, name, device, object type, four timestamps, owner, group,
/// access mask, flags, inode, then the file attributes link count, allocation, I/O block size,
/// device type, data length, data allocation, then the clone identifier and extended flags.
pub open spec fn slot_size(k: int) -> int {
    if k == 0 || k == 2 || k == 3 || (8 <= k && k <= 11) || k == 13 || k == 15 || k == 16 {
        4
    } else if 4 <= k && k <= 7 {
        16
    } else {
        8
    }
}

/// The bitmap flag that announces slot `k`.
pub open spec fn slot_mask(k: int) -> u32 {
    if k == 0 { ATTR_CMN_ERROR }
    else if k == 1 { ATTR_CMN_NAME }
    else if k == 2 { ATTR_CMN_DEVID }
    else if k == 3 { ATTR_CMN_OBJTYPE }
    else if k == 4 { ATTR_CMN_CRTIME }
    else if k == 5 { ATTR_CMN_MODTIME }
    else if k == 6 { ATTR_CMN_CHGTIME }
    else if k == 7 { ATTR_CMN_ACCTIME }
    else if k == 8 { ATTR_CMN_OWNERID }
    else if k == 9 { ATTR_CMN_GRPID }
    else if k == 10 { ATTR_CMN_ACCESSMASK }
    else if k == 11 { ATTR_CMN_FLAGS }
    else if k == 12 { ATTR_CMN_FILEID }
    else if k == 13 { ATTR_FILE_LINKCOUNT }
    else if k == 14 { ATTR_FILE_ALLOCSIZE }
    else if k == 15 { ATTR_FILE_IOBLOCKSIZE }
    else if k == 16 { ATTR_FILE_DEVTYPE }
    else if k == 17 { ATTR_FILE_DATALENGTH }
    else if k == 18 { ATTR_FILE_DATAALLOCSIZE }
    else if k == 19 { ATTR_CMNEXT_CLONEID }
    else { ATTR_CMNEXT_EXT_FLAGS }
}

/// Whether the bitmap marks the attribute of slot `k` as returned.
pub open spec fn slot_returned(l: Layout, k: int) -> bool {
    if k <= 12 {
        l.common & slot_mask(k) != 0
    } else if k <= 18 {
        l.file & slot_mask(k) != 0
    } else {
        l.fork & slot_mask(k) != 0
    }
}

/// Whether slot `k` occupies space in the record.
pub open spec fn slot_packed(l: Layout, k: int) -> bool {
    if k == 0 {
        slot_returned(l, 0)
    } else if k <= 12 {
        l.pack_invalid || slot_returned(l, k)
    } else if k <= 17 {
        (l.pack_invalid && !l.is_dir) || slot_returned(l, k)
    } else if k == 18 {
        (l.pack_invalid && !l.is_dir && l.include_apfs) || slot_returned(l, k)
    } else {
        (l.pack_invalid && l.include_apfs) || slot_returned(l, k)
    }
}

/// Where slot `k` starts: right after the header and every packed slot before it.
pub open spec fn slot_offset(l: Layout, k: nat) -> int
    decreases k,
{
    if k == 0 {
        header_size()
    } else {
        slot_offset(l, (k - 1) as nat) + if slot_packed(l, k - 1) { slot_size(k - 1) } else { 0 }
    }
}

/// The layout announced by the header of record `s`.
pub open spec fn record_layout(s: Seq<u8>, pack_invalid: bool, include_apfs: bool) -> Layout {
    let base = Layout {
        common: le_u32(s, 4) as u32,
        file: le_u32(s, 16) as u32,
        fork: le_u32(s, 20) as u32,
        pack_invalid,
        include_apfs,
        is_dir: false,
    };
    Layout {
        is_dir: slot_returned(base, 3) && le_u32(s, slot_offset(base, 3)) == VDIR as int,
        ..base
    }
}

/// Where the filename referenced by the name slot starts.
pub open spec fn name_start(s: Seq<u8>, l: Layout) -> int {
    slot_offset(l, 1) + signed32(le_u32(s, slot_offset(l, 1)))
}

/// Where the filename referenced by the name slot ends.
pub open spec fn name_end(s: Seq<u8>, l: Layout) -> int {
    name_start(s, l) + le_u32(s, slot_offset(l, 1) + 4)
}

/// Whether the filename starts at an address of the record.
pub open spec fn name_start_valid(s: Seq<u8>, l: Layout) -> bool {
    0 <= name_start(s, l) <= usize::MAX
}

/// A name without its trailing NUL.
pub open spec fn without_trailing_nul(name: Seq<u8>) -> Seq<u8> {
    if name.len() > 0 && name.last() == 0 { name.drop_last() } else { name }
}

/// Seconds and nanoseconds of a timestamp; Apple represents fractional pre-epoch timestamps
/// with negative nanoseconds, which are moved into the previous second.
pub open spec fn normalized_time(seconds: int, nanoseconds: int) -> (int, int) {
    if seconds <= 0 && seconds > i64::MIN && nanoseconds < 0 && nanoseconds > -1_000_000_000 {
        (seconds - 1, nanoseconds + 1_000_000_000)
    } else {
        (seconds, nanoseconds)
    }
}

/// The normalized modification time of a record.
pub open spec fn modification_time(s: Seq<u8>, l: Layout) -> (int, int) {
    normalized_time(
        signed64(le_u64(s, slot_offset(l, 5))),
        signed64(le_u64(s, slot_offset(l, 5) + 8)),
    )
}

/// Whether the normalized nanoseconds lie within one second.
pub open spec fn modification_time_valid(s: Seq<u8>, l: Layout) -> bool {
    0 <= modification_time(s, l).1 < 1_000_000_000
}

/// Whether slot `k` lies within the record.
pub open spec fn slot_fits(s: Seq<u8>, l: Layout, k: int) -> bool {
    slot_offset(l, k as nat) + slot_size(k) <= s.len()
}

/// Whether slot `k` is absent, or present, complete and valid.
pub open spec fn slot_well_formed(s: Seq<u8>, l: Layout, k: int) -> bool {
    !slot_packed(l, k) || {
        &&& slot_fits(s, l, k)
        &&& k == 1 && slot_returned(l, 1) ==> name_start_valid(s, l) && name_end(s, l) <= s.len()
        &&& k == 5 ==> modification_time_valid(s, l)
    }
}

/// The error reported for a slot that is not well formed.
pub open spec fn slot_error(s: Seq<u8>, l: Layout, k: int) -> AttributeError {
    if !slot_fits(s, l, k) {
        AttributeError::AttributeExceedsRecord
    } else if k == 1 {
        if !name_start_valid(s, l) {
            AttributeError::InvalidFilenameOffset
        } else {
            AttributeError::FilenameExceedsRecord
        }
    } else {
        AttributeError::InvalidModificationNanoseconds
    }
}

/// Whether every slot before `k` is well formed.
pub open spec fn slots_well_formed_before(s: Seq<u8>, l: Layout, k: nat) -> bool
    decreases k,
{
    k == 0 || (slots_well_formed_before(s, l, (k - 1) as nat) && slot_well_formed(s, l, k - 1))
}

/// The device number stored in a 32-bit slot, sign-extended to 64 bits.
pub open spec fn device_number(v: int) -> int {
    if v < 0x8000_0000 { v } else { v + 0xffff_ffff_0000_0000 }
}

/// The 32-bit value of slot `k`.
pub open spec fn slot_u32(s: Seq<u8>, l: Layout, k: int) -> int {
    le_u32(s, slot_offset(l, k as nat))
}

/// The 64-bit value of slot `k`.
pub open spec fn slot_u64(s: Seq<u8>, l: Layout, k: int) -> int {
    le_u64(s, slot_offset(l, k as nat))
}

/// Whether slot `k` both occupies space and holds a returned value.
pub open spec fn slot_present(l: Layout, k: int) -> bool {
    slot_packed(l, k) && slot_returned(l, k)
}

/// Whether `r` holds exactly the values that record `s` with layout `l` carries.
pub open spec fn record_decodes(s: Seq<u8>, l: Layout, r: ParsedRecord) -> bool {
    &&& r.returned_common == l.common
    &&& r.returned_file == l.file
    &&& r.error as int == if slot_packed(l, 0) { slot_u32(s, l, 0) } else { 0 }
    &&& (r.file_name is Some <==> slot_present(l, 1))
    &&& (r.file_name matches Some(name) ==> name@ == without_trailing_nul(s.subrange(name_start(s, l), name_end(s, l))))
    &&& r.device == if slot_present(l, 2) { Some(device_number(slot_u32(s, l, 2)) as u64) } else { None }
    &&& r.object_type == if slot_present(l, 3) { Some(slot_u32(s, l, 3) as u32) } else { None }
    &&& r.modified == if slot_present(l, 5) {
            Some(Timestamp { seconds: modification_time(s, l).0 as i64, nanos: modification_time(s, l).1 as u32 })
        } else {
            None
        }
    &&& r.flags as int == if slot_present(l, 11) { slot_u32(s, l, 11) } else { 0 }
    &&& r.inode == if slot_present(l, 12) { Some(slot_u64(s, l, 12) as u64) } else { None }
    &&& r.file_links == if slot_present(l, 13) { Some(slot_u32(s, l, 13) as u64) } else { None }
    &&& r.file_allocated == if slot_present(l, 14) {
            Some(fts_allocated_spec(slot_u64(s, l, 14) as u64) as u64)
        } else {
            None
        }
    &&& r.file_length == if slot_present(l, 17) { Some(slot_u64(s, l, 17) as u64) } else { None }
    &&& r.file_data_allocated == if slot_present(l, 18) {
            Some(fts_allocated_spec(slot_u64(s, l, 18) as u64) as u64)
        } else {
            None
        }
    &&& r.clone_id == if slot_present(l, 19) && slot_u64(s, l, 19) != 0 {
            Some(slot_u64(s, l, 19) as u64)
        } else {
            None
        }
    &&& r.extended_flags == if slot_present(l, 20) { Some(slot_u64(s, l, 20) as u64) } else { None }
}


/// A slot that is not well formed keeps every later prefix from being well formed, so a record
/// decodes exactly when all of its slots are well formed.
pub proof fn lemma_malformed_slot_rejects_record(s: Seq<u8>, l: Layout, k: nat, n: nat)
    requires
        k < n,
        !slot_well_formed(s, l, k as int),
    ensures
        !slots_well_formed_before(s, l, n),
    decreases n,
{
    if n > k + 1 {
        lemma_malformed_slot_rejects_record(s, l, k, (n - 1) as nat);
    }
}

/// Slots before the file attributes are laid out independently of the entry type.
proof fn lemma_offset_ignores_type(a: Layout, b: Layout, k: nat)
    requires
        k <= 13,
        a.common == b.common,
        a.pack_invalid == b.pack_invalid,
    ensures
        slot_offset(a, k) == slot_offset(b, k),
    decreases k,
{
    if k > 0 {
        lemma_offset_ignores_type(a, b, (k - 1) as nat);
    }
}

/// Read the filename that an attribute reference at `reference_offset` points at.
fn read_name(bytes: &[u8], reference_offset: usize, data_offset: i32, length: u32) -> (r: Result<Vec<u8>, AttributeError>)
    ensures
        ({
            let start = reference_offset + data_offset;
            let end = start + length;
            &&& !(0 <= start <= usize::MAX) ==> r == Err::<Vec<u8>, _>(AttributeError::InvalidFilenameOffset)
            &&& (0 <= start <= usize::MAX && end > bytes@.len()) ==> r == Err::<Vec<u8>, _>(AttributeError::FilenameExceedsRecord)
            &&& (0 <= start <= usize::MAX && end <= bytes@.len()) ==> r is Ok
                && r->Ok_0@ == without_trailing_nul(bytes@.subrange(start, end))
        }),
{
    let start_wide: i128 = reference_offset as i128 + data_offset as i128;
    if start_wide < 0 || start_wide > usize::MAX as i128 {
        return Err(AttributeError::InvalidFilenameOffset);
    }
    let start = start_wide as usize;
    if start > bytes.len() || length as usize > bytes.len() - start {
        return Err(AttributeError::FilenameExceedsRecord);
    }
    let end = start + length as usize;
    let raw = vstd::slice::slice_subrange(bytes, start, end);
    if end > start && bytes[end - 1] == 0 {
        let trimmed = vstd::slice::slice_subrange(bytes, start, end - 1);
        assert(trimmed@ == raw@.drop_last());
        Ok(vstd::slice::slice_to_vec(trimmed))
    } else {
        Ok(vstd::slice::slice_to_vec(raw))
    }
}

/// Normalize a modification time; fails unless the nanoseconds end up within one second.
fn normalize_time(seconds: i64, nanoseconds: i64) -> (r: Result<Timestamp, AttributeError>)
    ensures
        ({
            let t = normalized_time(seconds as int, nanoseconds as int);
            &&& (0 <= t.1 < 1_000_000_000) ==> r == Ok::<Timestamp, AttributeError>(Timestamp { seconds: t.0 as i64, nanos: t.1 as u32 })
            &&& !(0 <= t.1 < 1_000_000_000) ==> r == Err::<Timestamp, _>(AttributeError::InvalidModificationNanoseconds)
        }),
{
    let nanos_per_second = NANOS_PER_SECOND as i64;
    let (seconds, nanoseconds) = if seconds <= 0 && seconds > i64::MIN && nanoseconds < 0
        && nanoseconds > -nanos_per_second {
        (seconds - 1, nanoseconds + nanos_per_second)
    } else {
        (seconds, nanoseconds)
    };
    if nanoseconds < 0 || nanoseconds >= nanos_per_second {
        return Err(AttributeError::InvalidModificationNanoseconds);
    }
    Ok(Timestamp { seconds, nanos: nanoseconds as u32 })
}

/// The cursor of a record positioned at slot `k`.
spec fn at_slot(c: Cursor, s: Seq<u8>, l: Layout, k: int) -> bool {
    &&& c.bytes@ == s
    &&& 0 <= k < slot_count()
    &&& c.pos == slot_offset(l, k as nat)
    &&& c.pos <= s.len()
}

/// What a reader of slot `k` guarantees: on success the slot is well formed and the cursor is at
/// the next slot; on failure the slot is malformed and its error is reported.
spec fn slot_step(old_c: Cursor, new_c: Cursor, s: Seq<u8>, l: Layout, k: int, ok: bool, e: AttributeError) -> bool {
    &&& new_c.bytes@ == s
    &&& new_c.pos <= s.len()
    &&& ok ==> slot_well_formed(s, l, k) && new_c.pos == slot_offset(l, (k + 1) as nat)
    &&& !ok ==> !slot_well_formed(s, l, k) && e == slot_error(s, l, k)
}

/// Skip a slot whose value is not retained.
fn skip_slot(cursor: &mut Cursor, packed: bool, size: usize, Ghost(s): Ghost<Seq<u8>>, Ghost(l): Ghost<Layout>, Ghost(k): Ghost<int>) -> (r: Result<(), AttributeError>)
    requires
        at_slot(*old(cursor), s, l, k),
        packed == slot_packed(l, k),
        size == slot_size(k),
        k != 1 && k != 5,
    ensures
        slot_step(*old(cursor), *final(cursor), s, l, k, r is Ok, match r { Ok(_) => AttributeError::RecordTruncated, Err(e) => e }),
{
    if packed {
        cursor.take(size)?;
    }
    Ok(())
}

/// Read a 32-bit slot; the value is meaningful only if the slot is packed.
fn read_u32_slot(cursor: &mut Cursor, packed: bool, Ghost(s): Ghost<Seq<u8>>, Ghost(l): Ghost<Layout>, Ghost(k): Ghost<int>) -> (r: Result<u32, AttributeError>)
    requires
        at_slot(*old(cursor), s, l, k),
        packed == slot_packed(l, k),
        slot_size(k) == 4,
        k != 1 && k != 5,
    ensures
        slot_step(*old(cursor), *final(cursor), s, l, k, r is Ok, match r { Ok(_) => AttributeError::RecordTruncated, Err(e) => e }),
        packed ==> (r matches Ok(v) ==> v as int == slot_u32(s, l, k)),
{
    if packed {
        cursor.take_u32()
    } else {
        Ok(0)
    }
}

/// Read a 64-bit slot; the value is meaningful only if the slot is packed.
fn read_u64_slot(cursor: &mut Cursor, packed: bool, Ghost(s): Ghost<Seq<u8>>, Ghost(l): Ghost<Layout>, Ghost(k): Ghost<int>) -> (r: Result<u64, AttributeError>)
    requires
        at_slot(*old(cursor), s, l, k),
        packed == slot_packed(l, k),
        slot_size(k) == 8,
        k != 1 && k != 5,
    ensures
        slot_step(*old(cursor), *final(cursor), s, l, k, r is Ok, match r { Ok(_) => AttributeError::RecordTruncated, Err(e) => e }),
        packed ==> (r matches Ok(v) ==> v as int == slot_u64(s, l, k)),
{
    if packed {
        cursor.take_u64()
    } else {
        Ok(0)
    }
}

/// Read the name slot and the filename it references.
fn read_name_slot(cursor: &mut Cursor, bytes: &[u8], packed: bool, returned: bool, Ghost(l): Ghost<Layout>) -> (r: Result<Option<Vec<u8>>, AttributeError>)
    requires
        at_slot(*old(cursor), bytes@, l, 1),
        packed == slot_packed(l, 1),
        returned == slot_returned(l, 1),
    ensures
        slot_step(*old(cursor), *final(cursor), bytes@, l, 1, r is Ok, match r { Ok(_) => AttributeError::RecordTruncated, Err(e) => e }),
        r matches Ok(name) ==> (name is Some <==> slot_present(l, 1)),
        r matches Ok(Some(name)) ==> name@ == without_trailing_nul(bytes@.subrange(name_start(bytes@, l), name_end(bytes@, l))),
{
    if !packed {
        return Ok(None);
    }
    let reference_offset = cursor.pos;
    let data_offset = cursor.take_i32()?;
    let length = cursor.take_u32()?;
    if returned {
        let name = read_name(bytes, reference_offset, data_offset, length)?;
        Ok(Some(name))
    } else {
        Ok(None)
    }
}

/// Read the modification-time slot.
fn read_time_slot(cursor: &mut Cursor, packed: bool, returned: bool, Ghost(s): Ghost<Seq<u8>>, Ghost(l): Ghost<Layout>) -> (r: Result<Option<Timestamp>, AttributeError>)
    requires
        at_slot(*old(cursor), s, l, 5),
        packed == slot_packed(l, 5),
        returned == slot_returned(l, 5),
    ensures
        slot_step(*old(cursor), *final(cursor), s, l, 5, r is Ok, match r { Ok(_) => AttributeError::RecordTruncated, Err(e) => e }),
        r matches Ok(t) ==> t == if slot_present(l, 5) {
            Some(Timestamp { seconds: modification_time(s, l).0 as i64, nanos: modification_time(s, l).1 as u32 })
        } else {
            None
        },
{
    if !packed {
        return Ok(None);
    }
    let seconds = cursor.take_i64()?;
    let nanoseconds = cursor.take_i64()?;
    let time = normalize_time(seconds, nanoseconds)?;
    Ok(if returned { Some(time) } else { None })
}

/// The first malformed slot in `[from, to)` reported `e`, or every slot there is well formed.
pub open spec fn phase_outcome(s: Seq<u8>, l: Layout, from: nat, to: nat, ok: bool, e: AttributeError) -> bool {
    &&& ok ==> slots_well_formed_before(s, l, to)
    &&& !ok ==> exists|k: nat| #![trigger slots_well_formed_before(s, l, k)]
        from <= k < to && slots_well_formed_before(s, l, k) && !slot_well_formed(s, l, k as int)
            && e == slot_error(s, l, k as int)
}

/// Values of the common slots that a record retains.
pub struct CommonValues {
    /// Entry error.
    pub error: u32,
    /// Entry name.
    pub file_name: Option<Vec<u8>>,
    /// Device number.
    pub device: Option<u64>,
    /// Vnode type.
    pub object_type: Option<u32>,
    /// Modification time.
    pub modified: Option<Timestamp>,
}

/// Read slots 0 to 5: error, name, device, object type and the creation and modification times.
#[verifier::rlimit(40)]
fn read_identity_slots(cursor: &mut Cursor, bytes: &[u8], common: u32, pack_invalid: bool, Ghost(l): Ghost<Layout>) -> (r: Result<CommonValues, AttributeError>)
    requires
        at_slot(*old(cursor), bytes@, l, 0),
        slots_well_formed_before(bytes@, l, 0),
        l.common == common,
        l.pack_invalid == pack_invalid,
    ensures
        final(cursor).bytes@ == bytes@,
        final(cursor).pos <= bytes@.len(),
        phase_outcome(bytes@, l, 0, 6, r is Ok, match r { Ok(_) => AttributeError::RecordTruncated, Err(e) => e }),
        r is Ok ==> final(cursor).pos == slot_offset(l, 6),
        r matches Ok(v) ==> {
            &&& v.error as int == if slot_packed(l, 0) { slot_u32(bytes@, l, 0) } else { 0 }
            &&& (v.file_name is Some <==> slot_present(l, 1))
            &&& (v.file_name matches Some(name) ==> name@ == without_trailing_nul(bytes@.subrange(name_start(bytes@, l), name_end(bytes@, l))))
            &&& v.device == if slot_present(l, 2) { Some(device_number(slot_u32(bytes@, l, 2)) as u64) } else { None }
            &&& v.object_type == if slot_present(l, 3) { Some(slot_u32(bytes@, l, 3) as u32) } else { None }
            &&& v.modified == if slot_present(l, 5) {
                    Some(Timestamp { seconds: modification_time(bytes@, l).0 as i64, nanos: modification_time(bytes@, l).1 as u32 })
                } else {
                    None
                }
        },
{
    let ghost s = bytes@;
    let error = read_u32_slot(cursor, common & ATTR_CMN_ERROR != 0, Ghost(s), Ghost(l), Ghost(0))?;
    let error = if common & ATTR_CMN_ERROR != 0 { error } else { 0 };
    assert(slots_well_formed_before(s, l, 1));
    let file_name = read_name_slot(cursor, bytes, pack_invalid || common & ATTR_CMN_NAME != 0, common & ATTR_CMN_NAME != 0, Ghost(l))?;
    assert(slots_well_formed_before(s, l, 2));
    let device = read_u32_slot(cursor, pack_invalid || common & ATTR_CMN_DEVID != 0, Ghost(s), Ghost(l), Ghost(2))?;
    let device = if common & ATTR_CMN_DEVID != 0 {
        Some(if device < 0x8000_0000 { device as u64 } else { device as u64 + 0xffff_ffff_0000_0000 })
    } else {
        None
    };
    assert(slots_well_formed_before(s, l, 3));
    let object_type = read_u32_slot(cursor, pack_invalid || common & ATTR_CMN_OBJTYPE != 0, Ghost(s), Ghost(l), Ghost(3))?;
    let object_type = if common & ATTR_CMN_OBJTYPE != 0 { Some(object_type) } else { None };
    assert(slots_well_formed_before(s, l, 4));
    skip_slot(cursor, pack_invalid || common & ATTR_CMN_CRTIME != 0, 16, Ghost(s), Ghost(l), Ghost(4))?;
    assert(slots_well_formed_before(s, l, 5));
    let modified = read_time_slot(cursor, pack_invalid || common & ATTR_CMN_MODTIME != 0, common & ATTR_CMN_MODTIME != 0, Ghost(s), Ghost(l))?;
    assert(slots_well_formed_before(s, l, 6));
    Ok(CommonValues { error, file_name, device, object_type, modified })
}

/// Read slots 6 to 12: change and access times, owner, group, access mask, flags and inode.
#[verifier::rlimit(40)]
fn read_ownership_slots(cursor: &mut Cursor, common: u32, pack_invalid: bool, Ghost(s): Ghost<Seq<u8>>, Ghost(l): Ghost<Layout>) -> (r: Result<(u32, Option<u64>), AttributeError>)
    requires
        at_slot(*old(cursor), s, l, 6),
        slots_well_formed_before(s, l, 6),
        l.common == common,
        l.pack_invalid == pack_invalid,
    ensures
        final(cursor).bytes@ == s,
        final(cursor).pos <= s.len(),
        phase_outcome(s, l, 6, 13, r is Ok, match r { Ok(_) => AttributeError::RecordTruncated, Err(e) => e }),
        r is Ok ==> final(cursor).pos == slot_offset(l, 13),
        r matches Ok((flags, inode)) ==> {
            &&& flags as int == if slot_present(l, 11) { slot_u32(s, l, 11) } else { 0 }
            &&& inode == if slot_present(l, 12) { Some(slot_u64(s, l, 12) as u64) } else { None }
        },
{
    skip_slot(cursor, pack_invalid || common & ATTR_CMN_CHGTIME != 0, 16, Ghost(s), Ghost(l), Ghost(6))?;
    assert(slots_well_formed_before(s, l, 7));
    skip_slot(cursor, pack_invalid || common & ATTR_CMN_ACCTIME != 0, 16, Ghost(s), Ghost(l), Ghost(7))?;
    assert(slots_well_formed_before(s, l, 8));
    skip_slot(cursor, pack_invalid || common & ATTR_CMN_OWNERID != 0, 4, Ghost(s), Ghost(l), Ghost(8))?;
    assert(slots_well_formed_before(s, l, 9));
    skip_slot(cursor, pack_invalid || common & ATTR_CMN_GRPID != 0, 4, Ghost(s), Ghost(l), Ghost(9))?;
    assert(slots_well_formed_before(s, l, 10));
    skip_slot(cursor, pack_invalid || common & ATTR_CMN_ACCESSMASK != 0, 4, Ghost(s), Ghost(l), Ghost(10))?;
    assert(slots_well_formed_before(s, l, 11));
    let flags = read_u32_slot(cursor, pack_invalid || common & ATTR_CMN_FLAGS != 0, Ghost(s), Ghost(l), Ghost(11))?;
    let flags = if common & ATTR_CMN_FLAGS != 0 { flags } else { 0 };
    assert(slots_well_formed_before(s, l, 12));
    let inode = read_u64_slot(cursor, pack_invalid || common & ATTR_CMN_FILEID != 0, Ghost(s), Ghost(l), Ghost(12))?;
    let inode = if common & ATTR_CMN_FILEID != 0 { Some(inode) } else { None };
    assert(slots_well_formed_before(s, l, 13));
    Ok((flags, inode))
}

/// Values of the file slots that a record retains.
pub struct FileValues {
    /// Hard-link count.
    pub links: Option<u64>,
    /// Allocation in whole `stat` blocks.
    pub allocated: Option<u64>,
    /// Logical data length.
    pub length: Option<u64>,
    /// Data-fork allocation in whole `stat` blocks.
    pub data_allocated: Option<u64>,
}

/// Read slots 13 to 18, the file attributes.
#[verifier::rlimit(40)]
fn read_file_slots(cursor: &mut Cursor, file: u32, pack_file: bool, include_apfs: bool, Ghost(s): Ghost<Seq<u8>>, Ghost(l): Ghost<Layout>) -> (r: Result<FileValues, AttributeError>)
    requires
        at_slot(*old(cursor), s, l, 13),
        slots_well_formed_before(s, l, 13),
        l.file == file,
        pack_file == (l.pack_invalid && !l.is_dir),
        l.include_apfs == include_apfs,
    ensures
        final(cursor).bytes@ == s,
        final(cursor).pos <= s.len(),
        phase_outcome(s, l, 13, 19, r is Ok, match r { Ok(_) => AttributeError::RecordTruncated, Err(e) => e }),
        r is Ok ==> final(cursor).pos == slot_offset(l, 19),
        r matches Ok(v) ==> {
            &&& v.links == if slot_present(l, 13) { Some(slot_u32(s, l, 13) as u64) } else { None }
            &&& v.allocated == if slot_present(l, 14) { Some(fts_allocated_spec(slot_u64(s, l, 14) as u64) as u64) } else { None }
            &&& v.length == if slot_present(l, 17) { Some(slot_u64(s, l, 17) as u64) } else { None }
            &&& v.data_allocated == if slot_present(l, 18) { Some(fts_allocated_spec(slot_u64(s, l, 18) as u64) as u64) } else { None }
        },
{
    let links = read_u32_slot(cursor, pack_file || file & ATTR_FILE_LINKCOUNT != 0, Ghost(s), Ghost(l), Ghost(13))?;
    let links = if file & ATTR_FILE_LINKCOUNT != 0 { Some(links as u64) } else { None };
    assert(slots_well_formed_before(s, l, 14));
    let allocated = read_u64_slot(cursor, pack_file || file & ATTR_FILE_ALLOCSIZE != 0, Ghost(s), Ghost(l), Ghost(14))?;
    let allocated = if file & ATTR_FILE_ALLOCSIZE != 0 { Some(fts_allocated_bytes(allocated)) } else { None };
    assert(slots_well_formed_before(s, l, 15));
    skip_slot(cursor, pack_file || file & ATTR_FILE_IOBLOCKSIZE != 0, 4, Ghost(s), Ghost(l), Ghost(15))?;
    assert(slots_well_formed_before(s, l, 16));
    skip_slot(cursor, pack_file || file & ATTR_FILE_DEVTYPE != 0, 4, Ghost(s), Ghost(l), Ghost(16))?;
    assert(slots_well_formed_before(s, l, 17));
    let length = read_u64_slot(cursor, pack_file || file & ATTR_FILE_DATALENGTH != 0, Ghost(s), Ghost(l), Ghost(17))?;
    let length = if file & ATTR_FILE_DATALENGTH != 0 { Some(length) } else { None };
    assert(slots_well_formed_before(s, l, 18));
    let data_allocated = read_u64_slot(cursor, (pack_file && include_apfs) || file & ATTR_FILE_DATAALLOCSIZE != 0, Ghost(s), Ghost(l), Ghost(18))?;
    let data_allocated = if file & ATTR_FILE_DATAALLOCSIZE != 0 { Some(fts_allocated_bytes(data_allocated)) } else { None };
    assert(slots_well_formed_before(s, l, 19));
    Ok(FileValues { links, allocated, length, data_allocated })
}

/// Read slots 19 and 20, the clone identifier and extended flags.
#[verifier::rlimit(40)]
fn read_clone_slots(cursor: &mut Cursor, fork: u32, pack_apfs: bool, Ghost(s): Ghost<Seq<u8>>, Ghost(l): Ghost<Layout>) -> (r: Result<(Option<u64>, Option<u64>), AttributeError>)
    requires
        at_slot(*old(cursor), s, l, 19),
        slots_well_formed_before(s, l, 19),
        l.fork == fork,
        pack_apfs == (l.pack_invalid && l.include_apfs),
    ensures
        phase_outcome(s, l, 19, 21, r is Ok, match r { Ok(_) => AttributeError::RecordTruncated, Err(e) => e }),
        r matches Ok((clone_id, extended_flags)) ==> {
            &&& clone_id == if slot_present(l, 19) && slot_u64(s, l, 19) != 0 { Some(slot_u64(s, l, 19) as u64) } else { None }
            &&& extended_flags == if slot_present(l, 20) { Some(slot_u64(s, l, 20) as u64) } else { None }
        },
{
    let clone_id = read_u64_slot(cursor, pack_apfs || fork & ATTR_CMNEXT_CLONEID != 0, Ghost(s), Ghost(l), Ghost(19))?;
    let clone_id = if fork & ATTR_CMNEXT_CLONEID != 0 && clone_id != 0 { Some(clone_id) } else { None };
    assert(slots_well_formed_before(s, l, 20));
    let extended_flags = read_u64_slot(cursor, pack_apfs || fork & ATTR_CMNEXT_EXT_FLAGS != 0, Ghost(s), Ghost(l), Ghost(20))?;
    let extended_flags = if fork & ATTR_CMNEXT_EXT_FLAGS != 0 { Some(extended_flags) } else { None };
    assert(slots_well_formed_before(s, l, 21));
    Ok((clone_id, extended_flags))
}

/// Decode a bulk attribute record.
///
/// `pack_invalid` tells that attributes marked unavailable still occupy their slot, as they do
/// in bulk enumeration; `include_apfs` tells that clone attributes were requested.
pub fn parse_record(bytes: &[u8], pack_invalid: bool, include_apfs: bool) -> (r: Result<ParsedRecord, AttributeError>)
    ensures
        bytes@.len() < header_size() ==> r == Err::<ParsedRecord, _>(AttributeError::RecordTruncated),
        bytes@.len() >= header_size() && (le_u32(bytes@, 4) as u32) & ATTR_CMN_RETURNED_ATTRS == 0
            ==> r == Err::<ParsedRecord, _>(AttributeError::MissingReturnedBitmap),
        bytes@.len() >= header_size() && (le_u32(bytes@, 4) as u32) & ATTR_CMN_RETURNED_ATTRS != 0 ==> {
            let l = record_layout(bytes@, pack_invalid, include_apfs);
            &&& (r matches Ok(record) ==> slots_well_formed_before(bytes@, l, slot_count())
                && record_decodes(bytes@, l, record))
            &&& (r matches Err(e) ==> exists|k: nat| #![trigger slots_well_formed_before(bytes@, l, k)]
                k < slot_count() && slots_well_formed_before(bytes@, l, k) && !slot_well_formed(bytes@, l, k as int)
                    && e == slot_error(bytes@, l, k as int))
        },
{
    if bytes.len() < 24 {
        return Err(AttributeError::RecordTruncated);
    }
    let ghost s = bytes@;
    let mut cursor = Cursor::new(bytes);
    let _length = cursor.take_u32()?;
    let common = cursor.take_u32()?;
    let _volume = cursor.take_u32()?;
    let _directory = cursor.take_u32()?;
    let file = cursor.take_u32()?;
    let fork = cursor.take_u32()?;
    if common & ATTR_CMN_RETURNED_ATTRS == 0 {
        return Err(AttributeError::MissingReturnedBitmap);
    }
    let ghost l = record_layout(s, pack_invalid, include_apfs);
    let ghost base = Layout { is_dir: false, ..l };
    assert(l.common == common && l.file == file && l.fork == fork);
    assert(cursor.pos == slot_offset(l, 0));
    let identity = read_identity_slots(&mut cursor, bytes, common, pack_invalid, Ghost(l))?;
    let (flags, inode) = read_ownership_slots(&mut cursor, common, pack_invalid, Ghost(s), Ghost(l))?;
    proof {
        lemma_offset_ignores_type(base, l, 3);
    }
    let is_dir = match identity.object_type { Some(t) => t == VDIR, None => false };
    assert(is_dir == l.is_dir);
    let pack_file = pack_invalid && !is_dir;
    let file_values = read_file_slots(&mut cursor, file, pack_file, include_apfs, Ghost(s), Ghost(l))?;
    let (clone_id, extended_flags) = read_clone_slots(&mut cursor, fork, pack_invalid && include_apfs, Ghost(s), Ghost(l))?;
    Ok(ParsedRecord {
        returned_common: common,
        returned_file: file,
        file_name: identity.file_name,
        device: identity.device,
        object_type: identity.object_type,
        modified: identity.modified,
        flags,
        inode,
        error: identity.error,
        file_links: file_values.links,
        file_length: file_values.length,
        file_allocated: file_values.allocated,
        file_data_allocated: file_values.data_allocated,
        clone_id,
        extended_flags,
    })
}

/// Bytes accounted for `bytes` of allocation when rounded up to whole `stat` blocks,
/// saturating at the largest representable multiple.
pub open spec fn fts_allocated_spec(bytes: u64) -> int {
    let blocks = (bytes as int + 511) / 512;
    if blocks * 512 > u64::MAX { u64::MAX as int } else { blocks * 512 }
}

/// Round an allocation up to whole 512-byte `stat` blocks.
pub fn fts_allocated_bytes(bytes: u64) -> (r: u64)
    ensures
        r as int == fts_allocated_spec(bytes),
{
    let blocks = bytes / STAT_BLOCK_BYTES + if bytes % STAT_BLOCK_BYTES == 0 { 0 } else { 1 };
    assert(blocks as int == (bytes as int + 511) / 512) by (nonlinear_arith)
        requires blocks as int == bytes as int / 512 + if bytes as int % 512 == 0 { 0int } else { 1int };
    if blocks > u64::MAX / STAT_BLOCK_BYTES {
        u64::MAX
    } else {
        blocks * STAT_BLOCK_BYTES
    }
}

/// Read the length that starts every record.
pub fn read_record_length(bytes: &[u8]) -> (r: Result<usize, AttributeError>)
    ensures
        bytes@.len() >= 4 ==> r == Ok::<usize, AttributeError>(le_u32(bytes@, 0) as usize),
        bytes@.len() < 4 ==> r == Err::<usize, _>(AttributeError::AttributeExceedsRecord),
{
    let mut cursor = Cursor::new(bytes);
    let length = cursor.take_u32()?;
    Ok(length as usize)
}

} // verus!
