//! Entries of Darwin's bulk directory enumeration: record framing within the enumeration
//! buffer, entry types and metadata.
use vstd::prelude::*;
use crate::attributes::{
    le_u32, header_size, AttributeError, DataFork, ParsedRecord, STAT_BLOCK_BYTES, VDIR, VLNK, VNON,
    VREG, SF_FIRMLINK,
};
use crate::timestamp::Timestamp;

verus! {

/// Where the record at `offset` of an enumeration buffer ends: every record starts with its
/// length, which covers at least a header and stays within the buffer.
pub fn record_end(buffer: &[u8], offset: usize) -> (r: Result<usize, AttributeError>)
    ensures
        offset + 4 > buffer@.len() ==> r == Err::<usize, _>(AttributeError::RecordHasNoLength),
        offset + 4 <= buffer@.len() ==> {
            let length = le_u32(buffer@, offset as int);
            &&& (length >= header_size() && offset + length <= buffer@.len())
                ==> r == Ok::<usize, AttributeError>((offset + length) as usize)
            &&& !(length >= header_size() && offset + length <= buffer@.len())
                ==> r == Err::<usize, _>(AttributeError::RecordExceedsBuffer)
        },
{
    if buffer.len() < 4 || offset > buffer.len() - 4 {
        return Err(AttributeError::RecordHasNoLength);
    }
    let b0 = buffer[offset] as usize;
    let b1 = buffer[offset + 1] as usize;
    let b2 = buffer[offset + 2] as usize;
    let b3 = buffer[offset + 3] as usize;
    let length: u64 = (b0 + b1 * 0x100 + b2 * 0x1_0000) as u64 + b3 as u64 * 0x100_0000;
    if length < 24 || length > (buffer.len() - offset) as u64 {
        return Err(AttributeError::RecordExceedsBuffer);
    }
    Ok(offset + length as usize)
}

/// Filesystem entry type obtained without following symbolic links, as a Darwin vnode type.
#[derive(Clone, Copy, Debug, PartialEq, Eq, Structural)]
pub struct FileType {
    /// The vnode type.
    pub kind: u32,
}

impl FileType {
    /// The type of an entry described by `std`'s three type predicates, checked in order.
    pub fn from_flags(is_dir: bool, is_file: bool, is_symlink: bool) -> (t: FileType)
        ensures
            t.kind == if is_dir { VDIR } else if is_file { VREG } else if is_symlink { VLNK } else { VNON },
    {
        let kind = if is_dir {
            VDIR
        } else if is_file {
            VREG
        } else if is_symlink {
            VLNK
        } else {
            VNON
        };
        FileType { kind }
    }

    /// Return whether this entry is a directory that may be traversed.
    pub fn is_dir(self) -> (r: bool)
        ensures
            r == (self.kind == VDIR),
    {
        self.kind == VDIR
    }

    /// Return whether this entry is a regular file.
    pub fn is_file(self) -> (r: bool)
        ensures
            r == (self.kind == VREG),
    {
        self.kind == VREG
    }

    /// Return whether this entry is a symbolic link.
    pub fn is_symlink(self) -> (r: bool)
        ensures
            r == (self.kind == VLNK),
    {
        self.kind == VLNK
    }
}

/// Metadata obtained during native directory enumeration.
#[derive(Clone, Copy, Debug, PartialEq, Eq, Structural)]
pub struct Metadata {
    /// Logical length.
    pub len: u64,
    /// Bytes physically allocated.
    pub allocated_size: u64,
    /// Data-fork allocation and clone identity of a regular file, when known.
    pub data_fork: Option<DataFork>,
    /// Last modification time, when known.
    pub modified: Option<Timestamp>,
    /// Device of the containing filesystem.
    pub dev: u64,
    /// Inode number.
    pub ino: u64,
    /// Number of hard links.
    pub nlink: u64,
    /// Entry type.
    pub file_type: FileType,
}

/// A data fork is kept only for regular files and only if it fits the total allocation.
pub open spec fn kept_fork(fork: Option<DataFork>, file_type: FileType, allocated_size: u64) -> Option<DataFork> {
    match fork {
        Some(f) if file_type.kind == VREG && f.allocated_size <= allocated_size => Some(f),
        _ => None,
    }
}

/// Bytes of `blocks` whole `stat` blocks, saturating.
pub open spec fn blocks_to_bytes(blocks: u64) -> u64 {
    if blocks * 512 > u64::MAX { u64::MAX } else { (blocks * 512) as u64 }
}

impl Metadata {
    /// Metadata from the values of a `stat` call.
    pub fn from_stat(
        len: u64,
        blocks: u64,
        modified: Option<Timestamp>,
        dev: u64,
        ino: u64,
        nlink: u64,
        file_type: FileType,
        data_fork: Option<DataFork>,
    ) -> (m: Metadata)
        ensures
            m.len == len,
            m.allocated_size == blocks_to_bytes(blocks),
            m.data_fork == kept_fork(data_fork, file_type, blocks_to_bytes(blocks)),
            m.modified == modified,
            m.dev == dev,
            m.ino == ino,
            m.nlink == nlink,
            m.file_type == file_type,
    {
        let allocated_size = if blocks > u64::MAX / STAT_BLOCK_BYTES {
            u64::MAX
        } else {
            blocks * STAT_BLOCK_BYTES
        };
        let data_fork = match data_fork {
            Some(fork) if file_type.is_file() && fork.allocated_size <= allocated_size => Some(fork),
            _ => None,
        };
        Metadata { len, allocated_size, data_fork, modified, dev, ino, nlink, file_type }
    }

    /// Return the logical file or directory length.
    pub fn len(&self) -> (r: u64)
        ensures
            r == self.len,
    {
        self.len
    }

    /// Return the number of bytes physically allocated to the file or directory.
    pub fn allocated_size(&self) -> (r: u64)
        ensures
            r == self.allocated_size,
    {
        self.allocated_size
    }

    /// Return data-fork allocation, or total allocation when separate fork metadata is unavailable.
    pub fn data_allocated_size(&self) -> (r: u64)
        ensures
            r == match self.data_fork {
                Some(fork) => fork.allocated_size,
                None => self.allocated_size,
            },
    {
        match self.data_fork {
            Some(fork) => fork.allocated_size,
            None => self.allocated_size,
        }
    }

    /// Return the allocated size as 512-byte filesystem accounting blocks, rounded up.
    pub fn blocks(&self) -> (r: u64)
        ensures
            r as int == (self.allocated_size as int + 511) / 512,
    {
        let whole = self.allocated_size / STAT_BLOCK_BYTES;
        if self.allocated_size % STAT_BLOCK_BYTES == 0 { whole } else { whole + 1 }
    }

    /// Return the last modification time.
    pub fn modified(&self) -> (r: Result<Timestamp, AttributeError>)
        ensures
            r == match self.modified {
                Some(t) => Ok::<Timestamp, AttributeError>(t),
                None => Err(AttributeError::ModificationTimeUnavailable),
            },
    {
        match self.modified {
            Some(t) => Ok(t),
            None => Err(AttributeError::ModificationTimeUnavailable),
        }
    }

    /// Return the device number of the filesystem containing this entry.
    pub fn dev(&self) -> (r: u64)
        ensures
            r == self.dev,
    {
        self.dev
    }

    /// Return the filesystem inode number.
    pub fn ino(&self) -> (r: u64)
        ensures
            r == self.ino,
    {
        self.ino
    }

    /// Return the number of hard links to this entry.
    pub fn nlink(&self) -> (r: u64)
        ensures
            r == self.nlink,
    {
        self.nlink
    }

    /// Return whether this metadata describes a regular file.
    pub fn is_file(&self) -> (r: bool)
        ensures
            r == (self.file_type.kind == VREG),
    {
        self.file_type.is_file()
    }

    /// Return the shared APFS content identifier for a file that may have full clones.
    pub fn clone_id(&self) -> (r: Option<u64>)
        ensures
            r == match self.data_fork {
                Some(fork) => fork.clone_id,
                None => None,
            },
    {
        match self.data_fork {
            Some(fork) => fork.clone_id,
            None => None,
        }
    }
}

/// The metadata a bulk record stands for, as a `stat` call of the entry would report it.
/// Directory attributes are never requested in bulk, so a directory is always examined on its
/// own; a file record must carry every attribute that `stat` reports.
pub open spec fn bulk_metadata(record: ParsedRecord, file_type: FileType) -> Result<Metadata, AttributeError> {
    if file_type.kind == VDIR {
        Err(AttributeError::MissingDirectoryLength)
    } else if record.file_length is None {
        Err(AttributeError::MissingFileLength)
    } else if record.file_allocated is None {
        Err(AttributeError::MissingFileAllocation)
    } else if record.file_links is None {
        Err(AttributeError::MissingFileLinks)
    } else if record.modified is None {
        Err(AttributeError::MissingModificationTime)
    } else if record.device is None {
        Err(AttributeError::MissingDevice)
    } else if record.inode is None {
        Err(AttributeError::MissingInode)
    } else {
        let allocated_size = record.file_allocated->0;
        Ok(Metadata {
            len: record.file_length->0,
            allocated_size,
            data_fork: kept_fork(record.data_fork_spec(), file_type, allocated_size),
            modified: record.modified,
            dev: record.device->0,
            ino: record.inode->0,
            nlink: record.file_links->0,
            file_type,
        })
    }
}

impl ParsedRecord {
    /// The metadata of the entry this record describes, if the record carries all of it.
    pub fn metadata(&self, file_type: FileType) -> (r: Result<Metadata, AttributeError>)
        ensures
            r == bulk_metadata(*self, file_type),
    {
        if file_type.is_dir() {
            return Err(AttributeError::MissingDirectoryLength);
        }
        let len = match self.file_length {
            Some(len) => len,
            None => return Err(AttributeError::MissingFileLength),
        };
        let allocated_size = match self.file_allocated {
            Some(size) => size,
            None => return Err(AttributeError::MissingFileAllocation),
        };
        let nlink = match self.file_links {
            Some(links) => links,
            None => return Err(AttributeError::MissingFileLinks),
        };
        let data_fork = match self.data_fork() {
            Some(fork) if file_type.is_file() && fork.allocated_size <= allocated_size => Some(fork),
            _ => None,
        };
        let modified = match self.modified {
            Some(t) => t,
            None => return Err(AttributeError::MissingModificationTime),
        };
        let dev = match self.device {
            Some(dev) => dev,
            None => return Err(AttributeError::MissingDevice),
        };
        let ino = match self.inode {
            Some(ino) => ino,
            None => return Err(AttributeError::MissingInode),
        };
        Ok(Metadata { len, allocated_size, data_fork, modified: Some(modified), dev, ino, nlink, file_type })
    }
}

/// Where the metadata of an enumerated entry comes from.
#[derive(Clone, Copy, Debug, PartialEq, Eq, Structural)]
pub enum MetadataSource {
    /// The kernel reported this error number in place of the entry's attributes.
    Failed(i32),
    /// The bulk record describes the entry completely.
    Record(Metadata),
    /// The entry must be examined with `lstat` on its path.
    Stat,
}

/// An entry of a bulk enumeration buffer, before any path is examined.
#[derive(Clone, Debug)]
pub struct EnumeratedEntry {
    /// The entry name.
    pub file_name: Vec<u8>,
    /// The entry type the record reports.
    pub file_type: FileType,
    /// Where the entry's metadata comes from.
    pub metadata: MetadataSource,
}

/// The error number that replaces an entry's attributes: the record's own, else the one under
/// which the whole listing was obtained.
pub open spec fn entry_error(record: ParsedRecord, listing_error: Option<i32>) -> Option<i32> {
    if record.error != 0 { Some(record.error as i32) } else { listing_error }
}

/// Whether the entry is a firmlink, whose bulk attributes describe the link rather than what
/// it leads to.
pub open spec fn is_firmlink(record: ParsedRecord) -> bool {
    record.flags & SF_FIRMLINK != 0
}

/// The metadata source of an error-free record with a known object type.
pub open spec fn metadata_source(record: ParsedRecord, file_type: FileType) -> MetadataSource {
    if is_firmlink(record) {
        MetadataSource::Stat
    } else {
        match bulk_metadata(record, file_type) {
            Ok(m) => MetadataSource::Record(m),
            Err(_) => MetadataSource::Stat,
        }
    }
}

/// The entry a decoded enumeration record describes, or why it describes none.
pub fn enumerated_entry(record: ParsedRecord, listing_error: Option<i32>) -> (r: Result<EnumeratedEntry, AttributeError>)
    ensures
        record.file_name is None ==> r == Err::<EnumeratedEntry, _>(AttributeError::MissingFilename),
        record.file_name is Some && entry_error(record, listing_error) is None && record.object_type is None
            ==> r == Err::<EnumeratedEntry, _>(AttributeError::MissingObjectType),
        record.file_name is Some && entry_error(record, listing_error) is Some ==> (r matches Ok(e)
            && e.file_name == record.file_name->0
            && e.file_type == (FileType { kind: match record.object_type { Some(k) => k, None => VNON } })
            && e.metadata == MetadataSource::Failed(entry_error(record, listing_error)->0)),
        record.file_name is Some && entry_error(record, listing_error) is None && record.object_type is Some
            ==> (r matches Ok(e)
            && e.file_name == record.file_name->0
            && e.file_type == (FileType { kind: record.object_type->0 })
            && e.metadata == metadata_source(record, FileType { kind: record.object_type->0 })),
{
    let error = if record.error != 0 {
        Some(record.error as i32)
    } else {
        listing_error
    };
    let file_type = FileType {
        kind: match record.object_type {
            Some(kind) => kind,
            None => VNON,
        },
    };
    let metadata = match error {
        Some(e) => MetadataSource::Failed(e),
        None => {
            if record.object_type.is_none() {
                if record.file_name.is_none() {
                    return Err(AttributeError::MissingFilename);
                }
                return Err(AttributeError::MissingObjectType);
            }
            if record.flags & SF_FIRMLINK != 0 {
                MetadataSource::Stat
            } else {
                match record.metadata(file_type) {
                    Ok(m) => MetadataSource::Record(m),
                    Err(_) => MetadataSource::Stat,
                }
            }
        },
    };
    match record.file_name {
        Some(file_name) => Ok(EnumeratedEntry { file_name, file_type, metadata }),
        None => Err(AttributeError::MissingFilename),
    }
}

/// Darwin's `EACCES`: permission denied.
pub const EACCES: i32 = 13;
/// Darwin's `EINVAL`: invalid argument.
pub const EINVAL: i32 = 22;
/// Darwin's `ENOTSUP`: operation not supported.
pub const ENOTSUP: i32 = 45;
/// Darwin's `ENOSYS`: function not implemented.
pub const ENOSYS: i32 = 78;
/// Darwin's `EOPNOTSUPP`: operation not supported on socket.
pub const EOPNOTSUPP: i32 = 102;

/// What a directory reader does after one call of `getattrlistbulk`.
#[derive(Clone, Copy, Debug, PartialEq, Eq, Structural)]
pub enum RefillStep {
    /// The buffer holds this many records.
    Records(usize),
    /// The directory has no more entries.
    Exhausted,
    /// Call again, as requested now.
    Retry,
    /// Enumeration is unsupported here: list the directory with ordinary iteration.
    FallBack,
    /// Enumeration failed with the call's error.
    Failed,
}

/// The state of a bulk directory reader between records.
#[derive(Clone, Copy, Debug, PartialEq, Eq, Structural)]
pub struct BulkReader {
    /// The error that withheld attributes from the whole listing, once names alone are
    /// requested.
    pub listing_error: Option<i32>,
    /// Whether extended attributes, such as clone identities, are requested.
    pub extended_attributes: bool,
    /// Whether the reader has ended.
    pub exhausted: bool,
    /// Where the next record starts in the buffer.
    pub offset: usize,
    /// How many records the buffer still holds.
    pub remaining: usize,
}

/// What the next step of iteration is.
#[derive(Clone, Copy, Debug, PartialEq, Eq, Structural)]
pub enum ReadAction {
    /// Iteration has ended.
    Done,
    /// Fill the buffer.
    Refill,
    /// Decode the record at the current offset.
    NextRecord,
}

/// Whether `errno` says that extended attributes are not understood.
pub open spec fn rejects_extended(errno: Option<i32>) -> bool {
    errno matches Some(e) && (e == EINVAL || e == ENOTSUP || e == EOPNOTSUPP || e == ENOSYS)
}

impl BulkReader {
    /// A reader that has read nothing yet.
    pub fn new(extended_attributes: bool) -> (r: BulkReader)
        ensures
            r == (BulkReader { listing_error: None, extended_attributes, exhausted: false, offset: 0, remaining: 0 }),
    {
        BulkReader { listing_error: None, extended_attributes, exhausted: false, offset: 0, remaining: 0 }
    }

    /// The next step of iteration: none once ended, a refill once the buffer's records are used.
    pub fn next_action(&self) -> (r: ReadAction)
        ensures
            r == if self.exhausted { ReadAction::Done } else if self.remaining == 0 { ReadAction::Refill } else { ReadAction::NextRecord },
    {
        if self.exhausted {
            ReadAction::Done
        } else if self.remaining == 0 {
            ReadAction::Refill
        } else {
            ReadAction::NextRecord
        }
    }

    /// Act on one call of `getattrlistbulk` that returned `count`, and on failure set `errno`,
    /// `interrupted` where its kind is an interruption and `unsupported` where its kind is an
    /// unsupported operation. Records reset the buffer position; an end or a failure ends the
    /// reader. An interruption retries as before; a denied listing retries once for names
    /// alone; rejected extended attributes retry once without them; an unsupported operation
    /// falls back to ordinary iteration.
    pub fn after_bulk_read(&mut self, count: i32, errno: Option<i32>, interrupted: bool, unsupported: bool) -> (r: RefillStep)
        ensures
            count > 0 ==> r == RefillStep::Records(count as usize) && *final(self) == (BulkReader { offset: 0, remaining: count as usize, ..*old(self) }),
            count == 0 ==> r == RefillStep::Exhausted && *final(self) == (BulkReader { exhausted: true, ..*old(self) }),
            count < 0 && interrupted ==> r == RefillStep::Retry && *final(self) == *old(self),
            count < 0 && !interrupted && old(self).listing_error is None && errno == Some(EACCES)
                ==> r == RefillStep::Retry && *final(self) == (BulkReader { listing_error: Some(EACCES), extended_attributes: false, ..*old(self) }),
            count < 0 && !interrupted && !(old(self).listing_error is None && errno == Some(EACCES))
                && old(self).extended_attributes && rejects_extended(errno)
                ==> r == RefillStep::Retry && *final(self) == (BulkReader { extended_attributes: false, ..*old(self) }),
            count < 0 && !interrupted && !(old(self).listing_error is None && errno == Some(EACCES))
                && !(old(self).extended_attributes && rejects_extended(errno))
                && (unsupported || errno == Some(ENOTSUP) || errno == Some(EOPNOTSUPP))
                ==> r == RefillStep::FallBack && *final(self) == *old(self),
            count < 0 && !interrupted && !(old(self).listing_error is None && errno == Some(EACCES))
                && !(old(self).extended_attributes && rejects_extended(errno))
                && !(unsupported || errno == Some(ENOTSUP) || errno == Some(EOPNOTSUPP))
                ==> r == RefillStep::Failed && *final(self) == (BulkReader { exhausted: true, ..*old(self) }),
    {
        if count > 0 {
            self.offset = 0;
            self.remaining = count as usize;
            return RefillStep::Records(count as usize);
        }
        if count == 0 {
            self.exhausted = true;
            return RefillStep::Exhausted;
        }
        if interrupted {
            return RefillStep::Retry;
        }
        if self.listing_error.is_none() && errno == Some(EACCES) {
            self.listing_error = Some(EACCES);
            self.extended_attributes = false;
            return RefillStep::Retry;
        }
        let rejected = match errno {
            Some(e) => e == EINVAL || e == ENOTSUP || e == EOPNOTSUPP || e == ENOSYS,
            None => false,
        };
        if self.extended_attributes && rejected {
            self.extended_attributes = false;
            return RefillStep::Retry;
        }
        if unsupported || errno == Some(ENOTSUP) || errno == Some(EOPNOTSUPP) {
            return RefillStep::FallBack;
        }
        self.exhausted = true;
        RefillStep::Failed
    }

    /// Move past the record ending at `end`, which an enumeration record that `record_end`
    /// accepted ends at.
    pub fn consume_record(&mut self, end: usize)
        requires
            old(self).remaining > 0,
        ensures
            *final(self) == (BulkReader { offset: end, remaining: (old(self).remaining - 1) as usize, ..*old(self) }),
    {
        self.offset = end;
        self.remaining = self.remaining - 1;
    }

    /// End the reader, as a malformed record does.
    pub fn end(&mut self)
        ensures
            *final(self) == (BulkReader { exhausted: true, ..*old(self) }),
    {
        self.exhausted = true;
    }
}

/// Whether an enumerated name is `.` or `..`, which iteration skips.
pub fn is_dot_entry(name: &[u8]) -> (r: bool)
    ensures
        r == (name@ == seq![46u8] || name@ == seq![46u8, 46u8]),
{
    if name.len() == 1 {
        proof {
            if name@[0] == 46u8 {
                assert(name@ =~= seq![46u8]);
            }
        }
        name[0] == 46
    } else if name.len() == 2 {
        proof {
            if name@[0] == 46u8 && name@[1] == 46u8 {
                assert(name@ =~= seq![46u8, 46u8]);
            }
        }
        name[0] == 46 && name[1] == 46
    } else {
        false
    }
}

} // verus!
