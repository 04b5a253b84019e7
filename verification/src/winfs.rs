//! Windows directory enumeration records (`FILE_ID_BOTH_DIR_INFO`), entry types, timestamps and
//! verbatim paths.
use vstd::prelude::*;
use crate::attributes::{le_u32, le_u64, signed64};
use crate::timestamp::Timestamp;

verus! {

/// Attribute flag of directories.
pub const FILE_ATTRIBUTE_DIRECTORY: u32 = 0x0000_0010;
/// Attribute flag of reparse points.
pub const FILE_ATTRIBUTE_REPARSE_POINT: u32 = 0x0000_0400;
/// Reparse-tag bit of name surrogates: symbolic links, junctions and mount points.
pub const NAME_SURROGATE_BIT: u32 = 0x2000_0000;
/// Offset of the file name within a `FILE_ID_BOTH_DIR_INFO` record.
pub const HEADER_SIZE: usize = 104;
/// 100-nanosecond intervals between 1601-01-01 and the Unix epoch.
pub const WINDOWS_TO_UNIX_TICKS: u64 = 116_444_736_000_000_000;

/// Windows filesystem entry type derived from directory attributes and reparse tags.
#[derive(Clone, Copy, Debug, PartialEq, Eq, Structural)]
pub struct FileType {
    /// Whether the entry is a directory that may be traversed.
    pub is_dir: bool,
    /// Whether the entry is a symbolic link or junction.
    pub is_symlink: bool,
}

impl FileType {
    /// The type of an entry with `attributes` and, for reparse points, `reparse_tag`.
    /// Name surrogates are links; other directories, including other reparse points, are
    /// traversed.
    pub fn from_attributes(attributes: u32, reparse_tag: u32) -> (t: FileType)
        ensures
            t.is_symlink == (attributes & FILE_ATTRIBUTE_REPARSE_POINT != 0 && reparse_tag & NAME_SURROGATE_BIT != 0),
            t.is_dir == (!t.is_symlink && attributes & FILE_ATTRIBUTE_DIRECTORY != 0),
    {
        let is_symlink = attributes & FILE_ATTRIBUTE_REPARSE_POINT != 0 && reparse_tag & NAME_SURROGATE_BIT != 0;
        FileType { is_dir: !is_symlink && attributes & FILE_ATTRIBUTE_DIRECTORY != 0, is_symlink }
    }

    /// Return whether this entry is a directory that may be traversed.
    pub fn is_dir(self) -> (r: bool)
        ensures
            r == self.is_dir,
    {
        self.is_dir
    }

    /// Return whether this entry is a regular file.
    pub fn is_file(self) -> (r: bool)
        ensures
            r == (!self.is_dir && !self.is_symlink),
    {
        !self.is_dir && !self.is_symlink
    }

    /// Return whether this entry is a symbolic link or junction.
    pub fn is_symlink(self) -> (r: bool)
        ensures
            r == self.is_symlink,
    {
        self.is_symlink
    }
}

/// Metadata supplied by Windows directory enumeration.
#[derive(Clone, Copy, Debug, PartialEq, Eq, Structural)]
pub struct Metadata {
    /// Logical file size.
    pub len: u64,
    /// Allocated bytes.
    pub allocated_size: u64,
    /// Last modification time.
    pub modified: Timestamp,
    /// Serial number of the volume.
    pub volume_serial: u64,
    /// Nonzero file identifier, if the filesystem provides one.
    pub file_id: Option<u64>,
}

impl Metadata {
    /// Return the logical file size.
    pub fn len(&self) -> (r: u64)
        ensures
            r == self.len,
    {
        self.len
    }

    /// Return the number of allocated bytes.
    pub fn allocated_size(&self) -> (r: u64)
        ensures
            r == self.allocated_size,
    {
        self.allocated_size
    }

    /// Return the last modification time.
    pub fn modified(&self) -> (r: Timestamp)
        ensures
            r == self.modified,
    {
        self.modified
    }

    /// Return the volume and file identifiers used to recognize hard links.
    pub fn hard_link_id(&self) -> (r: Option<(u64, u64)>)
        ensures
            r == match self.file_id {
                Some(id) => Some((self.volume_serial, id)),
                None => None,
            },
    {
        match self.file_id {
            Some(id) => Some((self.volume_serial, id)),
            None => None,
        }
    }
}

/// The duration of `ticks` 100-nanosecond intervals as whole seconds and nanoseconds.
pub fn duration_from_ticks(ticks: u64) -> (r: (u64, u32))
    ensures
        r.1 < 1_000_000_000,
        r.0 as int * 1_000_000_000 + r.1 as int == ticks as int * 100,
{
    let seconds = ticks / 10_000_000;
    let rest = ticks % 10_000_000;
    assert(seconds as int * 10_000_000 + rest as int == ticks as int) by (nonlinear_arith)
        requires seconds as int == ticks as int / 10_000_000, rest as int == ticks as int % 10_000_000;
    (seconds, (rest * 100) as u32)
}

/// The time a `FILETIME` of `ticks` 100-nanosecond intervals since 1601 denotes.
pub fn filetime_to_timestamp(ticks: u64) -> (t: Timestamp)
    requires
        ticks <= i64::MAX,
    ensures
        t.wf(),
        t.total_nanos() == (ticks as int - WINDOWS_TO_UNIX_TICKS as int) * 100,
{
    if ticks >= WINDOWS_TO_UNIX_TICKS {
        let (seconds, nanos) = duration_from_ticks(ticks - WINDOWS_TO_UNIX_TICKS);
        assert(seconds <= i64::MAX) by (nonlinear_arith)
            requires seconds as int * 1_000_000_000 <= (ticks as int - WINDOWS_TO_UNIX_TICKS as int) * 100, ticks <= i64::MAX;
        Timestamp { seconds: seconds as i64, nanos }
    } else {
        let (seconds, nanos) = duration_from_ticks(WINDOWS_TO_UNIX_TICKS - ticks);
        assert(seconds <= 11_644_473_600) by (nonlinear_arith)
            requires seconds as int * 1_000_000_000 <= WINDOWS_TO_UNIX_TICKS as int * 100;
        if nanos == 0 {
            Timestamp { seconds: -(seconds as i64), nanos: 0 }
        } else {
            Timestamp { seconds: -(seconds as i64) - 1, nanos: 1_000_000_000 - nanos }
        }
    }
}

/// Errors found while decoding enumeration records.
#[derive(Clone, Copy, Debug, PartialEq, Eq, Structural)]
pub enum RecordError {
    /// The record header lies outside the buffer.
    HeaderExceedsBuffer,
    /// The filename has an odd number of bytes.
    OddNameLength,
    /// The filename lies outside the buffer.
    FilenameExceedsBuffer,
    /// The next record would start outside the buffer.
    OffsetExceedsBuffer,
}

impl RecordError {
    /// The human-readable description of this error.
    pub fn message(&self) -> (m: &'static str)
        ensures
            m@ == match self {
                RecordError::HeaderExceedsBuffer => "Windows directory record header exceeds its buffer"@,
                RecordError::OddNameLength => "Windows directory record has an odd UTF-16 byte length"@,
                RecordError::FilenameExceedsBuffer => "Windows directory filename exceeds its buffer"@,
                RecordError::OffsetExceedsBuffer => "Windows directory record offset exceeds its buffer"@,
            },
    {
        match self {
            RecordError::HeaderExceedsBuffer => "Windows directory record header exceeds its buffer",
            RecordError::OddNameLength => "Windows directory record has an odd UTF-16 byte length",
            RecordError::FilenameExceedsBuffer => "Windows directory filename exceeds its buffer",
            RecordError::OffsetExceedsBuffer => "Windows directory record offset exceeds its buffer",
        }
    }
}

/// An entry decoded from one enumeration record.
#[derive(Clone, Debug)]
pub struct RecordEntry {
    /// The entry name in UTF-16.
    pub file_name: Vec<u16>,
    /// The entry type.
    pub file_type: FileType,
    /// The entry metadata.
    pub metadata: Metadata,
}

/// The UTF-16 code units stored little-endian in `s` from `start` on.
pub open spec fn utf16_units(s: Seq<u8>, start: int, count: nat) -> Seq<u16> {
    Seq::new(count, |i: int| (s[start + 2 * i] + s[start + 2 * i + 1] * 0x100) as u16)
}

/// The non-negative part of a signed 64-bit field.
pub open spec fn clamp_non_negative(v: int) -> int {
    if v < 0 { 0 } else { v }
}

/// Whether `e` holds the values of the record at `offset` with volume `volume_serial`.
pub open spec fn entry_decodes(s: Seq<u8>, offset: int, volume_serial: u64, e: RecordEntry) -> bool {
    let name_length = le_u32(s, offset + 60);
    let file_id = le_u64(s, offset + 96);
    &&& e.file_name@ == utf16_units(s, offset + HEADER_SIZE, (name_length / 2) as nat)
    &&& e.file_type.is_symlink == ((le_u32(s, offset + 56) as u32) & FILE_ATTRIBUTE_REPARSE_POINT != 0
            && (le_u32(s, offset + 64) as u32) & NAME_SURROGATE_BIT != 0)
    &&& e.file_type.is_dir == (!e.file_type.is_symlink && (le_u32(s, offset + 56) as u32) & FILE_ATTRIBUTE_DIRECTORY != 0)
    &&& e.metadata.len as int == clamp_non_negative(signed64(le_u64(s, offset + 40)))
    &&& e.metadata.allocated_size as int == clamp_non_negative(signed64(le_u64(s, offset + 48)))
    &&& e.metadata.modified.wf()
    &&& e.metadata.modified.total_nanos() == (clamp_non_negative(signed64(le_u64(s, offset + 24))) - WINDOWS_TO_UNIX_TICKS) * 100
    &&& e.metadata.volume_serial == volume_serial
    &&& e.metadata.file_id == if file_id == 0 { None } else { Some(file_id as u64) }
}

fn read_u32_at(s: &[u8], i: usize) -> (v: u32)
    requires
        i + 4 <= s@.len(),
    ensures
        v as int == le_u32(s@, i as int),
{
    s[i] as u32 + s[i + 1] as u32 * 0x100 + s[i + 2] as u32 * 0x1_0000 + s[i + 3] as u32 * 0x100_0000
}

fn read_u64_at(s: &[u8], i: usize) -> (v: u64)
    requires
        i + 8 <= s@.len(),
    ensures
        v as int == le_u64(s@, i as int),
{
    let n = s.len();
    assert(i + 8 <= n);
    read_u32_at(s, i) as u64 + read_u32_at(s, i + 4) as u64 * 0x1_0000_0000
}

fn read_non_negative_at(s: &[u8], i: usize) -> (v: u64)
    requires
        i + 8 <= s@.len(),
    ensures
        v as int == clamp_non_negative(signed64(le_u64(s@, i as int))),
        v <= i64::MAX,
{
    let raw = read_u64_at(s, i);
    if raw < 0x8000_0000_0000_0000 { raw } else { 0 }
}

/// Decode the record at `offset` of an enumeration buffer, and find where the next one starts.
pub fn entry_at(buffer: &[u8], offset: usize, volume_serial: u64) -> (r: Result<(RecordEntry, Option<usize>), RecordError>)
    ensures
        ({
            let s = buffer@;
            let len = s.len() as int;
            let header_fits = len >= HEADER_SIZE && offset <= len - HEADER_SIZE;
            let name_length = le_u32(s, offset + 60);
            let next = le_u32(s, offset as int);
            &&& !header_fits ==> r == Err::<(RecordEntry, Option<usize>), _>(RecordError::HeaderExceedsBuffer)
            &&& header_fits && name_length % 2 != 0 ==> r == Err::<(RecordEntry, Option<usize>), _>(RecordError::OddNameLength)
            &&& header_fits && name_length % 2 == 0 && offset + HEADER_SIZE + name_length > len
                ==> r == Err::<(RecordEntry, Option<usize>), _>(RecordError::FilenameExceedsBuffer)
            &&& header_fits && name_length % 2 == 0 && offset + HEADER_SIZE + name_length <= len
                && next != 0 && offset + next > len - HEADER_SIZE
                ==> r == Err::<(RecordEntry, Option<usize>), _>(RecordError::OffsetExceedsBuffer)
            &&& header_fits && name_length % 2 == 0 && offset + HEADER_SIZE + name_length <= len
                && (next == 0 || offset + next <= len - HEADER_SIZE) ==> {
                    &&& r is Ok
                    &&& entry_decodes(s, offset as int, volume_serial, r->Ok_0.0)
                    &&& r->Ok_0.1 == if next == 0 { None } else { Some((offset + next) as usize) }
                }
        }),
{
    if buffer.len() < HEADER_SIZE || offset > buffer.len() - HEADER_SIZE {
        return Err(RecordError::HeaderExceedsBuffer);
    }
    let name_length = read_u32_at(buffer, offset + 60);
    if name_length % 2 != 0 {
        return Err(RecordError::OddNameLength);
    }
    let name_len = (name_length / 2) as usize;
    let start = offset + HEADER_SIZE;
    if name_length as usize > buffer.len() - start {
        return Err(RecordError::FilenameExceedsBuffer);
    }
    let mut file_name: Vec<u16> = Vec::new();
    let mut i: usize = 0;
    while i < name_len
        invariant
            i <= name_len,
            name_len as int == name_length as int / 2,
            start + 2 * name_len <= buffer@.len(),
            buffer@.len() == buffer.len(),
            file_name@ == utf16_units(buffer@, start as int, i as nat),
        decreases name_len - i,
    {
        let unit = buffer[start + 2 * i] as u16 + buffer[start + 2 * i + 1] as u16 * 0x100;
        file_name.push(unit);
        i = i + 1;
        assert(file_name@ =~= utf16_units(buffer@, start as int, i as nat));
    }
    let next_entry = read_u32_at(buffer, offset);
    let next_offset = if next_entry == 0 {
        None
    } else {
        if next_entry as usize > buffer.len() - HEADER_SIZE - offset {
            return Err(RecordError::OffsetExceedsBuffer);
        }
        Some(offset + next_entry as usize)
    };
    let attributes = read_u32_at(buffer, offset + 56);
    let reparse_tag = read_u32_at(buffer, offset + 64);
    let file_type = FileType::from_attributes(attributes, reparse_tag);
    let file_id = read_u64_at(buffer, offset + 96);
    let metadata = Metadata {
        len: read_non_negative_at(buffer, offset + 40),
        allocated_size: read_non_negative_at(buffer, offset + 48),
        modified: filetime_to_timestamp(read_non_negative_at(buffer, offset + 24)),
        volume_serial,
        file_id: if file_id == 0 { None } else { Some(file_id) },
    };
    Ok((RecordEntry { file_name, file_type, metadata }, next_offset))
}

/// The path separator.
pub const SEP: u16 = 0x5c;
/// The alternative path separator.
pub const ALT_SEP: u16 = 0x2f;

/// Whether `s` starts with the code units of `prefix`.
pub open spec fn starts_with(s: Seq<u16>, prefix: Seq<u16>) -> bool {
    s.len() >= prefix.len() && s.subrange(0, prefix.len() as int) == prefix
}

/// `\\?\`
pub open spec fn verbatim_prefix() -> Seq<u16> {
    seq![0x5c, 0x5c, 0x3f, 0x5c]
}

/// `\??\`
pub open spec fn nt_prefix() -> Seq<u16> {
    seq![0x5c, 0x3f, 0x3f, 0x5c]
}

/// `\\.\`
pub open spec fn device_prefix() -> Seq<u16> {
    seq![0x5c, 0x5c, 0x2e, 0x5c]
}

/// `\\?\UNC\`
pub open spec fn verbatim_unc_prefix() -> Seq<u16> {
    seq![0x5c, 0x5c, 0x3f, 0x5c, 0x55, 0x4e, 0x43, 0x5c]
}

/// `path` with every `/` replaced by `\`.
pub open spec fn backslashed(path: Seq<u16>) -> Seq<u16> {
    path.map_values(|u: u16| if u == ALT_SEP { SEP } else { u })
}

/// The NUL-terminated verbatim form of a path: paths that already are verbatim or NT paths are
/// kept; otherwise the absolute form, with forward slashes turned into backslashes, gets the
/// verbatim prefix, device paths and UNC shares being rewritten into their verbatim forms.
pub open spec fn verbatim_path(encoded: Seq<u16>, absolute: Seq<u16>) -> Seq<u16> {
    if starts_with(encoded, verbatim_prefix()) || starts_with(encoded, nt_prefix()) {
        encoded.push(0)
    } else {
        let b = backslashed(absolute);
        if starts_with(b, device_prefix()) {
            (verbatim_prefix() + b.skip(4)).push(0)
        } else if starts_with(b, seq![SEP, SEP]) {
            (verbatim_unc_prefix() + b.skip(2)).push(0)
        } else {
            (verbatim_prefix() + b).push(0)
        }
    }
}

fn has_prefix(s: &[u16], prefix: &[u16]) -> (r: bool)
    ensures
        r == starts_with(s@, prefix@),
{
    if s.len() < prefix.len() {
        return false;
    }
    let mut i: usize = 0;
    while i < prefix.len()
        invariant
            i <= prefix@.len() <= s@.len(),
            forall|j: int| 0 <= j < i ==> s@[j] == prefix@[j],
        decreases prefix@.len() - i,
    {
        if s[i] != prefix[i] {
            assert(s@.subrange(0, prefix@.len() as int)[i as int] != prefix@[i as int]);
            return false;
        }
        i = i + 1;
    }
    assert(s@.subrange(0, prefix@.len() as int) =~= prefix@);
    true
}

/// Build the NUL-terminated verbatim path that opens `encoded`, whose absolute form, with
/// `.` and `..` resolved, is `absolute`.
pub fn absolute_verbatim_path(encoded: &[u16], absolute: &[u16]) -> (r: Vec<u16>)
    ensures
        r@ == verbatim_path(encoded@, absolute@),
{
    let verbatim: [u16; 4] = [SEP, SEP, 0x3f, SEP];
    let nt: [u16; 4] = [SEP, 0x3f, 0x3f, SEP];
    let device: [u16; 4] = [SEP, SEP, 0x2e, SEP];
    let unc: [u16; 2] = [SEP, SEP];
    assert(verbatim@ =~= verbatim_prefix());
    assert(nt@ =~= nt_prefix());
    assert(device@ =~= device_prefix());
    assert(unc@ =~= seq![SEP, SEP]);
    let mut result: Vec<u16> = Vec::new();
    if has_prefix(encoded, verbatim.as_slice()) || has_prefix(encoded, nt.as_slice()) {
        let mut i: usize = 0;
        while i < encoded.len()
            invariant
                i <= encoded@.len(),
                result@ == encoded@.subrange(0, i as int),
            decreases encoded@.len() - i,
        {
            result.push(encoded[i]);
            i = i + 1;
        }
        assert(result@ =~= encoded@);
        result.push(0);
        return result;
    }
    let mut b: Vec<u16> = Vec::new();
    let mut i: usize = 0;
    while i < absolute.len()
        invariant
            i <= absolute@.len(),
            b@ == backslashed(absolute@.subrange(0, i as int)),
        decreases absolute@.len() - i,
    {
        b.push(if absolute[i] == ALT_SEP { SEP } else { absolute[i] });
        i = i + 1;
        assert(b@ =~= backslashed(absolute@.subrange(0, i as int)));
    }
    assert(absolute@.subrange(0, absolute@.len() as int) =~= absolute@);
    let skip: usize = if has_prefix(b.as_slice(), device.as_slice()) {
        result.push(SEP);
        result.push(SEP);
        result.push(0x3f);
        result.push(SEP);
        4
    } else if has_prefix(b.as_slice(), unc.as_slice()) {
        result.push(SEP);
        result.push(SEP);
        result.push(0x3f);
        result.push(SEP);
        result.push(0x55);
        result.push(0x4e);
        result.push(0x43);
        result.push(SEP);
        2
    } else {
        result.push(SEP);
        result.push(SEP);
        result.push(0x3f);
        result.push(SEP);
        0
    };
    let ghost prefix = result@;
    let mut j: usize = skip;
    while j < b.len()
        invariant
            skip <= j <= b@.len(),
            result@ == prefix + b@.subrange(skip as int, j as int),
        decreases b@.len() - j,
    {
        result.push(b[j]);
        j = j + 1;
        assert(result@ =~= prefix + b@.subrange(skip as int, j as int));
    }
    assert(b@.subrange(skip as int, b@.len() as int) =~= b@.skip(skip as int));
    assert(prefix + b@.skip(0) =~= prefix + b@);
    result.push(0);
    result
}

/// A component of a Windows path, as `std::path::Path::components` yields it.
#[derive(Clone, Debug)]
pub enum PathComponent {
    /// A drive, UNC share, device or verbatim prefix, as written, such as `C:`.
    Prefix(Vec<u16>),
    /// The root separator.
    RootDir,
    /// `.`
    CurDir,
    /// `..`
    ParentDir,
    /// A name.
    Normal(Vec<u16>),
}

/// A path component as values.
pub enum PartView {
    /// A prefix, as written.
    Prefix(Seq<u16>),
    /// The root separator.
    RootDir,
    /// `.`
    CurDir,
    /// `..`
    ParentDir,
    /// A name.
    Normal(Seq<u16>),
}

/// `c` as values.
pub open spec fn part_view(c: PathComponent) -> PartView {
    match c {
        PathComponent::Prefix(p) => PartView::Prefix(p@),
        PathComponent::RootDir => PartView::RootDir,
        PathComponent::CurDir => PartView::CurDir,
        PathComponent::ParentDir => PartView::ParentDir,
        PathComponent::Normal(n) => PartView::Normal(n@),
    }
}

/// `cs` as values.
pub open spec fn parts_view(cs: Seq<PathComponent>) -> Seq<PartView> {
    cs.map_values(|c: PathComponent| part_view(c))
}

/// Whether a path with components `cs` is absolute: it has a prefix and a root.
pub open spec fn is_absolute_form(cs: Seq<PartView>) -> bool {
    cs.len() >= 2 && cs[0] is Prefix && cs[1] is RootDir
}

/// `path` joined onto `cwd`: a path with a prefix replaces `cwd`, one with a root but no prefix
/// keeps only `cwd`'s prefix, and any other is appended.
pub open spec fn joined(cwd: Seq<PartView>, path: Seq<PartView>) -> Seq<PartView> {
    if path.len() > 0 && path[0] is Prefix {
        path
    } else if path.len() > 0 && path[0] is RootDir {
        if cwd.len() > 0 && cwd[0] is Prefix { seq![cwd[0]] + path } else { path }
    } else {
        cwd + path
    }
}

/// What taking `c` onto the already resolved components `acc` leaves: `.` is dropped, `..`
/// removes the last name where there is one, anything else is added.
pub open spec fn resolve_step(acc: Seq<PartView>, c: PartView) -> Seq<PartView> {
    match c {
        PartView::CurDir => acc,
        PartView::ParentDir => if acc.len() > 0 && acc.last() is Normal { acc.drop_last() } else { acc },
        _ => acc.push(c),
    }
}

/// `cs` with `.` and `..` resolved lexically, from first to last.
pub open spec fn resolved(cs: Seq<PartView>) -> Seq<PartView>
    decreases cs.len(),
{
    if cs.len() == 0 { Seq::empty() } else { resolve_step(resolved(cs.drop_last()), cs.last()) }
}

/// The text of component `i` of `cs` within the whole path: a name that follows a name is
/// separated from it by a backslash.
pub open spec fn component_text(cs: Seq<PartView>, i: int) -> Seq<u16> {
    match cs[i] {
        PartView::Prefix(p) => p,
        PartView::RootDir => seq![SEP],
        PartView::CurDir => seq![0x2eu16],
        PartView::ParentDir => seq![0x2eu16, 0x2eu16],
        PartView::Normal(n) => if i > 0 && cs[i - 1] is Normal { seq![SEP] + n } else { n },
    }
}

/// The text of the path with components `cs`.
pub open spec fn rendered(cs: Seq<PartView>) -> Seq<u16>
    decreases cs.len(),
{
    if cs.len() == 0 { Seq::empty() } else { rendered(cs.drop_last()) + component_text(cs, cs.len() - 1) }
}

/// The absolute form of the path with components `path` and the current directory `cwd`, names
/// kept as written and `.` and `..` resolved lexically; `None` where joining onto `cwd` gives no
/// absolute path either, which only the system can resolve.
pub open spec fn absolute_form(path: Seq<PartView>, cwd: Seq<PartView>) -> Option<Seq<u16>> {
    if is_absolute_form(path) {
        Some(rendered(resolved(path)))
    } else if is_absolute_form(joined(cwd, path)) {
        Some(rendered(resolved(joined(cwd, path))))
    } else {
        None
    }
}

fn copy_units(v: &Vec<u16>) -> (r: Vec<u16>)
    ensures
        r@ == v@,
{
    let mut out: Vec<u16> = Vec::new();
    let mut i: usize = 0;
    while i < v.len()
        invariant
            i <= v@.len(),
            out@ == v@.subrange(0, i as int),
        decreases v@.len() - i,
    {
        out.push(v[i]);
        i = i + 1;
        assert(out@ =~= v@.subrange(0, i as int));
    }
    assert(v@.subrange(0, v@.len() as int) =~= v@);
    out
}

fn copy_component(c: &PathComponent) -> (r: PathComponent)
    ensures
        part_view(r) == part_view(*c),
{
    match c {
        PathComponent::Prefix(p) => PathComponent::Prefix(copy_units(p)),
        PathComponent::RootDir => PathComponent::RootDir,
        PathComponent::CurDir => PathComponent::CurDir,
        PathComponent::ParentDir => PathComponent::ParentDir,
        PathComponent::Normal(n) => PathComponent::Normal(copy_units(n)),
    }
}

fn append_components(out: &mut Vec<PathComponent>, cs: &Vec<PathComponent>, from: usize)
    requires
        from <= cs@.len(),
    ensures
        parts_view(final(out)@) == parts_view(old(out)@) + parts_view(cs@).skip(from as int),
{
    let ghost start = parts_view(out@);
    let mut i: usize = from;
    while i < cs.len()
        invariant
            from <= i <= cs@.len(),
            parts_view(out@) == start + parts_view(cs@).subrange(from as int, i as int),
        decreases cs@.len() - i,
    {
        let ghost before = out@;
        let c = copy_component(&cs[i]);
        out.push(c);
        proof {
            assert(out@ == before.push(c));
            assert(parts_view(out@) =~= parts_view(before).push(part_view(c)));
        }
        i = i + 1;
        assert(parts_view(out@) =~= start + parts_view(cs@).subrange(from as int, i as int));
    }
    assert(parts_view(cs@).subrange(from as int, cs@.len() as int) =~= parts_view(cs@).skip(from as int));
}

fn is_prefix_component(c: &PathComponent) -> (r: bool)
    ensures
        r == (part_view(*c) is Prefix),
{
    match c {
        PathComponent::Prefix(_) => true,
        _ => false,
    }
}

fn is_root_component(c: &PathComponent) -> (r: bool)
    ensures
        r == (part_view(*c) is RootDir),
{
    match c {
        PathComponent::RootDir => true,
        _ => false,
    }
}

fn is_normal_component(c: &PathComponent) -> (r: bool)
    ensures
        r == (part_view(*c) is Normal),
{
    match c {
        PathComponent::Normal(_) => true,
        _ => false,
    }
}

/// `path` joined onto `cwd`; see [`joined`].
fn join_components(cwd: &Vec<PathComponent>, path: &Vec<PathComponent>) -> (r: Vec<PathComponent>)
    ensures
        parts_view(r@) == joined(parts_view(cwd@), parts_view(path@)),
{
    let mut out: Vec<PathComponent> = Vec::new();
    assert(parts_view(out@) =~= Seq::<PartView>::empty());
    if path.len() > 0 && is_prefix_component(&path[0]) {
        append_components(&mut out, path, 0);
    } else if path.len() > 0 && is_root_component(&path[0]) {
        if cwd.len() > 0 && is_prefix_component(&cwd[0]) {
            let c = copy_component(&cwd[0]);
            out.push(c);
            assert(parts_view(out@) =~= seq![parts_view(cwd@)[0]]);
        }
        append_components(&mut out, path, 0);
    } else {
        append_components(&mut out, cwd, 0);
        append_components(&mut out, path, 0);
    }
    assert(parts_view(path@).skip(0) =~= parts_view(path@));
    assert(parts_view(cwd@).skip(0) =~= parts_view(cwd@));
    out
}

/// `cs` with `.` and `..` resolved; see [`resolved`].
fn resolve_components(cs: &Vec<PathComponent>) -> (r: Vec<PathComponent>)
    ensures
        parts_view(r@) == resolved(parts_view(cs@)),
{
    let mut out: Vec<PathComponent> = Vec::new();
    let mut i: usize = 0;
    assert(parts_view(out@) =~= resolved(parts_view(cs@).take(0)));
    while i < cs.len()
        invariant
            i <= cs@.len(),
            parts_view(out@) == resolved(parts_view(cs@).take(i as int)),
        decreases cs@.len() - i,
    {
        let ghost before = parts_view(out@);
        assert(parts_view(cs@).take(i + 1).drop_last() =~= parts_view(cs@).take(i as int));
        assert(parts_view(cs@).take(i + 1).last() == part_view(cs@[i as int]));
        match &cs[i] {
            PathComponent::CurDir => {},
            PathComponent::ParentDir => {
                if out.len() > 0 && is_normal_component(&out[out.len() - 1]) {
                    let ghost prior = out@;
                    out.pop();
                    assert(parts_view(out@) =~= before.drop_last());
                }
            },
            c => {
                let ghost prior = out@;
                let copy = copy_component(c);
                out.push(copy);
                assert(out@ == prior.push(copy));
                assert(parts_view(out@) =~= before.push(part_view(copy)));
            },
        }
        i = i + 1;
    }
    assert(parts_view(cs@).take(cs@.len() as int) =~= parts_view(cs@));
    out
}

fn append_units(out: &mut Vec<u16>, units: &Vec<u16>)
    ensures
        final(out)@ == old(out)@ + units@,
{
    let ghost start = out@;
    let mut i: usize = 0;
    while i < units.len()
        invariant
            i <= units@.len(),
            out@ == start + units@.subrange(0, i as int),
        decreases units@.len() - i,
    {
        out.push(units[i]);
        i = i + 1;
        assert(out@ =~= start + units@.subrange(0, i as int));
    }
    assert(units@.subrange(0, units@.len() as int) =~= units@);
}

/// The text of the path with components `cs`; see [`rendered`].
fn render_components(cs: &Vec<PathComponent>) -> (r: Vec<u16>)
    ensures
        r@ == rendered(parts_view(cs@)),
{
    let ghost view = parts_view(cs@);
    let mut out: Vec<u16> = Vec::new();
    let mut i: usize = 0;
    assert(view.take(0) =~= Seq::<PartView>::empty());
    while i < cs.len()
        invariant
            i <= cs@.len(),
            view == parts_view(cs@),
            out@ == rendered(view.take(i as int)),
        decreases cs@.len() - i,
    {
        let ghost before = out@;
        let ghost t = view.take(i + 1);
        assert(t.drop_last() =~= view.take(i as int));
        assert forall|k: int| 0 <= k <= i implies #[trigger] t[k] == view[k] by {}
        assert(component_text(t, i as int) == component_text(view, i as int));
        match &cs[i] {
            PathComponent::Prefix(p) => append_units(&mut out, p),
            PathComponent::RootDir => out.push(SEP),
            PathComponent::CurDir => out.push(0x2e),
            PathComponent::ParentDir => {
                out.push(0x2e);
                out.push(0x2e);
            },
            PathComponent::Normal(n) => {
                if i > 0 && is_normal_component(&cs[i - 1]) {
                    out.push(SEP);
                }
                append_units(&mut out, n);
            },
        }
        assert(out@ =~= before + component_text(view, i as int));
        i = i + 1;
    }
    assert(view.take(cs@.len() as int) =~= view);
    out
}

fn is_absolute_components(cs: &Vec<PathComponent>) -> (r: bool)
    ensures
        r == is_absolute_form(parts_view(cs@)),
{
    cs.len() >= 2 && is_prefix_component(&cs[0]) && is_root_component(&cs[1])
}

/// The absolute form of the path with components `path`, the current directory having the
/// components `cwd`; see [`absolute_form`].
pub fn absolute_without_name_normalization(path: &Vec<PathComponent>, cwd: &Vec<PathComponent>) -> (r: Option<Vec<u16>>)
    ensures
        match r {
            Some(v) => absolute_form(parts_view(path@), parts_view(cwd@)) == Some(v@),
            None => absolute_form(parts_view(path@), parts_view(cwd@)) is None,
        },
{
    if is_absolute_components(path) {
        let resolved = resolve_components(path);
        return Some(render_components(&resolved));
    }
    let joined = join_components(cwd, path);
    if is_absolute_components(&joined) {
        let resolved = resolve_components(&joined);
        Some(render_components(&resolved))
    } else {
        None
    }
}

/// The NUL-terminated verbatim path that opens the path written `encoded`, whose components
/// are `path`, the current directory having the components `cwd`: verbatim and NT paths as they
/// are, others by their absolute form (see [`absolute_form`] and [`verbatim_path`]); `None`
/// where only the system can make the path absolute.
pub fn verbatim_path_for(encoded: &[u16], path: &Vec<PathComponent>, cwd: &Vec<PathComponent>) -> (r: Option<Vec<u16>>)
    ensures
        match r {
            Some(v) => v@ == if starts_with(encoded@, verbatim_prefix()) || starts_with(encoded@, nt_prefix()) {
                encoded@.push(0)
            } else {
                verbatim_path(encoded@, absolute_form(parts_view(path@), parts_view(cwd@))->0)
            },
            None => !(starts_with(encoded@, verbatim_prefix()) || starts_with(encoded@, nt_prefix()))
                && absolute_form(parts_view(path@), parts_view(cwd@)) is None,
        },
{
    let verbatim: [u16; 4] = [SEP, SEP, 0x3f, SEP];
    let nt: [u16; 4] = [SEP, 0x3f, 0x3f, SEP];
    assert(verbatim@ =~= verbatim_prefix());
    assert(nt@ =~= nt_prefix());
    if has_prefix(encoded, verbatim.as_slice()) || has_prefix(encoded, nt.as_slice()) {
        let empty: [u16; 0] = [];
        return Some(absolute_verbatim_path(encoded, empty.as_slice()));
    }
    match absolute_without_name_normalization(path, cwd) {
        Some(absolute) => Some(absolute_verbatim_path(encoded, absolute.as_slice())),
        None => None,
    }
}

/// Windows' `ERROR_NO_MORE_FILES`.
pub const ERROR_NO_MORE_FILES: u32 = 18;
/// Windows' `ERROR_HANDLE_EOF`.
pub const ERROR_HANDLE_EOF: u32 = 38;

/// What a directory reader does after one call of `GetFileInformationByHandleEx`.
#[derive(Clone, Copy, Debug, PartialEq, Eq, Structural)]
pub enum RefillOutcome {
    /// The buffer holds records, the first at offset zero.
    Records,
    /// The directory has no more entries.
    Exhausted,
    /// Enumeration failed with the call's error.
    Failed,
}

/// The outcome of a call that `succeeded` or else failed with `error`: the end of the listing
/// shows as one of two errors. The reader ends unless records arrived.
pub fn refill_outcome(succeeded: bool, error: Option<u32>) -> (r: RefillOutcome)
    ensures
        r == if succeeded {
            RefillOutcome::Records
        } else if error == Some(ERROR_NO_MORE_FILES) || error == Some(ERROR_HANDLE_EOF) {
            RefillOutcome::Exhausted
        } else {
            RefillOutcome::Failed
        },
{
    if succeeded {
        RefillOutcome::Records
    } else if error == Some(ERROR_NO_MORE_FILES) || error == Some(ERROR_HANDLE_EOF) {
        RefillOutcome::Exhausted
    } else {
        RefillOutcome::Failed
    }
}

} // verus!
