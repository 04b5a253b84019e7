//! Aggregation of sizes per input root: what each walked entry adds, and when and in which order
//! the roots are reported.
use vstd::prelude::*;
use vstd::string::StringExecFns;
use crate::format::{ByteFormat, byte_display, content_width, spaces};
use crate::inodefilter::{InodeFilter, add_directory_link, add_link, add_link_id, pair_key};
use crate::numfmt::{decimal, decimal_string};

verus! {

/// The terminal sequence that erases the current line and returns to its start, which clears a
/// progress line.
pub const CLEAR_CURRENT_LINE: &'static str = "\x1b[2K\r";

/// Information gathered during a filesystem walk.
#[derive(Clone, Copy, Debug, PartialEq, Eq, Structural)]
pub struct WalkResult {
    /// The number of I/O errors encountered, when reading directories or metadata.
    pub num_errors: u64,
}

impl WalkResult {
    /// The process exit code: `0` without I/O errors, `1` otherwise.
    pub fn to_exit_code(&self) -> (r: i32)
        ensures
            r == (if self.num_errors > 0 { 1i32 } else { 0i32 }),
    {
        if self.num_errors > 0 { 1 } else { 0 }
    }
}

/// Statistics obtained during a filesystem walk.
#[derive(Clone, Copy, Debug, PartialEq, Eq, Structural)]
pub struct Statistics {
    /// The number of entries seen during traversal.
    pub entries_traversed: u64,
    /// The size of the smallest file encountered, in bytes.
    pub smallest_file_in_bytes: u128,
    /// The size of the largest file encountered, in bytes.
    pub largest_file_in_bytes: u128,
}

/// Accumulated output state of one input root, kept until it can be reported in input order.
#[derive(Clone, Copy, Debug, PartialEq, Eq, Structural)]
pub struct Aggregate {
    /// The sum of the counted entries' apparent or allocated sizes.
    pub bytes: u128,
    /// The number of root, entry, metadata or size errors encountered.
    pub errors: u64,
    /// Whether the root is a file, which is printed without the directory colour.
    pub is_file: bool,
}

/// How the platform tells the hard links of an entry apart.
#[derive(Clone, Copy, Debug)]
pub enum Links {
    /// On Unix, but for directories on Darwin: the entry's number of hard links, counted by
    /// device and inode.
    Count(u64),
    /// A directory on Darwin: the link count bulk enumeration reported, and the count `stat`
    /// reports for the same device and inode where it was looked up for a revisit (see
    /// [`InodeFilter::needs_link_resolution`]).
    DarwinDirectory { link_count: u64, actual_links: Option<u64> },
    /// On Windows: the volume and file identifier, where the filesystem provides one.
    HardLinkId(Option<(u64, u64)>),
    /// Elsewhere: no links are told apart, and every entry counts.
    Unknown,
}

/// The metadata of a walked entry that aggregation reads.
#[derive(Clone, Copy, Debug)]
pub struct EntryMetadata {
    /// The apparent size in bytes.
    pub len: u64,
    /// The size on disk in bytes, or `None` where querying it failed.
    pub size_on_disk: Option<u64>,
    /// The device the entry lives on.
    pub device: u64,
    /// The entry's inode on its device.
    pub inode: u64,
    /// What tells its hard links apart.
    pub links: Links,
}

/// A walked entry as aggregation sees it.
#[derive(Clone, Copy, Debug)]
pub struct EntryOutcome {
    /// The depth below its root; the root itself is at depth zero.
    pub depth: usize,
    /// Whether the entry is a file, or a symbolic link to one.
    pub is_file: bool,
    /// The entry's metadata, or `None` where reading it failed.
    pub metadata: Option<EntryMetadata>,
}

/// Which sizes are counted.
#[derive(Clone, Copy, Debug, PartialEq, Eq, Structural)]
pub struct CountingOptions {
    /// Count every hard link, not only the first one seen.
    pub count_hard_links: bool,
    /// Count apparent sizes rather than sizes on disk.
    pub apparent_size: bool,
    /// Count entries on devices other than their root's.
    pub cross_filesystems: bool,
}

/// The link filter after registering the links of an entry with metadata `m`, and whether the
/// entry is to be counted.
pub open spec fn register_links(links: Map<u128, u64>, m: EntryMetadata) -> (Map<u128, u64>, bool) {
    match m.links {
        Links::Count(nlinks) => add_link(links, pair_key((m.device, m.inode)), nlinks),
        Links::DarwinDirectory { link_count, actual_links } => add_directory_link(links, pair_key((m.device, m.inode)), link_count, actual_links),
        Links::HardLinkId(id) => add_link_id(links, id),
        Links::Unknown => (links, true),
    }
}

/// What an entry of a root on `root_device` contributes: the link filter afterwards, the bytes
/// it adds and the errors it adds. Hard links are registered only where they are not all
/// counted, and entries on other devices add nothing unless filesystems may be crossed.
pub open spec fn entry_effect(options: CountingOptions, root_device: u64, links: Map<u128, u64>, entry: EntryOutcome) -> (Map<u128, u64>, u128, u64) {
    match entry.metadata {
        None => (links, 0, 1),
        Some(m) => {
            let registered = if options.count_hard_links { (links, true) } else { register_links(links, m) };
            let counted = registered.1 && (options.cross_filesystems || m.device == root_device);
            if !counted {
                (registered.0, 0, 0)
            } else if options.apparent_size {
                (registered.0, m.len as u128, 0)
            } else {
                match m.size_on_disk {
                    Some(size) => (registered.0, size as u128, 0),
                    None => (registered.0, 0, 1),
                }
            }
        },
    }
}

/// The first root at or after `from` that has not completed, or the number of roots.
pub open spec fn first_incomplete(completed: Seq<bool>, from: int) -> int
    decreases completed.len() - from,
{
    if from >= completed.len() || !completed[from] { from } else { first_incomplete(completed, from + 1) }
}

proof fn lemma_first_incomplete(completed: Seq<bool>, from: int)
    requires
        0 <= from <= completed.len(),
    ensures
        from <= first_incomplete(completed, from) <= completed.len(),
        forall|i: int| from <= i < first_incomplete(completed, from) ==> completed[i],
        first_incomplete(completed, from) < completed.len() ==> !completed[first_incomplete(completed, from)],
    decreases completed.len() - from,
{
    if from < completed.len() && completed[from] {
        lemma_first_incomplete(completed, from + 1);
    }
}

/// Once every root has completed, the roots not yet reported are all the remaining ones.
pub proof fn law_all_roots_reported_once_complete(completed: Seq<bool>, from: int)
    requires
        0 <= from <= completed.len(),
        forall|i: int| 0 <= i < completed.len() ==> completed[i],
    ensures
        first_incomplete(completed, from) == completed.len(),
    decreases completed.len() - from,
{
    if from < completed.len() {
        law_all_roots_reported_once_complete(completed, from + 1);
    }
}

/// The sum of the bytes of `aggregates`.
pub open spec fn total_bytes(aggregates: Seq<Aggregate>) -> int
    decreases aggregates.len(),
{
    if aggregates.len() == 0 { 0 } else { total_bytes(aggregates.drop_last()) + aggregates.last().bytes }
}

/// The sum of the errors of `aggregates`.
pub open spec fn total_errors(aggregates: Seq<Aggregate>) -> int
    decreases aggregates.len(),
{
    if aggregates.len() == 0 { 0 } else { total_errors(aggregates.drop_last()) + aggregates.last().errors }
}

/// The size column of a report line: the size right-aligned to the format's content width.
pub open spec fn size_column(format: ByteFormat, bytes: u128) -> Seq<char> {
    spaces(content_width(format) - byte_display(format, bytes).len()) + byte_display(format, bytes)
}

/// The note of I/O errors that ends a report line; empty without errors.
pub open spec fn error_note(errors: u64) -> Seq<char> {
    if errors == 0 {
        Seq::empty()
    } else {
        "  <"@ + decimal(errors as nat) + " IO Error"@ + (if errors > 1 { "s"@ } else { Seq::empty() }) + ">"@
    }
}

/// The size column of a report line; see [`size_column`].
pub fn size_text(format: ByteFormat, bytes: u128) -> (r: String)
    requires
        bytes <= u64::MAX,
    ensures
        r@ == size_column(format, bytes),
{
    let shown = format.display(bytes);
    let n = shown.as_str().unicode_len();
    let width = format.width();
    let mut r = String::new();
    let mut k: usize = n;
    while k < width
        invariant
            n <= k,
            k <= if width > n { width } else { n },
            r@ == spaces(k - n),
        decreases width - k,
    {
        r.push(' ');
        k = k + 1;
        assert(r@ =~= spaces(k - n));
    }
    assert(spaces(k - n) =~= spaces(width - n));
    r.append(shown.as_str());
    r
}

/// The note of I/O errors that ends a report line; see [`error_note`].
pub fn error_text(errors: u64) -> (r: String)
    ensures
        r@ == error_note(errors),
{
    if errors == 0 {
        return String::new();
    }
    let mut r = String::from_str("  <");
    let count = decimal_string(errors as u128);
    r.append(count.as_str());
    r.append(" IO Error");
    if errors > 1 {
        r.append("s");
    }
    r.append(">");
    r
}

/// The state of aggregating several roots whose entries arrive in any order.
pub struct Aggregation {
    /// The path printed for each root, in input order.
    pub paths: Vec<String>,
    /// One aggregate per input root, in input order.
    pub aggregates: Vec<Aggregate>,
    /// The device of each root, which entries must share unless filesystems may be crossed.
    pub device_ids: Vec<u64>,
    /// Which roots are finished.
    pub completed: Vec<bool>,
    /// The first root not yet reported.
    pub next_output: usize,
    /// Whether a progress line occupies the last line of the terminal.
    pub progress_visible: bool,
    /// Statistics over all entries.
    pub stats: Statistics,
    /// The hard links seen so far, shared by all roots.
    pub inodes: InodeFilter,
    /// Which sizes are counted.
    pub options: CountingOptions,
}

/// What reporting the completed roots asks of the terminal.
#[derive(Clone, Debug)]
pub struct Report {
    /// The roots to print now, in this order.
    pub roots: Vec<usize>,
    /// Whether the progress line must be cleared before they are printed.
    pub clear_progress: bool,
}

impl Aggregation {
    /// The aggregation is consistent: one entry per root in each vector, and every root before
    /// `next_output` completed.
    pub open spec fn wf(&self) -> bool {
        &&& self.aggregates@.len() == self.completed@.len()
        &&& self.paths@.len() == self.completed@.len()
        &&& self.device_ids@.len() == self.completed@.len()
        &&& self.next_output <= self.completed@.len()
        &&& forall|i: int| 0 <= i < self.next_output ==> self.completed@[i]
        &&& self.inodes.wf()
    }

    /// Start aggregating the roots `paths`, with nothing counted, completed or reported.
    pub fn new(paths: Vec<String>, options: CountingOptions) -> (r: Aggregation)
        ensures
            r.wf(),
            r.paths@ == paths@,
            r.aggregates@ == Seq::new(paths@.len(), |i: int| Aggregate { bytes: 0, errors: 0, is_file: false }),
            r.completed@ == Seq::new(paths@.len(), |i: int| false),
            r.device_ids@ == Seq::new(paths@.len(), |i: int| 0u64),
            r.next_output == 0,
            !r.progress_visible,
            r.stats == (Statistics { entries_traversed: 0, smallest_file_in_bytes: u128::MAX, largest_file_in_bytes: 0 }),
            r.inodes@ == Map::<u128, u64>::empty(),
            r.options == options,
    {
        let mut aggregates: Vec<Aggregate> = Vec::new();
        let mut device_ids: Vec<u64> = Vec::new();
        let mut completed: Vec<bool> = Vec::new();
        let mut i: usize = 0;
        while i < paths.len()
            invariant
                i <= paths@.len(),
                aggregates@ == Seq::new(i as nat, |j: int| Aggregate { bytes: 0, errors: 0, is_file: false }),
                completed@ == Seq::new(i as nat, |j: int| false),
                device_ids@ == Seq::new(i as nat, |j: int| 0u64),
            decreases paths@.len() - i,
        {
            aggregates.push(Aggregate { bytes: 0, errors: 0, is_file: false });
            device_ids.push(0);
            completed.push(false);
            i = i + 1;
            assert(aggregates@ =~= Seq::new(i as nat, |j: int| Aggregate { bytes: 0, errors: 0, is_file: false }));
            assert(completed@ =~= Seq::new(i as nat, |j: int| false));
            assert(device_ids@ =~= Seq::new(i as nat, |j: int| 0u64));
        }
        Aggregation {
            paths,
            aggregates,
            device_ids,
            completed,
            next_output: 0,
            progress_visible: false,
            stats: Statistics { entries_traversed: 0, smallest_file_in_bytes: u128::MAX, largest_file_in_bytes: 0 },
            inodes: InodeFilter::new(),
            options,
        }
    }

    /// Remember the device of root `root`.
    pub fn set_root_device(&mut self, root: usize, device: u64)
        requires
            old(self).wf(),
            root < old(self).device_ids@.len(),
        ensures
            final(self).wf(),
            final(self).device_ids@ == old(self).device_ids@.update(root as int, device),
            final(self).aggregates@ == old(self).aggregates@,
            final(self).completed@ == old(self).completed@,
            final(self).paths@ == old(self).paths@,
            final(self).next_output == old(self).next_output,
            final(self).stats == old(self).stats,
            final(self).inodes@ == old(self).inodes@,
    {
        self.device_ids.set(root, device);
    }

    /// Root `root` could not be started, as its device could not be read: it counts an error
    /// and is complete.
    pub fn root_failed(&mut self, root: usize)
        requires
            old(self).wf(),
            root < old(self).aggregates@.len(),
            old(self).aggregates@[root as int].errors < u64::MAX,
        ensures
            final(self).wf(),
            final(self).aggregates@ == old(self).aggregates@.update(root as int, Aggregate {
                errors: (old(self).aggregates@[root as int].errors + 1) as u64,
                ..old(self).aggregates@[root as int]
            }),
            final(self).completed@ == old(self).completed@.update(root as int, true),
            final(self).next_output == old(self).next_output,
            final(self).device_ids@ == old(self).device_ids@,
            final(self).paths@ == old(self).paths@,
            final(self).stats == old(self).stats,
            final(self).inodes@ == old(self).inodes@,
    {
        let a = self.aggregates[root];
        self.aggregates.set(root, Aggregate { errors: a.errors + 1, ..a });
        self.completed.set(root, true);
    }

    /// Root `root` has no more entries.
    pub fn root_finished(&mut self, root: usize)
        requires
            old(self).wf(),
            root < old(self).completed@.len(),
        ensures
            final(self).wf(),
            final(self).completed@ == old(self).completed@.update(root as int, true),
            final(self).aggregates@ == old(self).aggregates@,
            final(self).next_output == old(self).next_output,
            final(self).device_ids@ == old(self).device_ids@,
            final(self).paths@ == old(self).paths@,
            final(self).stats == old(self).stats,
            final(self).inodes@ == old(self).inodes@,
    {
        self.completed.set(root, true);
    }

    /// Count an entry of root `root`: the entry itself counts for the statistics, the root
    /// adds what [`entry_effect`] says, and the root's own entry tells whether it is a file.
    pub fn record_entry(&mut self, root: usize, entry: EntryOutcome)
        requires
            old(self).wf(),
            root < old(self).aggregates@.len(),
            old(self).stats.entries_traversed < u64::MAX,
            old(self).aggregates@[root as int].errors < u64::MAX,
            old(self).aggregates@[root as int].bytes + u64::MAX <= u128::MAX,
        ensures
            final(self).wf(),
            ({
                let old_a = old(self).aggregates@[root as int];
                let effect = entry_effect(old(self).options, old(self).device_ids@[root as int], old(self).inodes@, entry);
                &&& final(self).inodes@ == effect.0
                &&& final(self).aggregates@ == old(self).aggregates@.update(root as int, Aggregate {
                        bytes: (old_a.bytes + effect.1) as u128,
                        errors: (old_a.errors + effect.2) as u64,
                        is_file: if entry.depth == 0 { entry.is_file } else { old_a.is_file },
                    })
                &&& final(self).stats == (Statistics {
                        entries_traversed: (old(self).stats.entries_traversed + 1) as u64,
                        smallest_file_in_bytes: if effect.1 < old(self).stats.smallest_file_in_bytes { effect.1 } else { old(self).stats.smallest_file_in_bytes },
                        largest_file_in_bytes: if effect.1 > old(self).stats.largest_file_in_bytes { effect.1 } else { old(self).stats.largest_file_in_bytes },
                    })
            }),
            final(self).completed@ == old(self).completed@,
            final(self).next_output == old(self).next_output,
            final(self).device_ids@ == old(self).device_ids@,
            final(self).paths@ == old(self).paths@,
            final(self).options == old(self).options,
            final(self).progress_visible == old(self).progress_visible,
    {
        let a = self.aggregates[root];
        let root_device = self.device_ids[root];
        let options = self.options;
        let (size, errors): (u64, u64) = match entry.metadata {
            None => (0, 1),
            Some(m) => {
                let first = if options.count_hard_links {
                    true
                } else {
                    match m.links {
                        Links::Count(nlinks) => self.inodes.add_dev_inode((m.device, m.inode), nlinks),
                        Links::DarwinDirectory { link_count, actual_links } => self.inodes.add_directory((m.device, m.inode), link_count, actual_links),
                        Links::HardLinkId(id) => self.inodes.add_hard_link_id(id),
                        Links::Unknown => true,
                    }
                };
                if !(first && (options.cross_filesystems || m.device == root_device)) {
                    (0, 0)
                } else if options.apparent_size {
                    (m.len, 0)
                } else {
                    match m.size_on_disk {
                        Some(size) => (size, 0),
                        None => (0, 1),
                    }
                }
            },
        };
        let file_size = size as u128;
        let is_file = if entry.depth == 0 { entry.is_file } else { a.is_file };
        self.aggregates.set(root, Aggregate { bytes: a.bytes + file_size, errors: a.errors + errors, is_file });
        let stats = self.stats;
        self.stats = Statistics {
            entries_traversed: stats.entries_traversed + 1,
            smallest_file_in_bytes: if file_size < stats.smallest_file_in_bytes { file_size } else { stats.smallest_file_in_bytes },
            largest_file_in_bytes: if file_size > stats.largest_file_in_bytes { file_size } else { stats.largest_file_in_bytes },
        };
    }

    /// The completed roots that can be reported now: the contiguous run of completed roots from
    /// the first unreported one, so that later roots never overtake earlier ones. Where any is
    /// reported and a progress line is visible, the line must be cleared first.
    pub fn output_completed(&mut self) -> (r: Report)
        requires
            old(self).wf(),
        ensures
            final(self).wf(),
            final(self).next_output == first_incomplete(old(self).completed@, old(self).next_output as int),
            r.roots@ == Seq::new((final(self).next_output - old(self).next_output) as nat, |i: int| (old(self).next_output + i) as usize),
            r.clear_progress == (old(self).progress_visible && final(self).next_output > old(self).next_output),
            final(self).progress_visible == (old(self).progress_visible && !r.clear_progress),
            final(self).aggregates@ == old(self).aggregates@,
            final(self).completed@ == old(self).completed@,
            final(self).device_ids@ == old(self).device_ids@,
            final(self).paths@ == old(self).paths@,
            final(self).stats == old(self).stats,
            final(self).inodes@ == old(self).inodes@,
            final(self).options == old(self).options,
    {
        let start = self.next_output;
        let must_report = start < self.completed.len() && self.completed[start];
        let clear_progress = must_report && self.progress_visible;
        if clear_progress {
            self.progress_visible = false;
        }
        let mut roots: Vec<usize> = Vec::new();
        proof {
            lemma_first_incomplete(self.completed@, start as int);
        }
        while self.next_output < self.completed.len() && self.completed[self.next_output]
            invariant
                start <= self.next_output <= first_incomplete(self.completed@, start as int),
                first_incomplete(self.completed@, start as int) <= self.completed@.len(),
                forall|i: int| start <= i < first_incomplete(self.completed@, start as int) ==> self.completed@[i],
                first_incomplete(self.completed@, start as int) < self.completed@.len() ==> !self.completed@[first_incomplete(self.completed@, start as int)],
                forall|i: int| 0 <= i < start ==> self.completed@[i],
                roots@ == Seq::new((self.next_output - start) as nat, |i: int| (start + i) as usize),
                self.completed@ == old(self).completed@,
                self.aggregates@ == old(self).aggregates@,
                self.device_ids@ == old(self).device_ids@,
                self.paths@ == old(self).paths@,
                self.stats == old(self).stats,
                self.inodes@ == old(self).inodes@,
                self.inodes.wf(),
                self.options == old(self).options,
                self.progress_visible == (old(self).progress_visible && !clear_progress),
                start == old(self).next_output,
            decreases self.completed@.len() - self.next_output,
        {
            roots.push(self.next_output);
            self.next_output = self.next_output + 1;
            assert(roots@ =~= Seq::new((self.next_output - start) as nat, |i: int| (start + i) as usize));
        }
        Report { roots, clear_progress }
    }
}


/// Whether root `a` is reported before root `b` when sorting by size: smaller first, and roots
/// of equal size in input order.
pub open spec fn reported_before(aggregates: Seq<Aggregate>, a: int, b: int) -> bool {
    aggregates[a].bytes < aggregates[b].bytes || (aggregates[a].bytes == aggregates[b].bytes && a < b)
}

impl Aggregation {
    /// Close the statistics of the walk: without any entry there is no smallest file.
    pub fn finish_statistics(&mut self)
        ensures
            final(self).stats == (if old(self).stats.entries_traversed == 0 {
                Statistics { smallest_file_in_bytes: 0, ..old(self).stats }
            } else {
                old(self).stats
            }),
            final(self).aggregates@ == old(self).aggregates@,
            final(self).completed@ == old(self).completed@,
            final(self).device_ids@ == old(self).device_ids@,
            final(self).paths@ == old(self).paths@,
            final(self).next_output == old(self).next_output,
            final(self).progress_visible == old(self).progress_visible,
            final(self).inodes@ == old(self).inodes@,
            final(self).options == old(self).options,
    {
        if self.stats.entries_traversed == 0 {
            self.stats = Statistics { smallest_file_in_bytes: 0, ..self.stats };
        }
    }

    /// The bytes and the errors of all roots together.
    pub fn totals(&self) -> (r: (u128, WalkResult))
        requires
            total_bytes(self.aggregates@) <= u128::MAX,
            total_errors(self.aggregates@) <= u64::MAX,
        ensures
            r.0 == total_bytes(self.aggregates@),
            r.1.num_errors == total_errors(self.aggregates@),
    {
        let mut bytes: u128 = 0;
        let mut errors: u64 = 0;
        let mut i: usize = 0;
        while i < self.aggregates.len()
            invariant
                i <= self.aggregates@.len(),
                bytes == total_bytes(self.aggregates@.subrange(0, i as int)),
                errors == total_errors(self.aggregates@.subrange(0, i as int)),
                total_bytes(self.aggregates@) <= u128::MAX,
                total_errors(self.aggregates@) <= u64::MAX,
            decreases self.aggregates@.len() - i,
        {
            proof {
                lemma_totals_grow(self.aggregates@, i as int + 1);
                assert(self.aggregates@.subrange(0, i + 1).drop_last() =~= self.aggregates@.subrange(0, i as int));
            }
            bytes = bytes + self.aggregates[i].bytes;
            errors = errors + self.aggregates[i].errors;
            i = i + 1;
        }
        assert(self.aggregates@.subrange(0, self.aggregates@.len() as int) =~= self.aggregates@);
        (bytes, WalkResult { num_errors: errors })
    }

    /// The order in which roots are reported when sorting by size: ascending by bytes, and roots
    /// of equal size in input order.
    pub fn sorted_roots(&self) -> (r: Vec<usize>)
        ensures
            r@.len() == self.aggregates@.len(),
            forall|i: int| 0 <= i < r@.len() ==> #[trigger] r@[i] < self.aggregates@.len(),
            forall|i: int, j: int| 0 <= i < j < r@.len() ==> reported_before(self.aggregates@, #[trigger] r@[i] as int, #[trigger] r@[j] as int),
    {
        let ghost ags = self.aggregates@;
        let mut order: Vec<usize> = Vec::new();
        let mut n: usize = 0;
        while n < self.aggregates.len()
            invariant
                n <= ags.len(),
                ags == self.aggregates@,
                order@.len() == n,
                forall|i: int| 0 <= i < n ==> #[trigger] order@[i] < n,
                forall|i: int, j: int| 0 <= i < j < n ==> reported_before(ags, #[trigger] order@[i] as int, #[trigger] order@[j] as int),
            decreases ags.len() - n,
        {
            // Insert root `n`, which comes after every root of equal size already placed.
            let key = self.aggregates[n].bytes;
            let mut pos: usize = n;
            while pos > 0 && self.aggregates[order[pos - 1]].bytes > key
                invariant
                    pos <= n < ags.len(),
                    ags == self.aggregates@,
                    order@.len() == n,
                    forall|i: int| 0 <= i < n ==> #[trigger] order@[i] < n,
                    forall|i: int| pos <= i < n ==> ags[#[trigger] order@[i] as int].bytes > key,
                decreases pos,
            {
                pos = pos - 1;
            }
            let ghost before = order@;
            order.insert(pos, n);
            proof {
                assert(order@ =~= before.subrange(0, pos as int).push(n).add(before.subrange(pos as int, n as int)));
                assert forall|i: int| 0 <= i < n + 1 implies #[trigger] order@[i] < n + 1 by {
                    if i < pos { assert(order@[i] == before[i]); } else if i > pos { assert(order@[i] == before[i - 1]); }
                }
                assert forall|i: int, j: int| 0 <= i < j < n + 1 implies reported_before(ags, #[trigger] order@[i] as int, #[trigger] order@[j] as int) by {
                    if i < pos && j < pos {
                        assert(order@[i] == before[i] && order@[j] == before[j]);
                    } else if i < pos && j == pos {
                        assert(order@[i] == before[i]);
                        assert(before[i] < n);
                        if pos > 0 {
                            assert(ags[before[pos - 1] as int].bytes <= key);
                            if i < pos - 1 {
                                assert(reported_before(ags, before[i] as int, before[pos - 1] as int));
                            }
                        }
                    } else if i < pos && j > pos {
                        assert(order@[i] == before[i] && order@[j] == before[j - 1]);
                    } else if i == pos {
                        assert(order@[j] == before[j - 1]);
                        assert(ags[before[j - 1] as int].bytes > key);
                    } else {
                        assert(order@[i] == before[i - 1] && order@[j] == before[j - 1]);
                    }
                }
            }
            n = n + 1;
        }
        order
    }
}

proof fn lemma_totals_grow(aggregates: Seq<Aggregate>, i: int)
    requires
        0 <= i <= aggregates.len(),
    ensures
        total_bytes(aggregates.subrange(0, i)) <= total_bytes(aggregates),
        total_errors(aggregates.subrange(0, i)) <= total_errors(aggregates),
    decreases aggregates.len() - i,
{
    if i < aggregates.len() {
        lemma_totals_grow(aggregates, i + 1);
        assert(aggregates.subrange(0, i + 1).drop_last() =~= aggregates.subrange(0, i));
    } else {
        assert(aggregates.subrange(0, i) =~= aggregates);
    }
}

} // verus!
