//! Decisions of the interactive browser: sort modes, byte visualizations, cursor movement,
//! scrolling and the shape of listed entries.
use vstd::prelude::*;

verus! {

/// Controls which modification time is used for mtime sorting.
#[derive(Clone, Copy, Debug, PartialEq, Eq, Structural)]
pub enum MTimeSort {
    /// Use each entry's own modification time.
    Entry,
    /// Use the newest modification time among each entry's descendants.
    RecursiveChildrenNewest,
    /// Use the oldest modification time among each entry's descendants.
    RecursiveChildrenOldest,
}

impl Default for MTimeSort {
    fn default() -> (r: MTimeSort)
        ensures
            r == MTimeSort::Entry,
    {
        MTimeSort::Entry
    }
}

/// The mtime mode that follows `m`.
pub open spec fn next_mtime_sort(m: MTimeSort) -> MTimeSort {
    match m {
        MTimeSort::Entry => MTimeSort::RecursiveChildrenNewest,
        MTimeSort::RecursiveChildrenNewest => MTimeSort::RecursiveChildrenOldest,
        MTimeSort::RecursiveChildrenOldest => MTimeSort::Entry,
    }
}

impl MTimeSort {
    /// The next mtime mode: own time, newest descendant, oldest descendant, and around again.
    pub fn cycle(self) -> (r: MTimeSort)
        ensures
            r == next_mtime_sort(self),
    {
        match self {
            MTimeSort::Entry => MTimeSort::RecursiveChildrenNewest,
            MTimeSort::RecursiveChildrenNewest => MTimeSort::RecursiveChildrenOldest,
            MTimeSort::RecursiveChildrenOldest => MTimeSort::Entry,
        }
    }
}

/// The ordering of listed entries.
#[derive(Clone, Copy, Debug, PartialEq, Eq, Structural)]
pub enum SortMode {
    /// Largest first.
    SizeDescending,
    /// Smallest first.
    SizeAscending,
    /// Newest first.
    MTimeDescending(MTimeSort),
    /// Oldest first.
    MTimeAscending(MTimeSort),
    /// Most entries first.
    CountDescending,
    /// Fewest entries first.
    CountAscending,
    /// Directories first, then names in reverse.
    NameDescending,
    /// Directories first, then names in order.
    NameAscending,
}

impl Default for SortMode {
    fn default() -> (r: SortMode)
        ensures
            r == SortMode::SizeDescending,
    {
        SortMode::SizeDescending
    }
}

/// The mode after toggling size sorting.
pub open spec fn toggled_size(m: SortMode) -> SortMode {
    match m {
        SortMode::SizeDescending => SortMode::SizeAscending,
        SortMode::SizeAscending => SortMode::SizeDescending,
        _ => SortMode::SizeDescending,
    }
}

/// The mode after toggling mtime sorting.
pub open spec fn toggled_mtime(m: SortMode) -> SortMode {
    match m {
        SortMode::MTimeAscending(sort) => SortMode::MTimeDescending(sort),
        SortMode::MTimeDescending(sort) => SortMode::MTimeAscending(sort),
        _ => SortMode::MTimeDescending(MTimeSort::Entry),
    }
}

/// The mode after cycling the mtime source; other modes are unaffected.
pub open spec fn cycled_mtime_sort(m: SortMode) -> SortMode {
    match m {
        SortMode::MTimeAscending(sort) => SortMode::MTimeAscending(next_mtime_sort(sort)),
        SortMode::MTimeDescending(sort) => SortMode::MTimeDescending(next_mtime_sort(sort)),
        _ => m,
    }
}

/// The mode after toggling count sorting.
pub open spec fn toggled_count(m: SortMode) -> SortMode {
    match m {
        SortMode::CountAscending => SortMode::CountDescending,
        SortMode::CountDescending => SortMode::CountAscending,
        _ => SortMode::CountDescending,
    }
}

/// The mode after toggling name sorting.
pub open spec fn toggled_name(m: SortMode) -> SortMode {
    match m {
        SortMode::NameAscending => SortMode::NameDescending,
        SortMode::NameDescending => SortMode::NameAscending,
        _ => SortMode::NameAscending,
    }
}

impl SortMode {
    /// Toggle between descending and ascending size, starting with descending.
    pub fn toggle_size(&mut self)
        ensures
            *final(self) == toggled_size(*old(self)),
    {
        *self = match *self {
            SortMode::SizeDescending => SortMode::SizeAscending,
            SortMode::SizeAscending => SortMode::SizeDescending,
            _ => SortMode::SizeDescending,
        }
    }

    /// Toggle between descending and ascending mtime, keeping the mtime source.
    pub fn toggle_mtime(&mut self)
        ensures
            *final(self) == toggled_mtime(*old(self)),
    {
        *self = match *self {
            SortMode::MTimeAscending(sort) => SortMode::MTimeDescending(sort),
            SortMode::MTimeDescending(sort) => SortMode::MTimeAscending(sort),
            _ => SortMode::MTimeDescending(MTimeSort::Entry),
        }
    }

    /// Cycle the mtime source of an mtime sort.
    pub fn cycle_mtime_sort(&mut self)
        ensures
            *final(self) == cycled_mtime_sort(*old(self)),
    {
        *self = match *self {
            SortMode::MTimeAscending(sort) => SortMode::MTimeAscending(sort.cycle()),
            SortMode::MTimeDescending(sort) => SortMode::MTimeDescending(sort.cycle()),
            other => other,
        }
    }

    /// The mtime source of an mtime sort.
    pub fn mtime_sort(self) -> (r: Option<MTimeSort>)
        ensures
            r == match self {
                SortMode::MTimeAscending(sort) | SortMode::MTimeDescending(sort) => Some(sort),
                _ => None::<MTimeSort>,
            },
    {
        match self {
            SortMode::MTimeAscending(sort) | SortMode::MTimeDescending(sort) => Some(sort),
            _ => None,
        }
    }

    /// Toggle between descending and ascending counts, starting with descending.
    pub fn toggle_count(&mut self)
        ensures
            *final(self) == toggled_count(*old(self)),
    {
        *self = match *self {
            SortMode::CountAscending => SortMode::CountDescending,
            SortMode::CountDescending => SortMode::CountAscending,
            _ => SortMode::CountDescending,
        }
    }

    /// Toggle between ascending and descending names, starting with ascending.
    pub fn toggle_name(&mut self)
        ensures
            *final(self) == toggled_name(*old(self)),
    {
        *self = match *self {
            SortMode::NameAscending => SortMode::NameDescending,
            SortMode::NameDescending => SortMode::NameAscending,
            _ => SortMode::NameAscending,
        }
    }
}

/// Toggling a sort direction twice restores any mode of that kind, and toggling from another
/// kind selects that kind's default direction.
pub proof fn law_toggles_are_involutions(m: SortMode)
    ensures
        (m is SizeAscending || m is SizeDescending) ==> toggled_size(toggled_size(m)) == m,
        (m is MTimeAscending || m is MTimeDescending) ==> toggled_mtime(toggled_mtime(m)) == m,
        (m is CountAscending || m is CountDescending) ==> toggled_count(toggled_count(m)) == m,
        (m is NameAscending || m is NameDescending) ==> toggled_name(toggled_name(m)) == m,
        !(m is SizeAscending || m is SizeDescending) ==> toggled_size(m) == SortMode::SizeDescending,
        !(m is NameAscending || m is NameDescending) ==> toggled_name(m) == SortMode::NameAscending,
        !(m is CountAscending || m is CountDescending) ==> toggled_count(m) == SortMode::CountDescending,
        !(m is MTimeAscending || m is MTimeDescending) ==> toggled_mtime(m) == SortMode::MTimeDescending(MTimeSort::Entry),
{
}

/// Cycling the mtime source three times restores it, without changing the direction.
pub proof fn law_mtime_cycle_has_period_three(m: SortMode)
    ensures
        cycled_mtime_sort(cycled_mtime_sort(cycled_mtime_sort(m))) == m,
        cycled_mtime_sort(m) is MTimeAscending <==> m is MTimeAscending,
        cycled_mtime_sort(m) is MTimeDescending <==> m is MTimeDescending,
{
}

/// How the share of an entry's size is visualized.
#[derive(Clone, Copy, Debug, PartialEq, Eq, Structural)]
pub enum ByteVisualization {
    /// A percentage.
    Percentage,
    /// A bar.
    Bar,
    /// A long bar.
    LongBar,
    /// A percentage followed by a bar.
    PercentageAndBar,
}

impl Default for ByteVisualization {
    fn default() -> (r: ByteVisualization)
        ensures
            r == ByteVisualization::PercentageAndBar,
    {
        ByteVisualization::PercentageAndBar
    }
}

/// The visualization that follows `v`.
pub open spec fn next_visualization(v: ByteVisualization) -> ByteVisualization {
    match v {
        ByteVisualization::Bar => ByteVisualization::LongBar,
        ByteVisualization::LongBar => ByteVisualization::PercentageAndBar,
        ByteVisualization::PercentageAndBar => ByteVisualization::Percentage,
        ByteVisualization::Percentage => ByteVisualization::Bar,
    }
}

impl ByteVisualization {
    /// Switch to the next visualization.
    pub fn cycle(&mut self)
        ensures
            *final(self) == next_visualization(*old(self)),
    {
        *self = match *self {
            ByteVisualization::Bar => ByteVisualization::LongBar,
            ByteVisualization::LongBar => ByteVisualization::PercentageAndBar,
            ByteVisualization::PercentageAndBar => ByteVisualization::Percentage,
            ByteVisualization::Percentage => ByteVisualization::Bar,
        }
    }
}

/// Cycling through visualizations visits all four before returning to the start.
pub proof fn law_visualizations_cycle_through_all_four(v: ByteVisualization)
    ensures
        next_visualization(next_visualization(next_visualization(next_visualization(v)))) == v,
        next_visualization(v) != v,
        next_visualization(next_visualization(v)) != v,
        next_visualization(next_visualization(next_visualization(v))) != v,
{
}

/// Whether listed entries are checked for their presence on disk.
#[derive(Clone, Copy, Debug, PartialEq, Eq, Structural)]
pub enum EntryCheck {
    /// Check each entry with a possibly costly `lstat`.
    PossiblyCostlyLstat,
    /// Trust the scanned tree.
    Disabled,
}

impl EntryCheck {
    /// Entries are checked only when checks are allowed and no scan is running.
    pub fn new(is_scanning: bool, allow_entry_check: bool) -> (r: EntryCheck)
        ensures
            r == if allow_entry_check && !is_scanning { EntryCheck::PossiblyCostlyLstat } else { EntryCheck::Disabled },
    {
        if allow_entry_check && !is_scanning {
            EntryCheck::PossiblyCostlyLstat
        } else {
            EntryCheck::Disabled
        }
    }
}

/// The pane that receives keyboard input.
#[derive(Clone, Copy, Debug, PartialEq, Eq, Structural)]
pub enum FocussedPane {
    /// The entry list.
    Main,
    /// The help pane.
    Help,
    /// The pane of marked entries.
    Mark,
    /// The glob-search pane.
    Glob,
}

impl Default for FocussedPane {
    fn default() -> (r: FocussedPane)
        ensures
            r == FocussedPane::Main,
    {
        FocussedPane::Main
    }
}

/// The terminal cursor.
#[derive(Clone, Copy, Debug, PartialEq, Eq, Structural)]
pub struct Cursor {
    /// Whether the cursor is shown.
    pub show: bool,
    /// Column.
    pub x: u16,
    /// Row.
    pub y: u16,
}

impl Default for Cursor {
    fn default() -> (r: Cursor)
        ensures
            r == (Cursor { show: false, x: 0, y: 0 }),
    {
        Cursor { show: false, x: 0, y: 0 }
    }
}

/// Whether marking an entry moves the cursor on.
#[derive(Clone, Copy, Debug, PartialEq, Eq, Structural)]
pub enum CursorMode {
    /// Move to the next entry.
    Advance,
    /// Stay.
    KeepPosition,
}

/// How marking treats an already marked entry.
#[derive(Clone, Copy, Debug, PartialEq, Eq, Structural)]
pub enum MarkEntryMode {
    /// Unmark it.
    Toggle,
    /// Keep it marked.
    MarkForDeletion,
}

/// A cursor movement.
#[derive(Clone, Copy, Debug, PartialEq, Eq, Structural)]
pub enum CursorDirection {
    /// Ten entries down.
    PageDown,
    /// One entry down.
    Down,
    /// One entry up.
    Up,
    /// Ten entries up.
    PageUp,
    /// The first entry.
    ToTop,
    /// The last entry.
    ToBottom,
}

/// The position a movement leads to from position `n`, saturating at the ends of `usize`.
pub open spec fn moved(d: CursorDirection, n: usize) -> usize {
    match d {
        CursorDirection::ToTop => 0,
        CursorDirection::ToBottom => usize::MAX,
        CursorDirection::Down => if n == usize::MAX { n } else { (n + 1) as usize },
        CursorDirection::Up => if n == 0 { 0 } else { (n - 1) as usize },
        CursorDirection::PageDown => if n > usize::MAX - 10 { usize::MAX } else { (n + 10) as usize },
        CursorDirection::PageUp => if n < 10 { 0 } else { (n - 10) as usize },
    }
}

impl CursorDirection {
    /// The position this movement leads to from position `n`.
    pub fn move_cursor(&self, n: usize) -> (r: usize)
        ensures
            r == moved(*self, n),
    {
        match self {
            CursorDirection::ToTop => 0,
            CursorDirection::ToBottom => usize::MAX,
            CursorDirection::Down => if n == usize::MAX { n } else { n + 1 },
            CursorDirection::Up => if n == 0 { 0 } else { n - 1 },
            CursorDirection::PageDown => if n > usize::MAX - 10 { usize::MAX } else { n + 10 },
            CursorDirection::PageUp => if n < 10 { 0 } else { n - 10 },
        }
    }
}

/// The length of the UTF-8 encoding of `s`, as `str::len` reports it.
pub open spec fn byte_length(s: Seq<char>) -> usize {
    vstd::utf8::encode_utf8(s).len() as usize
}

/// Pad `s` with spaces until it is `entire_width` bytes long; longer strings are kept.
pub fn fill_background_to_right(s: String, entire_width: u16) -> (r: String)
    ensures
        byte_length(s@) >= entire_width ==> r@ == s@,
        byte_length(s@) < entire_width ==> r@ == s@ + Seq::new((entire_width - byte_length(s@)) as nat, |i: int| ' '),
{
    let len = s.as_str().len();
    if len >= entire_width as usize {
        return s;
    }
    let mut padded = s;
    let mut i: usize = len;
    while i < entire_width as usize
        invariant
            len <= i <= entire_width,
            padded@ == s@ + Seq::new((i - len) as nat, |j: int| ' '),
        decreases entire_width - i,
    {
        padded.push(' ');
        i = i + 1;
        assert(padded@ =~= s@ + Seq::new((i - len) as nat, |j: int| ' '));
    }
    padded
}

/// The first listed index that keeps `selected` visible in a list `height` rows high, scrolling
/// as little as possible from `start_index`.
pub open spec fn scrolled_start(start_index: usize, selected: Option<usize>, height: usize) -> usize {
    match selected {
        Some(pos) => if start_index + height - 1 < pos {
            (pos - height + 1) as usize
        } else if start_index > pos {
            pos
        } else {
            start_index
        },
        None => 0,
    }
}

/// Scrolling state of a list.
#[derive(Clone, Copy, Debug, PartialEq, Eq, Structural)]
pub struct ReactList {
    /// The index at which the list last started.
    pub start_index: usize,
}

impl ReactList {
    /// Scroll so that `selected` is visible in a list `height` rows high; without a selection the
    /// list starts at its top. A selection needs the last visible row, `start_index + height - 1`,
    /// to be a position, and so does the start that shows it.
    pub fn update_start_index(&mut self, selected: Option<usize>, height: usize)
        requires
            selected matches Some(pos) ==> 1 <= old(self).start_index + height <= usize::MAX
                && (old(self).start_index + height - 1 < pos ==> pos - height + 1 <= usize::MAX),
        ensures
            final(self).start_index == scrolled_start(old(self).start_index, selected, height),
    {
        self.start_index = match selected {
            Some(pos) => {
                if self.start_index + height - 1 < pos {
                    pos - height + 1
                } else if self.start_index > pos {
                    pos
                } else {
                    self.start_index
                }
            },
            None => 0,
        };
    }
}

/// After scrolling, a selected entry lies within the visible rows.
pub proof fn law_selection_stays_visible(start_index: usize, pos: usize, height: usize)
    requires
        height >= 1,
        start_index + height <= usize::MAX,
    ensures
        scrolled_start(start_index, Some(pos), height) <= pos,
        pos < scrolled_start(start_index, Some(pos), height) + height,
{
}

} // verus!
