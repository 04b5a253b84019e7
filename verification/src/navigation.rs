//! Navigation of the entry tree in the interactive browser: the viewed directory, the selected
//! entry and the selection remembered for each directory.
use vstd::prelude::*;
use std::collections::BTreeMap;
use crate::browse::{CursorDirection, moved};
use crate::timestamp::Timestamp;
use crate::clean::{cleanup_dir_names, is_cleanup_dir_name, text_equals};
use vstd::string::StringExecFns;

verus! {

broadcast use vstd::std_specs::btree::group_btree_axioms, vstd::laws_cmp::group_laws_cmp;

/// An entry of the viewed directory as the browser lists it.
#[derive(Clone, Debug)]
pub struct EntryDataBundle {
    /// The entry's node in the tree.
    pub index: usize,
    /// The entry's name, or its path where search results are listed.
    pub name: String,
    /// Its size in bytes.
    pub size: u128,
    /// The modification time it is sorted by.
    pub mtime: Timestamp,
    /// The number of entries below it, for directories.
    pub entry_count: Option<u64>,
    /// Whether it is a directory.
    pub is_dir: bool,
    /// Whether it still exists.
    pub exists: bool,
}

/// The tree nodes of listed entries, in listing order.
pub open spec fn indices_of(entries: Seq<EntryDataBundle>) -> Seq<usize> {
    entries.map_values(|e: EntryDataBundle| e.index)
}

/// The first position of `x` in `s`, if it occurs.
pub open spec fn position_of(s: Seq<usize>, x: usize) -> Option<int>
    decreases s.len(),
{
    if s.len() == 0 {
        None
    } else if s[0] == x {
        Some(0)
    } else {
        match position_of(s.drop_first(), x) {
            Some(k) => Some(k + 1),
            None => None,
        }
    }
}

fn find_position(entries: &Vec<EntryDataBundle>, x: usize) -> (r: Option<usize>)
    ensures
        match r {
            Some(k) => position_of(indices_of(entries@), x) == Some(k as int),
            None => position_of(indices_of(entries@), x) is None,
        },
{
    let ghost s = indices_of(entries@);
    let mut i: usize = 0;
    assert(s.skip(0) =~= s);
    while i < entries.len()
        invariant
            i <= entries@.len(),
            s == indices_of(entries@),
            position_of(s, x) == match position_of(s.skip(i as int), x) { Some(k) => Some(k + i), None => None },
        decreases entries@.len() - i,
    {
        assert(s.skip(i as int)[0] == entries@[i as int].index);
        if entries[i].index == x {
            return Some(i);
        }
        assert(s.skip(i as int).drop_first() =~= s.skip(i + 1));
        i = i + 1;
    }
    None
}

/// The viewed directory, the selected entry and the selection remembered for directories.
pub struct Navigation {
    /// The root of the tree.
    pub tree_root: usize,
    /// The directory whose entries are listed.
    pub view_root: usize,
    /// The selected entry.
    pub selected: Option<usize>,
    /// The entry last selected in each directory.
    pub bookmarks: BTreeMap<usize, usize>,
}

/// The entry to select among `entries` when showing `view_root`: the one remembered for it
/// where it is listed, otherwise the first.
pub open spec fn remembered_selection(bookmarks: Map<usize, usize>, view_root: usize, entries: Seq<usize>) -> Option<usize> {
    let pos = if bookmarks.contains_key(view_root) {
        match position_of(entries, bookmarks[view_root]) { Some(k) => k, None => 0 }
    } else {
        0
    };
    if pos < entries.len() { Some(entries[pos]) } else { None }
}

/// The entry a cursor movement selects: the selected entry's position moved, or the first
/// position where nothing listed is selected, clamped to the last entry; with nothing listed the
/// selection stays.
pub open spec fn next_selection(selected: Option<usize>, direction: CursorDirection, entries: Seq<usize>) -> Option<usize> {
    let pos: int = match selected {
        Some(s) => match position_of(entries, s) { Some(k) => moved(direction, k as usize) as int, None => 0 },
        None => 0,
    };
    if pos < entries.len() { Some(entries[pos]) } else if entries.len() > 0 { Some(entries.last()) } else { selected }
}

proof fn lemma_position_bounded(s: Seq<usize>, x: usize)
    ensures
        match position_of(s, x) { Some(k) => 0 <= k < s.len() && s[k] == x, None => true },
    decreases s.len(),
{
    if s.len() > 0 && s[0] != x {
        lemma_position_bounded(s.drop_first(), x);
    }
}

impl Navigation {
    /// The entry to select when showing `view_root`; see [`remembered_selection`].
    pub fn previously_selected_index(&self, view_root: usize, entries: &Vec<EntryDataBundle>) -> (r: Option<usize>)
        ensures
            r == remembered_selection(self.bookmarks@, view_root, indices_of(entries@)),
    {
        let pos = match self.bookmarks.get(&view_root) {
            Some(selected) => match find_position(entries, *selected) {
                Some(k) => k,
                None => 0,
            },
            None => 0,
        };
        if pos < entries.len() {
            Some(entries[pos].index)
        } else {
            None
        }
    }

    /// Enter directory `previously_selected`, remembering it as the selection of the current
    /// view, and select `new_selected` inside.
    pub fn enter_node(&mut self, previously_selected: usize, new_selected: usize)
        ensures
            final(self).bookmarks@ == entered(old(self).view_root, old(self).bookmarks@, previously_selected),
            final(self).view_root == previously_selected,
            final(self).selected == Some(new_selected),
            final(self).tree_root == old(self).tree_root,
    {
        let view_root = self.view_root;
        self.bookmarks.insert(view_root, previously_selected);
        self.view_root = previously_selected;
        self.selected = Some(new_selected);
    }

    /// Leave for directory `parent_idx`, selecting what was selected there, or else the first of
    /// its `entries`.
    pub fn exit_node(&mut self, parent_idx: usize, entries: &Vec<EntryDataBundle>)
        ensures
            final(self).view_root == parent_idx,
            final(self).selected == selection_on_exit(old(self).bookmarks@, parent_idx, indices_of(entries@)),
            final(self).bookmarks@ == old(self).bookmarks@,
            final(self).tree_root == old(self).tree_root,
    {
        self.view_root = parent_idx;
        self.selected = match self.bookmarks.get(&parent_idx) {
            Some(selected) => Some(*selected),
            None => if entries.len() > 0 { Some(entries[0].index) } else { None },
        };
    }

    /// The entry a cursor movement selects; see [`next_selection`].
    pub fn next_index(&self, direction: CursorDirection, entries: &Vec<EntryDataBundle>) -> (r: Option<usize>)
        ensures
            r == next_selection(self.selected, direction, indices_of(entries@)),
    {
        let pos: usize = match self.selected {
            Some(selected) => match find_position(entries, selected) {
                Some(k) => direction.move_cursor(k),
                None => 0,
            },
            None => 0,
        };
        if pos < entries.len() {
            Some(entries[pos].index)
        } else if entries.len() > 0 {
            Some(entries[entries.len() - 1].index)
        } else {
            self.selected
        }
    }

    /// Select `selected`, and remember it for the viewed directory.
    pub fn select(&mut self, selected: Option<usize>)
        ensures
            final(self).selected == selected,
            final(self).bookmarks@ == match selected {
                Some(s) => old(self).bookmarks@.insert(old(self).view_root, s),
                None => old(self).bookmarks@,
            },
            final(self).view_root == old(self).view_root,
            final(self).tree_root == old(self).tree_root,
    {
        self.selected = selected;
        if let Some(s) = selected {
            let view_root = self.view_root;
            self.bookmarks.insert(view_root, s);
        }
    }
}

/// The effect of entering directory `dir` from the current view and selecting `inner` inside:
/// `dir` is remembered as the selection of the view it was entered from.
pub open spec fn entered(view_root: usize, bookmarks: Map<usize, usize>, dir: usize) -> Map<usize, usize> {
    bookmarks.insert(view_root, dir)
}

/// The selection after leaving for `parent`: the one remembered there, or else the first entry.
pub open spec fn selection_on_exit(bookmarks: Map<usize, usize>, parent: usize, entries: Seq<usize>) -> Option<usize> {
    if bookmarks.contains_key(parent) {
        Some(bookmarks[parent])
    } else if entries.len() > 0 {
        Some(entries[0])
    } else {
        None
    }
}

/// Entering a directory and leaving it again returns to the view it was entered from, with the
/// directory selected, whatever the parent's entries.
pub proof fn law_enter_then_exit_restores_selection(bookmarks: Map<usize, usize>, view_root: usize, dir: usize, entries: Seq<usize>)
    ensures
        selection_on_exit(entered(view_root, bookmarks, dir), view_root, entries) == Some(dir),
{
}

/// The file name of a listed name: the text after its last `/`, or the whole name where that is
/// empty.
pub open spec fn file_name_of(name: Seq<char>) -> Seq<char> {
    if exists|i: int| 0 <= i < name.len() && name[i] == '/' {
        let i = choose|i: int| 0 <= i < name.len() && name[i] == '/' && forall|j: int| i < j < name.len() ==> name[j] != '/';
        if i + 1 < name.len() { name.skip(i + 1) } else { name }
    } else {
        name
    }
}

fn file_name(name: &str) -> (r: String)
    ensures
        r@ == file_name_of(name@),
{
    let n = name.unicode_len();
    let mut i: usize = n;
    while i > 0 && name.get_char(i - 1) != '/'
        invariant
            i <= n == name@.len(),
            forall|j: int| i <= j < n ==> name@[j] != '/',
        decreases i,
    {
        i = i - 1;
    }
    let mut out = String::new();
    if i == 0 || i == n {
        proof {
            if i == n && n > 0 {
                let k = (n - 1) as int;
                assert(name@[k] == '/');
                let c = choose|c: int| 0 <= c < name@.len() && name@[c] == '/' && forall|j: int| c < j < name@.len() ==> name@[j] != '/';
                assert(c == k);
            }
        }
        let mut k: usize = 0;
        while k < n
            invariant
                k <= n == name@.len(),
                out@ == name@.subrange(0, k as int),
            decreases n - k,
        {
            out.push(name.get_char(k));
            k = k + 1;
            assert(out@ =~= name@.subrange(0, k as int));
        }
        assert(name@.subrange(0, n as int) =~= name@);
        out
    } else {
        proof {
            let k = (i - 1) as int;
            assert(name@[k] == '/');
            let c = choose|c: int| 0 <= c < name@.len() && name@[c] == '/' && forall|j: int| c < j < name@.len() ==> name@[j] != '/';
            assert(c == k);
        }
        let mut k: usize = i;
        while k < n
            invariant
                i <= k <= n == name@.len(),
                out@ == name@.subrange(i as int, k as int),
            decreases n - k,
        {
            out.push(name.get_char(k));
            k = k + 1;
            assert(out@ =~= name@.subrange(i as int, k as int));
        }
        assert(name@.subrange(i as int, n as int) =~= name@.skip(i as int));
        out
    }
}

/// Whether a listed entry is a cleanup candidate: an existing directory with a cleanup name.
pub open spec fn cleanup_candidate(e: EntryDataBundle) -> bool {
    e.exists && e.is_dir && cleanup_dir_names().contains(file_name_of(e.name@))
}

/// Whether a listed entry is a cleanup candidate; see [`cleanup_candidate`].
pub fn is_cleanup_candidate(e: &EntryDataBundle) -> (r: bool)
    ensures
        r == cleanup_candidate(*e),
{
    if !(e.exists && e.is_dir) {
        return false;
    }
    let name = file_name(e.name.as_str());
    is_cleanup_dir_name(name.as_str())
}

/// The tree nodes of the listed cleanup candidates, in listing order.
pub open spec fn candidates_in(entries: Seq<EntryDataBundle>) -> Seq<usize>
    decreases entries.len(),
{
    if entries.len() == 0 {
        Seq::empty()
    } else {
        let before = candidates_in(entries.drop_last());
        if cleanup_candidate(entries.last()) { before.push(entries.last().index) } else { before }
    }
}

/// The tree nodes of the listed cleanup candidates, in listing order.
pub fn cleanup_candidates(entries: &Vec<EntryDataBundle>) -> (r: Vec<usize>)
    ensures
        r@ == candidates_in(entries@),
{
    let mut out: Vec<usize> = Vec::new();
    let mut i: usize = 0;
    while i < entries.len()
        invariant
            i <= entries@.len(),
            out@ == candidates_in(entries@.subrange(0, i as int)),
        decreases entries@.len() - i,
    {
        assert(entries@.subrange(0, i + 1).drop_last() =~= entries@.subrange(0, i as int));
        if is_cleanup_candidate(&entries[i]) {
            out.push(entries[i].index);
        }
        i = i + 1;
    }
    assert(entries@.subrange(0, entries@.len() as int) =~= entries@);
    out
}

/// How the selection changes when the listing is refreshed during a scan.
#[derive(Clone, Copy, Debug, PartialEq, Eq, Structural)]
pub enum SelectionUpdate {
    /// The selection stays.
    Keep,
    /// The selection becomes this.
    Select(Option<usize>),
}

/// The first listed entry named `name`, by position.
pub open spec fn named_position(entries: Seq<EntryDataBundle>, name: Seq<char>) -> Option<int> {
    if exists|i: int| 0 <= i < entries.len() && entries[i].name@ == name {
        Some(choose|i: int| 0 <= i < entries.len() && entries[i].name@ == name && forall|j: int| 0 <= j < i ==> entries[j].name@ != name)
    } else {
        None
    }
}

/// The selection after the listing was refreshed during a scan that the user has not
/// interrupted: the entry selected before, found by its name or else at its former position;
/// otherwise, once the scan finished, the first entry.
pub open spec fn restored(entries: Seq<EntryDataBundle>, previous: Option<(Seq<char>, usize)>, is_finished: bool) -> SelectionUpdate {
    let found: Option<int> = match previous {
        None => None,
        Some((name, position)) => match named_position(entries, name) {
            Some(i) => Some(i),
            None => if position < entries.len() { Some(position as int) } else { None },
        },
    };
    match found {
        Some(i) => SelectionUpdate::Select(Some(entries[i].index)),
        None => if is_finished {
            SelectionUpdate::Select(if entries.len() > 0 { Some(entries[0].index) } else { None })
        } else {
            SelectionUpdate::Keep
        },
    }
}

fn find_named(entries: &Vec<EntryDataBundle>, name: &String) -> (r: Option<usize>)
    ensures
        match r {
            Some(k) => named_position(entries@, name@) == Some(k as int) && k < entries@.len(),
            None => named_position(entries@, name@) is None,
        },
{
    let mut i: usize = 0;
    while i < entries.len()
        invariant
            i <= entries@.len(),
            forall|j: int| 0 <= j < i ==> entries@[j].name@ != name@,
        decreases entries@.len() - i,
    {
        if text_equals(entries[i].name.as_str(), name.as_str()) {
            proof {
                assert(entries@[i as int].name@ == name@);
                let c = choose|c: int| 0 <= c < entries@.len() && entries@[c].name@ == name@ && forall|j: int| 0 <= j < c ==> entries@[j].name@ != name@;
                if c < i { } else if i < c { assert(entries@[i as int].name@ == name@); }
            }
            return Some(i);
        }
        i = i + 1;
    }
    None
}

/// The selection after the listing was refreshed during a scan; see [`restored`].
pub fn restored_selection(entries: &Vec<EntryDataBundle>, previous: &Option<(String, usize)>, is_finished: bool) -> (r: SelectionUpdate)
    ensures
        r == restored(entries@, match previous { Some((n, p)) => Some((n@, *p)), None => None }, is_finished),
{
    let found: Option<usize> = match previous {
        None => None,
        Some((name, position)) => match find_named(entries, name) {
            Some(k) => Some(k),
            None => if *position < entries.len() { Some(*position) } else { None },
        },
    };
    match found {
        Some(i) => SelectionUpdate::Select(Some(entries[i].index)),
        None => if is_finished {
            SelectionUpdate::Select(if entries.len() > 0 { Some(entries[0].index) } else { None })
        } else {
            SelectionUpdate::Keep
        },
    }
}


/// The selection after scanning the parent of the root: the former root where it became a child
/// of the new one; otherwise the previous selection if it is one of the preserved entries, or the
/// first entry.
pub fn selection_after_parent_scan(wraps_root: bool, old_root: usize, previous: Option<usize>, preserved: &Vec<usize>, entries: &Vec<EntryDataBundle>) -> (r: Option<usize>)
    ensures
        r == if wraps_root {
            Some(old_root)
        } else if previous is Some && preserved@.contains(previous->0) {
            previous
        } else if entries@.len() > 0 {
            Some(entries@[0].index)
        } else {
            None
        },
{
    if wraps_root {
        return Some(old_root);
    }
    if let Some(p) = previous {
        let mut i: usize = 0;
        while i < preserved.len()
            invariant
                i <= preserved@.len(),
                forall|j: int| 0 <= j < i ==> preserved@[j] != p,
                previous == Some(p),
                !wraps_root,
            decreases preserved@.len() - i,
        {
            if preserved[i] == p {
                assert(preserved@[i as int] == p);
                assert(preserved@.contains(p));
                return previous;
            }
            i = i + 1;
        }
    }
    proof {
        if previous is Some {
            assert(!preserved@.contains(previous->0));
        }
    }
    if entries.len() > 0 { Some(entries[0].index) } else { None }
}

} // verus!
