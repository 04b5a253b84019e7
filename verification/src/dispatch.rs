//! What a key press in the interactive browser does: the decision that precedes any effect.
use vstd::prelude::*;
use crate::browse::{moved, CursorDirection, FocussedPane};
use crate::config::KeysConfig;
use crate::keys::{binding_matches, Key, KeyPress, Modifier, ALT};

verus! {

/// What a key press asks of the browser.
#[derive(Clone, Copy, Debug, PartialEq, Eq, Structural)]
pub enum KeyAction {
    /// Ascend from the main pane, as the close-pane key does when it navigates back.
    NavigateBack,
    /// Close the focussed pane, or quit from the main pane.
    Quit,
    /// Suspend the process.
    Suspend,
    /// Clear and repaint the screen.
    Repaint,
    /// Move focus to the next pane.
    CyclePanes,
    /// Open the glob-search pane.
    OpenSearch,
    /// Show or hide help.
    ToggleHelp,
    /// Quit without confirmation.
    QuitImmediately,
    /// Hand the key to the pane of marked entries.
    MarkPane,
    /// Hand the key to the help pane.
    HelpPane,
    /// Run the glob search.
    SearchConfirm,
    /// Hand the key to the glob-search input.
    SearchInput,
    /// Open the selected entry.
    OpenEntry,
    /// Toggle the selected entry's mark.
    ToggleMark,
    /// Mark the selected entry for deletion and advance.
    MarkForDeletion,
    /// Toggle all marks.
    ToggleAll,
    /// Toggle cleanup-candidate detection.
    ToggleCleanup,
    /// Mark cleanup candidates.
    MarkCleanup,
    /// Toggle Git-ignore detection.
    ToggleGitignore,
    /// Mark Git-ignored entries.
    MarkGitignore,
    /// Enter the selected directory.
    Descend,
    /// Refresh the selected entry.
    RefreshSelected,
    /// Refresh the view.
    RefreshAll,
    /// Move the selection.
    Move(CursorDirection),
    /// Sort by size.
    SortBySize,
    /// Sort by modification time.
    SortByMtime,
    /// Cycle the modification-time mode.
    CycleMtimeMode,
    /// Sort by entry count.
    SortByCount,
    /// Show or hide the entry-count column.
    ToggleCountColumn,
    /// Sort by name.
    SortByName,
    /// Cycle the byte visualization.
    CycleVisualization,
    /// Toggle the selected entry's mark and advance.
    ToggleMarkAndMoveDown,
    /// Scan the parent of the current root.
    ScanParent,
    /// Ascend to the parent directory.
    Ascend,
    /// Nothing.
    Ignore,
}

/// Whether `press` invokes an action bound to `bindings`.
pub open spec fn pressed(bindings: Seq<(Key, Seq<Modifier>)>, press: KeyPress) -> bool {
    exists|i: int| 0 <= i < bindings.len() && #[trigger] binding_matches(bindings[i], press)
}

/// The cursor movement `press` asks for, if any, checked in this order: top, bottom, page up,
/// up, down, page down.
pub open spec fn movement(keys: KeysConfig, press: KeyPress) -> Option<CursorDirection> {
    if pressed(keys.move_to_top@, press) { Some(CursorDirection::ToTop) }
    else if pressed(keys.move_to_bottom@, press) { Some(CursorDirection::ToBottom) }
    else if pressed(keys.page_up@, press) { Some(CursorDirection::PageUp) }
    else if pressed(keys.move_up@, press) { Some(CursorDirection::Up) }
    else if pressed(keys.move_down@, press) { Some(CursorDirection::Down) }
    else if pressed(keys.page_down@, press) { Some(CursorDirection::PageDown) }
    else { None }
}

/// What `press` does in the main pane, checked in the order the browser checks its bindings.
pub open spec fn main_pane_action(keys: KeysConfig, press: KeyPress) -> KeyAction {
    if pressed(keys.open_entry@, press) { KeyAction::OpenEntry }
    else if pressed(keys.toggle_mark@, press) { KeyAction::ToggleMark }
    else if pressed(keys.mark_for_deletion@, press) { KeyAction::MarkForDeletion }
    else if pressed(keys.toggle_all@, press) { KeyAction::ToggleAll }
    else if pressed(keys.toggle_cleanup@, press) { KeyAction::ToggleCleanup }
    else if pressed(keys.mark_cleanup@, press) { KeyAction::MarkCleanup }
    else if pressed(keys.toggle_gitignore@, press) { KeyAction::ToggleGitignore }
    else if pressed(keys.mark_gitignore@, press) { KeyAction::MarkGitignore }
    else if pressed(keys.descend@, press) { KeyAction::Descend }
    else if pressed(keys.refresh_selected@, press) { KeyAction::RefreshSelected }
    else if pressed(keys.refresh_all@, press) { KeyAction::RefreshAll }
    else if movement(keys, press) is Some { KeyAction::Move(movement(keys, press)->0) }
    else if pressed(keys.sort_by_size@, press) { KeyAction::SortBySize }
    else if pressed(keys.sort_by_mtime@, press) { KeyAction::SortByMtime }
    else if pressed(keys.cycle_mtime_mode@, press) { KeyAction::CycleMtimeMode }
    else if pressed(keys.sort_by_count@, press) { KeyAction::SortByCount }
    else if pressed(keys.toggle_count_column@, press) { KeyAction::ToggleCountColumn }
    else if pressed(keys.sort_by_name@, press) { KeyAction::SortByName }
    else if pressed(keys.cycle_visualization@, press) { KeyAction::CycleVisualization }
    else if pressed(keys.toggle_mark_and_move_down@, press) { KeyAction::ToggleMarkAndMoveDown }
    else if pressed(keys.scan_parent@, press) { KeyAction::ScanParent }
    else if pressed(keys.ascend@, press) { KeyAction::Ascend }
    else { KeyAction::Ignore }
}

/// What `press` does with `focussed` focussed. The close-pane key navigates back from the main
/// pane where so configured, and otherwise closes like quit, which the search pane leaves to its
/// input; then come the keys of the whole application, most of them not while searching; keys
/// left over go to the focussed pane. Suspending exists on Unix only (`unix`).
pub open spec fn key_action_spec(keys: KeysConfig, focussed: FocussedPane, press: KeyPress, unix: bool) -> KeyAction {
    let glob = focussed == FocussedPane::Glob;
    let close_pane = pressed(keys.close_pane@, press);
    let quit = !glob && pressed(keys.quit@, press);
    if keys.esc_navigates_back && close_pane && focussed == FocussedPane::Main {
        KeyAction::NavigateBack
    } else if close_pane || quit {
        KeyAction::Quit
    } else if unix && pressed(keys.suspend@, press) {
        KeyAction::Suspend
    } else if pressed(keys.repaint@, press) {
        KeyAction::Repaint
    } else if pressed(keys.cycle_panes@, press) {
        KeyAction::CyclePanes
    } else if !glob && pressed(keys.open_search@, press) {
        KeyAction::OpenSearch
    } else if !glob && pressed(keys.toggle_help@, press) {
        KeyAction::ToggleHelp
    } else if !glob && pressed(keys.quit_immediately@, press) {
        KeyAction::QuitImmediately
    } else {
        match focussed {
            FocussedPane::Mark => KeyAction::MarkPane,
            FocussedPane::Help => KeyAction::HelpPane,
            FocussedPane::Glob => if pressed(keys.search_confirm@, press) { KeyAction::SearchConfirm } else { KeyAction::SearchInput },
            FocussedPane::Main => main_pane_action(keys, press),
        }
    }
}

/// Every action is the answer only to a press of its own binding, in the pane it belongs to;
/// and a press in the main pane that matches one of the main pane's bindings is never ignored.
pub proof fn law_actions_answer_their_own_bindings(keys: KeysConfig, focussed: FocussedPane, press: KeyPress, unix: bool)
    ensures
        ({
            let a = key_action_spec(keys, focussed, press, unix);
            let main = focussed == FocussedPane::Main;
            &&& a == KeyAction::NavigateBack ==> keys.esc_navigates_back && main && pressed(keys.close_pane@, press)
            &&& a == KeyAction::Quit ==> pressed(keys.close_pane@, press) || (focussed != FocussedPane::Glob && pressed(keys.quit@, press))
            &&& a == KeyAction::Suspend ==> unix && pressed(keys.suspend@, press)
            &&& a == KeyAction::Repaint ==> pressed(keys.repaint@, press)
            &&& a == KeyAction::CyclePanes ==> pressed(keys.cycle_panes@, press)
            &&& a == KeyAction::OpenSearch ==> focussed != FocussedPane::Glob && pressed(keys.open_search@, press)
            &&& a == KeyAction::ToggleHelp ==> focussed != FocussedPane::Glob && pressed(keys.toggle_help@, press)
            &&& a == KeyAction::QuitImmediately ==> focussed != FocussedPane::Glob && pressed(keys.quit_immediately@, press)
            &&& a == KeyAction::MarkPane ==> focussed == FocussedPane::Mark
            &&& a == KeyAction::HelpPane ==> focussed == FocussedPane::Help
            &&& a == KeyAction::SearchConfirm ==> focussed == FocussedPane::Glob && pressed(keys.search_confirm@, press)
            &&& a == KeyAction::SearchInput ==> focussed == FocussedPane::Glob && !pressed(keys.search_confirm@, press)
            &&& a == KeyAction::OpenEntry ==> main && pressed(keys.open_entry@, press)
            &&& a == KeyAction::ToggleMark ==> main && pressed(keys.toggle_mark@, press)
            &&& a == KeyAction::MarkForDeletion ==> main && pressed(keys.mark_for_deletion@, press)
            &&& a == KeyAction::ToggleAll ==> main && pressed(keys.toggle_all@, press)
            &&& a == KeyAction::ToggleCleanup ==> main && pressed(keys.toggle_cleanup@, press)
            &&& a == KeyAction::MarkCleanup ==> main && pressed(keys.mark_cleanup@, press)
            &&& a == KeyAction::ToggleGitignore ==> main && pressed(keys.toggle_gitignore@, press)
            &&& a == KeyAction::MarkGitignore ==> main && pressed(keys.mark_gitignore@, press)
            &&& a == KeyAction::Descend ==> main && pressed(keys.descend@, press)
            &&& a == KeyAction::RefreshSelected ==> main && pressed(keys.refresh_selected@, press)
            &&& a == KeyAction::RefreshAll ==> main && pressed(keys.refresh_all@, press)
            &&& a == KeyAction::Move(CursorDirection::ToTop) ==> main && pressed(keys.move_to_top@, press)
            &&& a == KeyAction::Move(CursorDirection::ToBottom) ==> main && pressed(keys.move_to_bottom@, press)
            &&& a == KeyAction::Move(CursorDirection::PageUp) ==> main && pressed(keys.page_up@, press)
            &&& a == KeyAction::Move(CursorDirection::Up) ==> main && pressed(keys.move_up@, press)
            &&& a == KeyAction::Move(CursorDirection::Down) ==> main && pressed(keys.move_down@, press)
            &&& a == KeyAction::Move(CursorDirection::PageDown) ==> main && pressed(keys.page_down@, press)
            &&& a == KeyAction::SortBySize ==> main && pressed(keys.sort_by_size@, press)
            &&& a == KeyAction::SortByMtime ==> main && pressed(keys.sort_by_mtime@, press)
            &&& a == KeyAction::CycleMtimeMode ==> main && pressed(keys.cycle_mtime_mode@, press)
            &&& a == KeyAction::SortByCount ==> main && pressed(keys.sort_by_count@, press)
            &&& a == KeyAction::ToggleCountColumn ==> main && pressed(keys.toggle_count_column@, press)
            &&& a == KeyAction::SortByName ==> main && pressed(keys.sort_by_name@, press)
            &&& a == KeyAction::CycleVisualization ==> main && pressed(keys.cycle_visualization@, press)
            &&& a == KeyAction::ToggleMarkAndMoveDown ==> main && pressed(keys.toggle_mark_and_move_down@, press)
            &&& a == KeyAction::ScanParent ==> main && pressed(keys.scan_parent@, press)
            &&& a == KeyAction::Ascend ==> main && pressed(keys.ascend@, press)
            &&& a == KeyAction::Ignore ==> main
                && !pressed(keys.open_entry@, press) && !pressed(keys.toggle_mark@, press)
                && !pressed(keys.mark_for_deletion@, press) && !pressed(keys.toggle_all@, press)
                && !pressed(keys.toggle_cleanup@, press) && !pressed(keys.mark_cleanup@, press)
                && !pressed(keys.toggle_gitignore@, press) && !pressed(keys.mark_gitignore@, press)
                && !pressed(keys.descend@, press) && !pressed(keys.refresh_selected@, press)
                && !pressed(keys.refresh_all@, press) && !pressed(keys.move_to_top@, press)
                && !pressed(keys.move_to_bottom@, press) && !pressed(keys.page_up@, press)
                && !pressed(keys.move_up@, press) && !pressed(keys.move_down@, press)
                && !pressed(keys.page_down@, press) && !pressed(keys.sort_by_size@, press)
                && !pressed(keys.sort_by_mtime@, press) && !pressed(keys.cycle_mtime_mode@, press)
                && !pressed(keys.sort_by_count@, press) && !pressed(keys.toggle_count_column@, press)
                && !pressed(keys.sort_by_name@, press) && !pressed(keys.cycle_visualization@, press)
                && !pressed(keys.toggle_mark_and_move_down@, press) && !pressed(keys.scan_parent@, press)
                && !pressed(keys.ascend@, press)
        }),
{
}

fn movement_of(keys: &KeysConfig, press: KeyPress) -> (r: Option<CursorDirection>)
    ensures
        r == movement(*keys, press),
{
    if keys.move_to_top.matches(press) { Some(CursorDirection::ToTop) }
    else if keys.move_to_bottom.matches(press) { Some(CursorDirection::ToBottom) }
    else if keys.page_up.matches(press) { Some(CursorDirection::PageUp) }
    else if keys.move_up.matches(press) { Some(CursorDirection::Up) }
    else if keys.move_down.matches(press) { Some(CursorDirection::Down) }
    else if keys.page_down.matches(press) { Some(CursorDirection::PageDown) }
    else { None }
}

fn main_pane_action_of(keys: &KeysConfig, press: KeyPress) -> (r: KeyAction)
    ensures
        r == main_pane_action(*keys, press),
{
    if keys.open_entry.matches(press) { return KeyAction::OpenEntry; }
    if keys.toggle_mark.matches(press) { return KeyAction::ToggleMark; }
    if keys.mark_for_deletion.matches(press) { return KeyAction::MarkForDeletion; }
    if keys.toggle_all.matches(press) { return KeyAction::ToggleAll; }
    if keys.toggle_cleanup.matches(press) { return KeyAction::ToggleCleanup; }
    if keys.mark_cleanup.matches(press) { return KeyAction::MarkCleanup; }
    if keys.toggle_gitignore.matches(press) { return KeyAction::ToggleGitignore; }
    if keys.mark_gitignore.matches(press) { return KeyAction::MarkGitignore; }
    if keys.descend.matches(press) { return KeyAction::Descend; }
    if keys.refresh_selected.matches(press) { return KeyAction::RefreshSelected; }
    if keys.refresh_all.matches(press) { return KeyAction::RefreshAll; }
    if let Some(direction) = movement_of(keys, press) { return KeyAction::Move(direction); }
    if keys.sort_by_size.matches(press) { return KeyAction::SortBySize; }
    if keys.sort_by_mtime.matches(press) { return KeyAction::SortByMtime; }
    if keys.cycle_mtime_mode.matches(press) { return KeyAction::CycleMtimeMode; }
    if keys.sort_by_count.matches(press) { return KeyAction::SortByCount; }
    if keys.toggle_count_column.matches(press) { return KeyAction::ToggleCountColumn; }
    if keys.sort_by_name.matches(press) { return KeyAction::SortByName; }
    if keys.cycle_visualization.matches(press) { return KeyAction::CycleVisualization; }
    if keys.toggle_mark_and_move_down.matches(press) { return KeyAction::ToggleMarkAndMoveDown; }
    if keys.scan_parent.matches(press) { return KeyAction::ScanParent; }
    if keys.ascend.matches(press) { return KeyAction::Ascend; }
    KeyAction::Ignore
}

/// What `press` does with `focussed` focussed; see [`key_action_spec`].
pub fn key_action(keys: &KeysConfig, focussed: FocussedPane, press: KeyPress, unix: bool) -> (r: KeyAction)
    ensures
        r == key_action_spec(*keys, focussed, press, unix),
{
    let glob = focussed == FocussedPane::Glob;
    let close_pane = keys.close_pane.matches(press);
    let quit = !glob && keys.quit.matches(press);
    if keys.esc_navigates_back && close_pane && focussed == FocussedPane::Main {
        return KeyAction::NavigateBack;
    }
    if close_pane || quit {
        return KeyAction::Quit;
    }
    if unix && keys.suspend.matches(press) {
        return KeyAction::Suspend;
    }
    if keys.repaint.matches(press) {
        return KeyAction::Repaint;
    }
    if keys.cycle_panes.matches(press) {
        return KeyAction::CyclePanes;
    }
    if !glob && keys.open_search.matches(press) {
        return KeyAction::OpenSearch;
    }
    if !glob && keys.toggle_help.matches(press) {
        return KeyAction::ToggleHelp;
    }
    if !glob && keys.quit_immediately.matches(press) {
        return KeyAction::QuitImmediately;
    }
    match focussed {
        FocussedPane::Mark => KeyAction::MarkPane,
        FocussedPane::Help => KeyAction::HelpPane,
        FocussedPane::Glob => if keys.search_confirm.matches(press) { KeyAction::SearchConfirm } else { KeyAction::SearchInput },
        FocussedPane::Main => main_pane_action_of(keys, press),
    }
}

/// The key press the browser sends itself to redraw: alt and a carriage return.
pub open spec fn refresh_press() -> KeyPress {
    KeyPress { code: Key::Char('\r'), modifiers: ALT }
}

/// Whether a key press counts as the user's own input: any but the redraw the browser sends
/// itself and the repaint key.
pub fn is_user_input(keys: &KeysConfig, press: KeyPress) -> (r: bool)
    ensures
        r == (press != refresh_press() && !pressed(keys.repaint@, press)),
{
    let is_refresh = match press.code {
        Key::Char(c) => c == '\r' && press.modifiers == ALT,
        _ => false,
    };
    !is_refresh && !keys.repaint.matches(press)
}


/// What a key press does while the cleanup hub is shown.
#[derive(Clone, Copy, Debug, PartialEq, Eq, Structural)]
pub enum CleanKeyAction {
    /// The hub does not handle the key; the browser does.
    NotHandled,
    /// The hub takes the key and does nothing with it.
    Swallow,
    /// Leave the opened candidate and return to the list of candidates.
    CloseCandidate,
    /// Move the selection among candidates.
    Move(CursorDirection),
    /// Open the selected candidate.
    Descend,
    /// Refresh the selected candidate.
    RefreshSelected,
    /// Refresh all candidates.
    RefreshAll,
    /// Mark candidates: all of them or only the selected one, toggling or only marking, and
    /// then advancing the selection or not.
    Mark { all: bool, toggle: bool, advance: bool },
    /// Open the selected candidate externally.
    OpenEntry,
}

/// What the hub's state tells the key decision.
#[derive(Clone, Copy, Debug, PartialEq, Eq, Structural)]
pub struct HubState {
    /// Whether a candidate is opened, and whether the opened candidate is the viewed directory.
    pub opened: Option<bool>,
    /// Whether glob-search results are shown.
    pub searching: bool,
}

/// What `press` does while the cleanup hub is shown. With a candidate opened, only leaving it
/// from its own top level is the hub's; otherwise search is swallowed, other panes keep their
/// keys, and the main pane moves, opens, refreshes, marks and opens candidates, swallowing the
/// keys that do not apply to candidates.
pub open spec fn clean_key_action_spec(keys: KeysConfig, focussed: FocussedPane, hub: HubState, press: KeyPress) -> CleanKeyAction {
    match hub.opened {
        Some(viewing_candidate) => if focussed == FocussedPane::Main && !hub.searching && viewing_candidate
            && (pressed(keys.ascend@, press) || (keys.esc_navigates_back && pressed(keys.close_pane@, press))) {
            CleanKeyAction::CloseCandidate
        } else {
            CleanKeyAction::NotHandled
        },
        None => if pressed(keys.open_search@, press) {
            CleanKeyAction::Swallow
        } else if focussed != FocussedPane::Main {
            CleanKeyAction::NotHandled
        } else if movement(keys, press) is Some {
            CleanKeyAction::Move(movement(keys, press)->0)
        } else if pressed(keys.descend@, press) {
            CleanKeyAction::Descend
        } else if pressed(keys.refresh_selected@, press) {
            CleanKeyAction::RefreshSelected
        } else if pressed(keys.refresh_all@, press) {
            CleanKeyAction::RefreshAll
        } else if pressed(keys.toggle_mark@, press) || pressed(keys.mark_for_deletion@, press)
            || pressed(keys.toggle_mark_and_move_down@, press) || pressed(keys.toggle_all@, press)
            || pressed(keys.mark_cleanup@, press) {
            CleanKeyAction::Mark {
                all: pressed(keys.toggle_all@, press) || pressed(keys.mark_cleanup@, press),
                toggle: !pressed(keys.mark_for_deletion@, press) && !pressed(keys.mark_cleanup@, press),
                advance: pressed(keys.mark_for_deletion@, press) || pressed(keys.toggle_mark_and_move_down@, press),
            }
        } else if pressed(keys.open_entry@, press) {
            CleanKeyAction::OpenEntry
        } else if !(pressed(keys.sort_by_size@, press) || pressed(keys.sort_by_name@, press)
            || pressed(keys.sort_by_mtime@, press) || pressed(keys.sort_by_count@, press)
            || pressed(keys.cycle_mtime_mode@, press) || pressed(keys.toggle_count_column@, press)
            || pressed(keys.cycle_visualization@, press) || pressed(keys.toggle_cleanup@, press)
            || pressed(keys.toggle_gitignore@, press) || pressed(keys.mark_gitignore@, press)
            || pressed(keys.scan_parent@, press) || pressed(keys.ascend@, press)) {
            CleanKeyAction::NotHandled
        } else {
            CleanKeyAction::Swallow
        },
    }
}

/// What `press` does while the cleanup hub is shown; see [`clean_key_action_spec`].
pub fn clean_key_action(keys: &KeysConfig, focussed: FocussedPane, hub: HubState, press: KeyPress) -> (r: CleanKeyAction)
    ensures
        r == clean_key_action_spec(*keys, focussed, hub, press),
{
    match hub.opened {
        Some(viewing_candidate) => {
            if focussed == FocussedPane::Main && !hub.searching && viewing_candidate
                && (keys.ascend.matches(press) || (keys.esc_navigates_back && keys.close_pane.matches(press))) {
                CleanKeyAction::CloseCandidate
            } else {
                CleanKeyAction::NotHandled
            }
        },
        None => {
            if keys.open_search.matches(press) {
                return CleanKeyAction::Swallow;
            }
            if focussed != FocussedPane::Main {
                return CleanKeyAction::NotHandled;
            }
            if let Some(direction) = movement_of(keys, press) {
                return CleanKeyAction::Move(direction);
            }
            if keys.descend.matches(press) {
                return CleanKeyAction::Descend;
            }
            if keys.refresh_selected.matches(press) {
                return CleanKeyAction::RefreshSelected;
            }
            if keys.refresh_all.matches(press) {
                return CleanKeyAction::RefreshAll;
            }
            let toggle_mark = keys.toggle_mark.matches(press);
            let mark_for_deletion = keys.mark_for_deletion.matches(press);
            let and_move_down = keys.toggle_mark_and_move_down.matches(press);
            let toggle_all = keys.toggle_all.matches(press);
            let mark_cleanup = keys.mark_cleanup.matches(press);
            if toggle_mark || mark_for_deletion || and_move_down || toggle_all || mark_cleanup {
                return CleanKeyAction::Mark {
                    all: toggle_all || mark_cleanup,
                    toggle: !mark_for_deletion && !mark_cleanup,
                    advance: mark_for_deletion || and_move_down,
                };
            }
            if keys.open_entry.matches(press) {
                return CleanKeyAction::OpenEntry;
            }
            let inapplicable = keys.sort_by_size.matches(press) || keys.sort_by_name.matches(press)
                || keys.sort_by_mtime.matches(press) || keys.sort_by_count.matches(press)
                || keys.cycle_mtime_mode.matches(press) || keys.toggle_count_column.matches(press)
                || keys.cycle_visualization.matches(press) || keys.toggle_cleanup.matches(press)
                || keys.toggle_gitignore.matches(press) || keys.mark_gitignore.matches(press)
                || keys.scan_parent.matches(press) || keys.ascend.matches(press);
            if !inapplicable {
                CleanKeyAction::NotHandled
            } else {
                CleanKeyAction::Swallow
            }
        },
    }
}

/// The selection among `rows` candidates after a movement: moved, and then no further than the
/// last candidate.
pub fn hub_selection_after(selected: usize, direction: CursorDirection, rows: usize) -> (r: usize)
    ensures
        r == (if moved(direction, selected) < (if rows == 0 { 0 } else { rows - 1 }) { moved(direction, selected) } else { (if rows == 0 { 0 } else { rows - 1 }) as usize }),
{
    let last = if rows == 0 { 0 } else { rows - 1 };
    let next = direction.move_cursor(selected);
    if next < last { next } else { last }
}

/// The state of the browser that decides whether the parent of the root can be scanned.
#[derive(Clone, Copy, Debug, PartialEq, Eq, Structural)]
pub struct BrowserState {
    /// Whether a snapshot is shown rather than the filesystem.
    pub read_only: bool,
    /// Whether the cleanup hub is shown.
    pub clean_hub: bool,
    /// Whether a scan is running.
    pub scanning: bool,
    /// Whether a deletion is running.
    pub deleting: bool,
    /// Whether glob-search results are shown.
    pub searching: bool,
    /// Whether the viewed directory is the root of the tree.
    pub at_tree_root: bool,
}

/// Whether the browser may look for a parent to scan: only at the root of the tree of a
/// filesystem scan that is idle, outside the cleanup hub and search results.
pub fn may_scan_parent(state: BrowserState) -> (r: bool)
    ensures
        r == !(state.read_only || state.clean_hub || state.scanning || state.deleting || state.searching || !state.at_tree_root),
{
    !(state.read_only || state.clean_hub || state.scanning || state.deleting || state.searching || !state.at_tree_root)
}

/// What asking to scan the parent leads to.
#[derive(Clone, Copy, Debug, PartialEq, Eq, Structural)]
pub enum ParentScan {
    /// A deletion is running and refuses changes.
    BlockedByDeletion,
    /// Snapshots cannot be rescanned.
    ReadOnly,
    /// A scan is already running.
    ScanRunning,
    /// There is no parent to scan: the top level is reached.
    TopLevel,
    /// The parent is scanned.
    Scan,
}

/// What asking to scan the parent leads to, given whether a parent was found to scan.
pub fn parent_scan(state: BrowserState, has_parent: bool) -> (r: ParentScan)
    ensures
        r == if state.deleting { ParentScan::BlockedByDeletion }
            else if state.read_only { ParentScan::ReadOnly }
            else if state.scanning { ParentScan::ScanRunning }
            else if !has_parent { ParentScan::TopLevel }
            else { ParentScan::Scan },
{
    if state.deleting {
        ParentScan::BlockedByDeletion
    } else if state.read_only {
        ParentScan::ReadOnly
    } else if state.scanning {
        ParentScan::ScanRunning
    } else if !has_parent {
        ParentScan::TopLevel
    } else {
        ParentScan::Scan
    }
}


/// Why a change of the tree is refused.
#[derive(Clone, Copy, Debug, PartialEq, Eq, Structural)]
pub enum Refusal {
    /// A deletion is running.
    DeletionRunning,
    /// Snapshots cannot be changed.
    ReadOnly,
    /// A scan is already running.
    ScanRunning,
}

/// Why refreshing is refused, if it is: a running deletion, a snapshot, or a running scan, in
/// this order.
pub fn refresh_refusal(state: BrowserState) -> (r: Option<Refusal>)
    ensures
        r == if state.deleting { Some(Refusal::DeletionRunning) }
            else if state.read_only { Some(Refusal::ReadOnly) }
            else if state.scanning { Some(Refusal::ScanRunning) }
            else { None },
{
    if state.deleting {
        Some(Refusal::DeletionRunning)
    } else if state.read_only {
        Some(Refusal::ReadOnly)
    } else if state.scanning {
        Some(Refusal::ScanRunning)
    } else {
        None
    }
}

/// What a refresh rescans.
#[derive(Clone, Copy, Debug, PartialEq, Eq, Structural)]
pub struct RefreshPlan {
    /// The node whose subtree is rescanned: the selected entry, or the viewed directory.
    pub index: usize,
    /// Whether the node itself is replaced, rather than only its children.
    pub replaces_node: bool,
    /// Whether every input root is rescanned, as when refreshing the top of several roots.
    pub all_roots: bool,
}

/// What refreshing the selected entry (`selected_only`) or the view rescans: the selection, if
/// there is one, or the viewed directory; the view's children are rescanned from all input roots
/// where the view is the root of several.
pub fn refresh_plan(selected_only: bool, selected: Option<usize>, view_root: usize, tree_root: usize, root_count: usize) -> (r: Option<RefreshPlan>)
    ensures
        r == if selected_only {
            match selected {
                Some(s) => Some(RefreshPlan { index: s, replaces_node: true, all_roots: false }),
                None => None,
            }
        } else {
            Some(RefreshPlan { index: view_root, replaces_node: false, all_roots: view_root == tree_root && root_count > 1 })
        },
{
    if selected_only {
        match selected {
            Some(s) => Some(RefreshPlan { index: s, replaces_node: true, all_roots: false }),
            None => None,
        }
    } else {
        Some(RefreshPlan { index: view_root, replaces_node: false, all_roots: view_root == tree_root && root_count > 1 })
    }
}

} // verus!
