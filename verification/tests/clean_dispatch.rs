use dua::browse::{CursorDirection, FocussedPane};
use dua::config::KeysConfig;
use dua::dispatch::{
    clean_key_action, hub_selection_after, may_scan_parent, parent_scan, refresh_plan, refresh_refusal, BrowserState,
    CleanKeyAction, HubState, ParentScan, RefreshPlan, Refusal,
};
use dua::keys::{Key, KeyPress, SHIFT};
use dua::navigation::{selection_after_parent_scan, EntryDataBundle};
use dua::timestamp::Timestamp;

fn press(c: char) -> KeyPress {
    KeyPress { code: Key::Char(c), modifiers: if c.is_ascii_uppercase() { SHIFT } else { 0 } }
}

const LIST: HubState = HubState { opened: None, searching: false };

#[test]
fn the_cleanup_hub_handles_candidate_keys() {
    let keys = KeysConfig::default();
    let main = FocussedPane::Main;
    assert_eq!(clean_key_action(&keys, main, LIST, press('j')), CleanKeyAction::Move(CursorDirection::Down));
    assert_eq!(clean_key_action(&keys, main, LIST, press('o')), CleanKeyAction::Descend);
    assert_eq!(clean_key_action(&keys, main, LIST, press('r')), CleanKeyAction::RefreshSelected);
    assert_eq!(clean_key_action(&keys, main, LIST, press('R')), CleanKeyAction::RefreshAll);
    assert_eq!(clean_key_action(&keys, main, LIST, press(' ')), CleanKeyAction::Mark { all: false, toggle: true, advance: false });
    assert_eq!(clean_key_action(&keys, main, LIST, press('x')), CleanKeyAction::Mark { all: false, toggle: false, advance: true });
    assert_eq!(clean_key_action(&keys, main, LIST, press('a')), CleanKeyAction::Mark { all: true, toggle: true, advance: false });
    assert_eq!(clean_key_action(&keys, main, LIST, press('X')), CleanKeyAction::Mark { all: true, toggle: false, advance: false });
    assert_eq!(clean_key_action(&keys, main, LIST, press('O')), CleanKeyAction::OpenEntry);
    assert_eq!(clean_key_action(&keys, main, LIST, press('s')), CleanKeyAction::Swallow);
    assert_eq!(clean_key_action(&keys, main, LIST, press('u')), CleanKeyAction::Swallow);
    assert_eq!(clean_key_action(&keys, main, LIST, press('/')), CleanKeyAction::Swallow);
    assert_eq!(clean_key_action(&keys, main, LIST, press('q')), CleanKeyAction::NotHandled);
    assert_eq!(clean_key_action(&keys, FocussedPane::Help, LIST, press('j')), CleanKeyAction::NotHandled);
    assert_eq!(clean_key_action(&keys, FocussedPane::Help, LIST, press('/')), CleanKeyAction::Swallow);
}

#[test]
fn an_opened_candidate_closes_only_from_its_top_level() {
    let keys = KeysConfig::default();
    let esc = KeyPress { code: Key::Esc, modifiers: 0 };
    let at_top = HubState { opened: Some(true), searching: false };
    let below = HubState { opened: Some(false), searching: false };
    assert_eq!(clean_key_action(&keys, FocussedPane::Main, at_top, press('u')), CleanKeyAction::CloseCandidate);
    assert_eq!(clean_key_action(&keys, FocussedPane::Main, at_top, esc), CleanKeyAction::CloseCandidate);
    assert_eq!(clean_key_action(&keys, FocussedPane::Main, below, press('u')), CleanKeyAction::NotHandled);
    assert_eq!(clean_key_action(&keys, FocussedPane::Main, at_top, press('j')), CleanKeyAction::NotHandled);
    let searching = HubState { opened: Some(true), searching: true };
    assert_eq!(clean_key_action(&keys, FocussedPane::Main, searching, press('u')), CleanKeyAction::NotHandled);
}

#[test]
fn hub_selection_stays_among_the_candidates() {
    assert_eq!(hub_selection_after(0, CursorDirection::Down, 3), 1);
    assert_eq!(hub_selection_after(2, CursorDirection::Down, 3), 2);
    assert_eq!(hub_selection_after(1, CursorDirection::ToBottom, 3), 2);
    assert_eq!(hub_selection_after(1, CursorDirection::PageUp, 3), 0);
    assert_eq!(hub_selection_after(0, CursorDirection::Down, 0), 0);
}

const IDLE: BrowserState =
    BrowserState { read_only: false, clean_hub: false, scanning: false, deleting: false, searching: false, at_tree_root: true };

#[test]
fn parent_scans_and_refreshes_need_an_idle_filesystem_view() {
    assert!(may_scan_parent(IDLE));
    assert!(!may_scan_parent(BrowserState { at_tree_root: false, ..IDLE }));
    assert!(!may_scan_parent(BrowserState { clean_hub: true, ..IDLE }));
    assert!(!may_scan_parent(BrowserState { searching: true, ..IDLE }));
    assert_eq!(parent_scan(IDLE, true), ParentScan::Scan);
    assert_eq!(parent_scan(IDLE, false), ParentScan::TopLevel);
    assert_eq!(parent_scan(BrowserState { scanning: true, read_only: true, ..IDLE }, true), ParentScan::ReadOnly);
    assert_eq!(parent_scan(BrowserState { scanning: true, deleting: true, ..IDLE }, true), ParentScan::BlockedByDeletion);
    assert_eq!(parent_scan(BrowserState { scanning: true, ..IDLE }, false), ParentScan::ScanRunning);
    assert_eq!(refresh_refusal(IDLE), None);
    assert_eq!(refresh_refusal(BrowserState { read_only: true, scanning: true, ..IDLE }), Some(Refusal::ReadOnly));
    assert_eq!(refresh_refusal(BrowserState { scanning: true, ..IDLE }), Some(Refusal::ScanRunning));
    assert_eq!(refresh_refusal(BrowserState { deleting: true, read_only: true, ..IDLE }), Some(Refusal::DeletionRunning));
}

#[test]
fn refreshes_rescan_the_selection_or_the_view() {
    assert_eq!(refresh_plan(true, Some(4), 1, 0, 2), Some(RefreshPlan { index: 4, replaces_node: true, all_roots: false }));
    assert_eq!(refresh_plan(true, None, 1, 0, 2), None);
    assert_eq!(refresh_plan(false, Some(4), 1, 0, 2), Some(RefreshPlan { index: 1, replaces_node: false, all_roots: false }));
    assert_eq!(refresh_plan(false, Some(4), 0, 0, 2), Some(RefreshPlan { index: 0, replaces_node: false, all_roots: true }));
    assert_eq!(refresh_plan(false, None, 0, 0, 1), Some(RefreshPlan { index: 0, replaces_node: false, all_roots: false }));
}

fn listed(index: usize) -> EntryDataBundle {
    EntryDataBundle {
        index,
        name: format!("e{index}"),
        size: 0,
        mtime: Timestamp { seconds: 0, nanos: 0 },
        entry_count: None,
        is_dir: false,
        exists: true,
    }
}

#[test]
fn parent_scans_keep_a_sensible_selection() {
    let entries = vec![listed(5), listed(6)];
    assert_eq!(selection_after_parent_scan(true, 9, Some(6), &vec![6], &entries), Some(9));
    assert_eq!(selection_after_parent_scan(false, 9, Some(6), &vec![6], &entries), Some(6));
    assert_eq!(selection_after_parent_scan(false, 9, Some(7), &vec![6], &entries), Some(5));
    assert_eq!(selection_after_parent_scan(false, 9, None, &vec![6], &vec![]), None);
}
