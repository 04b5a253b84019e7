use dua::browse::CursorDirection;
use dua::browse::{MTimeSort, SortMode};
use dua::listing::sorted_order;
use dua::deletion::{ancestor_losses, removal_roots, repair_removed_navigation, Forest};
use dua::navigation::{restored_selection, EntryDataBundle, Navigation, SelectionUpdate};
use dua::timestamp::Timestamp;
use dua::walk::{DirectoryId, Options, Order};
use std::collections::BTreeMap;

fn entry(index: usize, name: &str) -> EntryDataBundle {
    EntryDataBundle {
        index,
        name: name.to_string(),
        size: 0,
        mtime: Timestamp { seconds: 0, nanos: 0 },
        entry_count: None,
        is_dir: false,
        exists: true,
    }
}

fn navigation() -> Navigation {
    Navigation { tree_root: 0, view_root: 0, selected: None, bookmarks: BTreeMap::new() }
}

#[test]
fn cursor_movements_clamp_to_the_listing() {
    let entries = vec![entry(10, "a"), entry(11, "b"), entry(12, "c")];
    let mut nav = navigation();
    assert_eq!(nav.next_index(CursorDirection::Down, &entries), Some(10));
    nav.selected = Some(11);
    assert_eq!(nav.next_index(CursorDirection::Down, &entries), Some(12));
    assert_eq!(nav.next_index(CursorDirection::PageDown, &entries), Some(12));
    assert_eq!(nav.next_index(CursorDirection::Up, &entries), Some(10));
    assert_eq!(nav.next_index(CursorDirection::ToBottom, &entries), Some(12));
    assert_eq!(nav.next_index(CursorDirection::Down, &vec![]), Some(11));
}

#[test]
fn entering_and_leaving_restores_the_selection() {
    let entries = vec![entry(10, "a"), entry(11, "b")];
    let mut nav = navigation();
    nav.select(Some(11));
    nav.enter_node(11, 20);
    assert_eq!((nav.view_root, nav.selected), (11, Some(20)));
    nav.exit_node(0, &entries);
    assert_eq!((nav.view_root, nav.selected), (0, Some(11)));
    assert_eq!(nav.previously_selected_index(0, &entries), Some(11));
    assert_eq!(nav.previously_selected_index(5, &entries), Some(10));
    assert_eq!(nav.previously_selected_index(5, &vec![]), None);
}

#[test]
fn selection_is_restored_by_name_then_position() {
    let entries = vec![entry(10, "a"), entry(11, "b")];
    assert_eq!(restored_selection(&entries, &Some(("b".to_string(), 0)), false), SelectionUpdate::Select(Some(11)));
    assert_eq!(restored_selection(&entries, &Some(("zz".to_string(), 0)), false), SelectionUpdate::Select(Some(10)));
    assert_eq!(restored_selection(&entries, &Some(("zz".to_string(), 9)), false), SelectionUpdate::Keep);
    assert_eq!(restored_selection(&entries, &None, true), SelectionUpdate::Select(Some(10)));
    assert_eq!(restored_selection(&vec![], &None, true), SelectionUpdate::Select(None));
}

fn forest() -> Forest {
    // 0 is the root; 1 and 2 are its children; 3 is below 1; 4 is below 3.
    Forest { parent: vec![None, Some(0), Some(0), Some(1), Some(3)], depth: vec![0, 1, 1, 2, 3] }
}

#[test]
fn removed_directories_subsume_their_removed_descendants() {
    let f = forest();
    let removed = vec![false, true, false, true, true];
    assert_eq!(removal_roots(&f, &removed), vec![false, true, false, false, false]);
    let removed = vec![false, false, true, false, true];
    assert_eq!(removal_roots(&f, &removed), vec![false, false, true, false, true]);
}

#[test]
fn ancestors_lose_the_size_and_entries_of_removals() {
    let f = forest();
    let roots = vec![false, false, true, false, true];
    let sizes = vec![100, 60, 30, 10, 4];
    let counts = vec![Some(4), Some(2), None, Some(1), None];
    let losses = ancestor_losses(&f, &roots, &sizes, &counts);
    assert_eq!(losses.bytes, vec![34, 4, 0, 4, 0]);
    assert_eq!(losses.entries, vec![2, 1, 0, 1, 0]);
    assert_eq!(losses.bytes_removed, 34);
}

#[test]
fn walk_options_and_directory_ids() {
    let options = Options::default().skip_metadata();
    assert!(options.skip_metadata);
    assert!(!options.apfs_clone_metadata);
    assert_eq!(DirectoryId::new(0).index(), 0);
    assert_eq!(DirectoryId::new(41).index(), 41);
    assert_ne!(Order::Completion, Order::ParentFirst);
}

fn listed(name: &str, size: u128, seconds: i64, entry_count: Option<u64>, is_dir: bool) -> EntryDataBundle {
    EntryDataBundle {
        index: 0,
        name: name.to_string(),
        size,
        mtime: Timestamp { seconds, nanos: 0 },
        entry_count,
        is_dir,
        exists: true,
    }
}

#[test]
fn listings_sort_stably_in_every_mode() {
    let entries = vec![
        listed("b", 10, 30, Some(2), false),
        listed("a", 20, 10, None, true),
        listed("c", 10, 20, Some(2), true),
        listed("d", 5, 20, Some(1), false),
    ];
    assert_eq!(sorted_order(&entries, SortMode::SizeDescending), vec![1, 0, 2, 3]);
    assert_eq!(sorted_order(&entries, SortMode::SizeAscending), vec![3, 0, 2, 1]);
    assert_eq!(sorted_order(&entries, SortMode::MTimeAscending(MTimeSort::Entry)), vec![1, 2, 3, 0]);
    assert_eq!(sorted_order(&entries, SortMode::MTimeDescending(MTimeSort::Entry)), vec![0, 2, 3, 1]);
    assert_eq!(sorted_order(&entries, SortMode::CountAscending), vec![1, 3, 0, 2]);
    assert_eq!(sorted_order(&entries, SortMode::CountDescending), vec![2, 0, 3, 1]);
    assert_eq!(sorted_order(&entries, SortMode::NameAscending), vec![1, 2, 0, 3]);
    assert_eq!(sorted_order(&entries, SortMode::NameDescending), vec![3, 0, 2, 1]);
    assert_eq!(sorted_order(&vec![], SortMode::NameDescending), Vec::<usize>::new());
}

#[test]
fn paths_sort_by_component() {
    let entries = vec![listed("a-b", 0, 0, None, false), listed("a/b", 0, 0, None, false)];
    assert_eq!(sorted_order(&entries, SortMode::NameAscending), vec![1, 0]);
}

fn navigation_at(view_root: usize, selected: Option<usize>, bookmarks: &[(usize, usize)]) -> Navigation {
    Navigation { tree_root: 0, view_root, selected, bookmarks: bookmarks.iter().copied().collect() }
}

#[test]
fn navigation_leaves_removed_directories() {
    let f = forest();
    let removed = vec![false, true, false, false, false];
    let mut nav = navigation_at(3, Some(4), &[(0, 1), (1, 3), (2, 9), (9, 4), (0, 2)]);
    let mut matches = vec![];
    repair_removed_navigation(&mut nav, &mut matches, &f, &removed);
    assert_eq!(nav.view_root, 0);
    assert_eq!(nav.selected, None);
    assert_eq!(nav.bookmarks.into_iter().collect::<Vec<_>>(), vec![(0, 2), (2, 9)]);

    let mut nav = navigation_at(2, Some(2), &[]);
    repair_removed_navigation(&mut nav, &mut matches, &f, &removed);
    assert_eq!((nav.view_root, nav.selected), (2, Some(2)));
}

#[test]
fn removed_search_results_return_to_the_tree_root() {
    let f = forest();
    let removed = vec![false, false, false, true, false];
    let mut nav = navigation_at(4, Some(4), &[]);
    let mut matches = vec![2, 4];
    repair_removed_navigation(&mut nav, &mut matches, &f, &removed);
    assert_eq!(nav.view_root, 0);
    assert_eq!(matches, vec![2]);

    let mut nav = navigation_at(4, Some(4), &[]);
    repair_removed_navigation(&mut nav, &mut matches, &f, &removed);
    assert_eq!(nav.view_root, 1);

    let mut nav = navigation_at(3, None, &[]);
    let mut matches = vec![3, 4];
    repair_removed_navigation(&mut nav, &mut matches, &f, &removed);
    assert_eq!(nav.view_root, 0);
    assert!(matches.is_empty());
}
