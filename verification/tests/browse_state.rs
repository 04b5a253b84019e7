use dua::browse::{
    fill_background_to_right, ByteVisualization, CursorDirection, EntryCheck, MTimeSort, ReactList, SortMode,
};

#[test]
fn sort_toggles_flip_direction_and_start_with_the_default() {
    let mut mode = SortMode::default();
    assert_eq!(mode, SortMode::SizeDescending);
    mode.toggle_size();
    assert_eq!(mode, SortMode::SizeAscending);
    mode.toggle_size();
    assert_eq!(mode, SortMode::SizeDescending);
    mode.toggle_mtime();
    assert_eq!(mode, SortMode::MTimeDescending(MTimeSort::Entry));
    mode.cycle_mtime_sort();
    assert_eq!(mode, SortMode::MTimeDescending(MTimeSort::RecursiveChildrenNewest));
    mode.toggle_mtime();
    assert_eq!(mode, SortMode::MTimeAscending(MTimeSort::RecursiveChildrenNewest));
    assert_eq!(mode.mtime_sort(), Some(MTimeSort::RecursiveChildrenNewest));
    mode.cycle_mtime_sort();
    mode.cycle_mtime_sort();
    assert_eq!(mode, SortMode::MTimeAscending(MTimeSort::Entry));
    mode.toggle_count();
    assert_eq!(mode, SortMode::CountDescending);
    assert_eq!(mode.mtime_sort(), None);
    mode.cycle_mtime_sort();
    assert_eq!(mode, SortMode::CountDescending);
    mode.toggle_count();
    assert_eq!(mode, SortMode::CountAscending);
    mode.toggle_name();
    assert_eq!(mode, SortMode::NameAscending);
    mode.toggle_name();
    assert_eq!(mode, SortMode::NameDescending);
    assert_eq!(MTimeSort::RecursiveChildrenOldest.cycle(), MTimeSort::Entry);
}

#[test]
fn visualizations_cycle_and_entry_checks_wait_for_scans() {
    let mut visualization = ByteVisualization::default();
    let mut seen = vec![visualization];
    for _ in 0..4 {
        visualization.cycle();
        seen.push(visualization);
    }
    assert_eq!(
        seen,
        vec![
            ByteVisualization::PercentageAndBar,
            ByteVisualization::Percentage,
            ByteVisualization::Bar,
            ByteVisualization::LongBar,
            ByteVisualization::PercentageAndBar,
        ]
    );
    assert_eq!(EntryCheck::new(false, true), EntryCheck::PossiblyCostlyLstat);
    assert_eq!(EntryCheck::new(true, true), EntryCheck::Disabled);
    assert_eq!(EntryCheck::new(false, false), EntryCheck::Disabled);
}

#[test]
fn cursor_movements_saturate() {
    assert_eq!(CursorDirection::Down.move_cursor(3), 4);
    assert_eq!(CursorDirection::Down.move_cursor(usize::MAX), usize::MAX);
    assert_eq!(CursorDirection::Up.move_cursor(0), 0);
    assert_eq!(CursorDirection::PageDown.move_cursor(5), 15);
    assert_eq!(CursorDirection::PageDown.move_cursor(usize::MAX - 3), usize::MAX);
    assert_eq!(CursorDirection::PageUp.move_cursor(7), 0);
    assert_eq!(CursorDirection::PageUp.move_cursor(27), 17);
    assert_eq!(CursorDirection::ToTop.move_cursor(9), 0);
    assert_eq!(CursorDirection::ToBottom.move_cursor(9), usize::MAX);
}

#[test]
fn rows_are_padded_to_the_terminal_width_in_bytes() {
    assert_eq!(fill_background_to_right("ab".to_string(), 5), "ab   ");
    assert_eq!(fill_background_to_right("äb".to_string(), 5), "äb  ");
    assert_eq!(fill_background_to_right("abcdef".to_string(), 3), "abcdef");
}

#[test]
fn lists_scroll_just_enough_to_show_the_selection() {
    let mut list = ReactList { start_index: 0 };
    list.update_start_index(Some(12), 5);
    assert_eq!(list.start_index, 8);
    list.update_start_index(Some(10), 5);
    assert_eq!(list.start_index, 8);
    list.update_start_index(Some(3), 5);
    assert_eq!(list.start_index, 3);
    list.update_start_index(None, 5);
    assert_eq!(list.start_index, 0);
}

#[test]
fn without_a_selection_any_list_starts_at_its_top() {
    let mut list = ReactList { start_index: usize::MAX };
    list.update_start_index(None, 0);
    assert_eq!(list.start_index, 0);
    let mut list = ReactList { start_index: usize::MAX - 1 };
    list.update_start_index(None, 7);
    assert_eq!(list.start_index, 0);
}
