use dua::diff::{
    change_line, context_line, diff_step, Advance, Change, DecodedEntry, KeyOrder, Side, SnapshotCursor, Summary,
    SummaryEntry, TreeLine, TreeState,
};
use dua::format::ByteFormat;

fn decoded(depth: usize, name: &str, size: u128, is_dir: bool) -> DecodedEntry {
    DecodedEntry {
        depth,
        name: name.to_string(),
        native_name: name.as_bytes().to_vec(),
        sibling_ordinal: 0,
        size,
        is_dir,
    }
}

fn cursor_at(entries: &[DecodedEntry]) -> SnapshotCursor {
    let mut cursor = SnapshotCursor::new();
    for e in entries {
        cursor.advance_to(Some(e.clone())).unwrap();
    }
    cursor
}

#[test]
fn cursors_track_keys_and_paths() {
    let cursor = cursor_at(&[decoded(0, "root", 30, true), decoded(1, "a", 10, true), decoded(2, "x", 5, false), decoded(1, "b", 20, false)]);
    assert_eq!(cursor.root_ordinal, 0);
    assert_eq!(cursor.roots_seen, 1);
    assert_eq!(cursor.path, vec!["root".to_string(), "b".to_string()]);
    assert_eq!(cursor.key.len(), 2);
    let next_root = cursor_at(&[decoded(0, "one", 1, true), decoded(0, "two", 1, true)]);
    assert_eq!(next_root.root_ordinal, 1);
    assert_eq!(next_root.path, vec!["two".to_string()]);
}

#[test]
fn identical_snapshots_have_no_changes() {
    let entries = [decoded(0, "root", 30, true), decoded(1, "a", 10, false)];
    let old = cursor_at(&entries);
    let new = cursor_at(&entries);
    assert_eq!(old.cmp_key(&new), KeyOrder::Equal);
    let step = diff_step(&old, &new, false);
    assert!(step.changes.is_empty());
    assert_eq!((step.old_advance, step.new_advance, step.done), (Advance::Next, Advance::Next, false));
}

#[test]
fn entries_on_one_side_are_added_or_removed() {
    let old = cursor_at(&[decoded(0, "root", 30, true), decoded(1, "a", 10, false)]);
    let new = cursor_at(&[decoded(0, "root", 30, true), decoded(1, "b", 10, false)]);
    assert_eq!(old.cmp_key(&new), KeyOrder::Less);
    let step = diff_step(&old, &new, false);
    assert_eq!(step.changes, vec![(Change::Removed(10), Side::Old)]);
    assert_eq!((step.old_advance, step.new_advance), (Advance::PastCurrent, Advance::Stay));
    let step = diff_step(&new, &old, false);
    assert_eq!(step.changes, vec![(Change::Added(10), Side::New)]);
    let files_only = diff_step(&old, &new, true);
    assert!(files_only.changes.is_empty(), "only directories are reported");

    let exhausted = SnapshotCursor::new();
    assert!(diff_step(&exhausted, &exhausted, false).done);
}

#[test]
fn modified_sizes_and_kind_changes() {
    let old = cursor_at(&[decoded(0, "root", 30, true), decoded(1, "a", 10, false)]);
    let grown = cursor_at(&[decoded(0, "root", 30, true), decoded(1, "a", 15, false)]);
    let step = diff_step(&old, &grown, false);
    assert_eq!(step.changes, vec![(Change::Modified { grew: true, magnitude: 5 }, Side::New)]);
    let step = diff_step(&grown, &old, false);
    assert_eq!(step.changes, vec![(Change::Modified { grew: false, magnitude: 5 }, Side::New)]);

    let as_dir = cursor_at(&[decoded(0, "root", 30, true), decoded(1, "a", 10, true)]);
    let step = diff_step(&old, &as_dir, false);
    assert_eq!(step.changes, vec![(Change::Removed(10), Side::Old), (Change::Added(10), Side::New)]);
    assert_eq!((step.old_advance, step.new_advance), (Advance::PastCurrent, Advance::PastCurrent));
}

#[test]
fn tree_lines_show_unseen_ancestors_once() {
    let mut state = TreeState::new();
    let first = cursor_at(&[decoded(0, "root", 30, true), decoded(1, "a", 10, true), decoded(2, "x", 5, false)]);
    let lines = state.lines_for(Change::Added(5), &first, 0, None);
    assert_eq!(lines, vec![
        TreeLine { level: 0, indent: 0, is_change: false, hidden: false },
        TreeLine { level: 1, indent: 1, is_change: false, hidden: false },
        TreeLine { level: 2, indent: 2, is_change: true, hidden: false },
    ]);
    let sibling = cursor_at(&[decoded(0, "root", 30, true), decoded(1, "a", 10, true), decoded(2, "y", 5, false)]);
    let lines = state.lines_for(Change::Removed(5), &sibling, 0, None);
    assert_eq!(lines, vec![TreeLine { level: 2, indent: 2, is_change: true, hidden: false }]);

    let mut limited = TreeState::new();
    let lines = limited.lines_for(Change::Added(5), &first, 0, Some(1));
    assert_eq!(lines, vec![
        TreeLine { level: 0, indent: 0, is_change: false, hidden: false },
        TreeLine { level: 1, indent: 1, is_change: false, hidden: true },
    ]);
}

#[test]
fn change_and_context_lines() {
    assert_eq!(change_line(Change::Added(42), "new", false, 1, false, ByteFormat::Bytes), "  + 42 b new");
    assert_eq!(change_line(Change::Removed(7), "gone", true, 0, false, ByteFormat::Bytes), "- 7 b gone/");
    assert_eq!(
        change_line(Change::Modified { grew: false, magnitude: 3 }, "dir", true, 0, true, ByteFormat::Bytes),
        "~ -3 b dir/ …"
    );
    assert_eq!(context_line("parent", 2, false), "    parent/");
    assert_eq!(context_line("bad\nname/", 0, true), "bad\u{FFFD}name/ …");
}

fn summary_entry(size: u128, path: &str) -> SummaryEntry {
    SummaryEntry {
        size,
        path: path.to_string(),
        components: path.split('/').map(str::to_string).collect(),
        is_dir: false,
    }
}

#[test]
fn summary_keeps_the_largest_changes_in_order() {
    let mut summary = Summary::new();
    summary.record(Change::Added(5), Some(summary_entry(5, "b")), 2);
    summary.record(Change::Added(9), Some(summary_entry(9, "c")), 2);
    summary.record(Change::Added(5), Some(summary_entry(5, "a")), 2);
    summary.record(Change::Removed(1), Some(summary_entry(1, "z")), 2);
    summary.record(Change::Modified { grew: true, magnitude: 4 }, None, 2);
    let kept: Vec<_> = summary.additions.iter().map(|e| (e.size, e.path.clone())).collect();
    assert_eq!(kept, vec![(9, "c".to_string()), (5, "a".to_string())]);
    assert_eq!(summary.additions_total, 3);
    assert_eq!(summary.removals_total, 1);
    assert_eq!(summary.changes_total, 5);

    let lines: Vec<_> = summary.lines(ByteFormat::Bytes).into_iter().map(|line| line.text).collect();
    assert_eq!(lines, vec![
        "Largest removals (showing 1 of 1):".to_string(),
        "- 1 b z".to_string(),
        String::new(),
        "Largest additions (showing 2 of 3):".to_string(),
        "+ 9 b c".to_string(),
        "+ 5 b a".to_string(),
        String::new(),
        "Changes: 5".to_string(),
    ]);
}

#[test]
fn a_zero_limit_keeps_no_entries() {
    let mut summary = Summary::new();
    summary.record(Change::Added(5), None, 0);
    assert!(summary.additions.is_empty());
    assert_eq!(summary.additions_total, 1);
    let lines: Vec<_> = summary.lines(ByteFormat::Bytes).into_iter().map(|line| line.text).collect();
    assert_eq!(lines, vec!["Changes: 1".to_string()]);
}

#[test]
fn recording_with_a_limit_keeps_the_top_of_the_full_ranking() {
    let calls = [(7, "d"), (3, "e"), (7, "b"), (10, "a"), (3, "c"), (1, "f"), (7, "a")];
    let mut limited = Summary::new();
    let mut full = Summary::new();
    for (size, path) in calls {
        limited.record(Change::Added(size), Some(summary_entry(size, path)), 3);
        full.record(Change::Added(size), Some(summary_entry(size, path)), usize::MAX);
        limited.record(Change::Modified { grew: false, magnitude: 1 }, None, 3);
    }
    let top: Vec<_> = full.additions.iter().take(3).map(|e| (e.size, e.path.clone())).collect();
    let kept: Vec<_> = limited.additions.iter().map(|e| (e.size, e.path.clone())).collect();
    assert_eq!(kept, top);
    assert_eq!(kept, vec![(10, "a".to_string()), (7, "a".to_string()), (7, "b".to_string())]);
    assert_eq!(full.additions.len(), 7);
    assert_eq!(limited.additions_total, 7);
    assert_eq!(limited.changes_total, 14);
    assert!(limited.removals.is_empty());
}
