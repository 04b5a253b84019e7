use dua::changes::diff_entries;
use dua::diff::{Change, DecodedEntry, Side};

fn entry(depth: usize, name: &str, size: u128, is_dir: bool) -> DecodedEntry {
    DecodedEntry {
        depth,
        name: name.to_string(),
        native_name: name.as_bytes().to_vec(),
        sibling_ordinal: 0,
        size,
        is_dir,
    }
}

fn old_snapshot() -> Vec<DecodedEntry> {
    vec![
        entry(0, "/r", 100, true),
        entry(1, "a", 10, false),
        entry(1, "b", 50, true),
        entry(2, "c", 50, false),
    ]
}

fn new_snapshot() -> Vec<DecodedEntry> {
    vec![entry(0, "/r", 120, true), entry(1, "a", 30, false), entry(1, "d", 40, false)]
}

#[test]
fn walking_two_snapshots_reports_every_difference_once_in_key_order() {
    let changes = diff_entries(&old_snapshot(), &new_snapshot(), false);
    assert_eq!(
        changes,
        vec![
            (Change::Modified { grew: true, magnitude: 20 }, Side::New, 1),
            (Change::Removed(50), Side::Old, 2),
            (Change::Added(40), Side::New, 2),
        ]
    );
}

#[test]
fn directory_comparisons_leave_files_out() {
    let changes = diff_entries(&old_snapshot(), &new_snapshot(), true);
    assert_eq!(
        changes,
        vec![(Change::Modified { grew: true, magnitude: 20 }, Side::New, 0), (Change::Removed(50), Side::Old, 2)]
    );
}

#[test]
fn identical_and_empty_snapshots_report_nothing_and_kind_changes_replace() {
    assert!(diff_entries(&old_snapshot(), &old_snapshot(), false).is_empty());
    assert!(diff_entries(&Vec::new(), &Vec::new(), false).is_empty());
    assert_eq!(diff_entries(&Vec::new(), &new_snapshot(), false), vec![(Change::Added(120), Side::New, 0)]);
    let old = vec![entry(0, "/r", 5, true), entry(1, "x", 5, true)];
    let new = vec![entry(0, "/r", 5, true), entry(1, "x", 5, false)];
    assert_eq!(
        diff_entries(&old, &new, false),
        vec![(Change::Removed(5), Side::Old, 1), (Change::Added(5), Side::New, 1)]
    );
}
