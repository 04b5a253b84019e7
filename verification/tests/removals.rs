use dua::removal::{deepest_first, unlink_workers, RemovalResult, RemovalStats};

#[test]
fn directories_go_deepest_first_in_walk_order() {
    assert_eq!(deepest_first(&vec![0, 2, 1, 2, 3, 1]), vec![4, 1, 3, 2, 5, 0]);
    assert_eq!(deepest_first(&vec![]), Vec::<usize>::new());
    assert_eq!(deepest_first(&vec![5, 5, 5]), vec![0, 1, 2]);
}

#[test]
fn removal_outcomes_are_counted_and_reported() {
    let mut stats = RemovalStats::default();
    assert!(stats.record(RemovalResult::Removed));
    assert!(stats.record(RemovalResult::Missing));
    assert!(!stats.record(RemovalResult::Failed));
    assert_eq!(stats, RemovalStats { entries: 1, errors: 1 });
    let mut total = RemovalStats { entries: 3, errors: 0 };
    total.add(stats);
    assert_eq!(total, RemovalStats { entries: 4, errors: 1 });
}

#[test]
fn unlinking_uses_one_to_file_count_threads() {
    assert_eq!(unlink_workers(0, 5), 1);
    assert_eq!(unlink_workers(8, 5), 5);
    assert_eq!(unlink_workers(4, 100), 4);
    assert_eq!(unlink_workers(4, 0), 0);
}

fn marked(index: usize, path: &str, is_dir: bool) -> dua::targets::MarkedEntry {
    let mut components = vec!["/".to_string()];
    components.extend(path.split('/').filter(|c| !c.is_empty()).map(|c| c.to_string()));
    dua::targets::MarkedEntry { index, path: components, is_dir }
}

#[test]
fn deletion_starts_from_the_outermost_marked_paths() {
    let entries = vec![
        marked(5, "r/b/file", false),
        marked(1, "r/a", true),
        marked(0, "r", true),
        marked(2, "r/a/x", true),
        marked(3, "r/a/x/y", false),
        marked(4, "r/ab", false),
        marked(6, "r/b", false),
    ];
    // The tree root is never deleted and takes nothing along; a marked file takes nothing along.
    assert_eq!(dua::targets::deletion_targets(&entries, 0), vec![1, 5, 6, 0]);
    assert_eq!(dua::targets::deletion_targets(&entries, 99), vec![2]);
    assert!(dua::targets::deletion_targets(&vec![], 0).is_empty());
}
