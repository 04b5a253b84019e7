use dua::patterns::{excludes_entry, IgnorePatterns};
use dua::walk::{descends_into, reports_entry};

fn components(path: &str) -> Vec<String> {
    path.split('/').filter(|c| !c.is_empty()).map(|c| c.to_string()).collect()
}

fn patterns_from(contents: &str) -> IgnorePatterns {
    IgnorePatterns::from_buffers(&vec![contents.as_bytes().to_vec()]).unwrap()
}

#[test]
fn ignore_patterns_use_gitignore_semantics() {
    let patterns = patterns_from(
        "# a comment, and the blank line below, match nothing\n\
         \n\
         *.log\n\
         !keep.log\n\
         build/\n\
         /anchored\n\
         **/node_modules/\n",
    );

    for (path, is_dir, expected) in [
        ("debug.log", false, true),
        ("nested/debug.log", false, true),
        ("keep.log", false, false),
        ("build", true, true),
        ("build", false, false),
        ("anchored", true, true),
        ("nested/anchored", true, false),
        ("nested/deeply/node_modules", true, true),
        ("src", true, false),
        ("", true, false),
    ] {
        assert_eq!(
            patterns.is_excluded(&components(path), is_dir),
            expected,
            "expected is_excluded({path:?}, is_dir={is_dir}) to be {expected}"
        );
    }
}

#[test]
fn later_ignore_files_win_over_earlier_ones() {
    let patterns = IgnorePatterns::from_buffers(&vec![b"*.tmp\n".to_vec(), b"!important.tmp\n".to_vec()]).unwrap();
    assert!(patterns.is_excluded(&components("scratch.tmp"), false));
    assert!(
        !patterns.is_excluded(&components("important.tmp"), false),
        "the negation in the second file overrides the first file"
    );
}

#[test]
fn empty_ignore_files_produce_none() {
    assert!(
        IgnorePatterns::from_buffers(&vec![b"# comment only\n".to_vec()]).is_none(),
        "no patterns means no need to match anything"
    );
    assert!(IgnorePatterns::from_buffers(&Vec::new()).is_none());
    assert!(IgnorePatterns::from_buffers(&vec![Vec::new(), b"x\n".to_vec()]).is_some());
}

#[test]
fn excluded_input_paths_are_dropped_before_the_walk() {
    let patterns = patterns_from("src/\n*.toml\n");
    let cwd = components("/work/crate");
    assert!(
        patterns.excludes_input_path(&components("src"), true, &cwd, true),
        "a directory pattern matches a directory given as input"
    );
    assert!(patterns.excludes_input_path(&components("Cargo.toml"), true, &cwd, false));
    assert!(!patterns.excludes_input_path(&components("README.md"), true, &cwd, false));
    assert!(patterns.excludes_input_path(&components("/work/crate/src"), false, &cwd, true));
    assert!(!patterns.excludes_input_path(&components("/elsewhere/src"), false, &cwd, true));
}

#[test]
fn walk_entries_are_excluded_relative_to_the_current_directory_or_their_pattern_root() {
    let patterns = Some(patterns_from("*.log\n**/node_modules/\n"));
    let cwd = components("/work");
    let root = Some(components("/data/tree"));
    assert!(excludes_entry(&patterns, &root, &components("/data/tree/keep/debug.log"), false, &cwd, false));
    assert!(excludes_entry(&patterns, &root, &components("/work/keep/node_modules"), false, &cwd, true));
    assert!(!excludes_entry(&patterns, &root, &components("/work/keep/node_modules"), false, &cwd, false));
    assert!(!excludes_entry(&patterns, &root, &components("/data/tree/keep/main.rs"), false, &cwd, false));
    assert!(excludes_entry(&patterns, &root, &components("keep/debug.log"), true, &cwd, false));
    assert!(!excludes_entry(&patterns, &None, &components("keep/debug.log"), true, &cwd, false));
    assert!(!excludes_entry(&None, &root, &components("keep/debug.log"), true, &cwd, false));
    assert!(!excludes_entry(&patterns, &root, &components("/elsewhere/debug.log"), false, &cwd, false));
}

#[test]
fn the_walk_enters_and_reports_only_what_is_neither_ignored_nor_excluded() {
    assert!(descends_into(false, Some(true), 3, false, false));
    assert!(!descends_into(false, Some(false), 3, false, false));
    assert!(descends_into(true, Some(false), 3, false, false));
    assert!(descends_into(false, None, 3, false, false));
    assert!(descends_into(false, Some(true), 0, true, false));
    assert!(!descends_into(false, Some(true), 1, true, false));
    assert!(!descends_into(true, None, 0, false, true));
    assert!(reports_entry(false, 0, false));
    assert!(!reports_entry(true, 0, false));
    assert!(reports_entry(true, 1, false));
    assert!(!reports_entry(false, 2, true));
}
