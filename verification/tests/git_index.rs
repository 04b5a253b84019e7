use dua::gitindex::{has_tracked_paths, IndexEntry};

fn file(path: &str) -> IndexEntry {
    IndexEntry { path: path.as_bytes().to_vec(), sparse: false, submodule: false }
}

fn gitlink(path: &str) -> IndexEntry {
    IndexEntry { path: path.as_bytes().to_vec(), sparse: false, submodule: true }
}

fn sparse(path: &str) -> IndexEntry {
    IndexEntry { path: path.as_bytes().to_vec(), sparse: true, submodule: false }
}

fn index_tracks(index: &Vec<IndexEntry>, path: &str, ignore_case: bool) -> bool {
    has_tracked_paths(index, &path.as_bytes().to_vec(), ignore_case)
}

#[test]
fn directories_holding_tracked_files_or_replaced_by_them_are_tracked() {
    let index = vec![
        file("kept/keep"),
        file("conflicted/keep"),
        gitlink("submodule"),
        file("replaced-file"),
        file("target-other/keep"),
        file("zig-out/keep"),
    ];
    for ignore_case in [false, true] {
        for (name, expected) in [
            ("ignored", false),
            ("target", false),
            ("kept", true),
            ("conflicted", true),
            ("submodule", true),
            ("replaced-file", true),
            ("zig-out", true),
            ("zig-cache", false),
        ] {
            assert_eq!(index_tracks(&index, name, ignore_case), expected, "{name} {ignore_case}");
        }
    }
}

#[test]
fn a_prefix_that_is_no_whole_component_does_not_track() {
    let index = vec![file("target-other/keep"), file("targets")];
    assert!(!index_tracks(&index, "target", false));
    assert!(!index_tracks(&index, "target", true));
}

#[test]
fn case_folded_indexes_protect_other_spellings_and_sparse_ancestors() {
    let index = vec![file("TARGET/keep"), sparse("project/")];
    assert!(!index_tracks(&index, "target", false));
    assert!(index_tracks(&index, "target", true));
    assert!(index_tracks(&index, "project/target", false));
    assert!(index_tracks(&index, "project/target", true));
}

#[test]
fn gitlink_ancestors_protect_their_descendants() {
    for ignore_case in [false, true] {
        let name = if ignore_case { "SUB" } else { "sub" };
        let index = vec![gitlink(name)];
        assert!(index_tracks(&index, "sub/node_modules", ignore_case));
        assert!(!index_tracks(&index, "sub-other/node_modules", ignore_case));
    }
    let index = vec![file("sub")];
    assert!(!index_tracks(&index, "sub/node_modules", false));
}

#[test]
fn an_empty_index_tracks_nothing() {
    let index: Vec<IndexEntry> = Vec::new();
    assert!(!index_tracks(&index, "node_modules", false));
    assert!(!index_tracks(&index, "node_modules", true));
}
