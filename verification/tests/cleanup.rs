use dua::clean::{
    pattern_relative_path,
    descends_from, search_roots, within_candidate, has_listed, is_bare_repository, is_cleanup_dir_name, is_git_dir_name, keeps_listed_entry, qualification,
    subdirectories_to_visit, ListedEntry, Qualification,
};
use dua::patterns::{is_excluded, IgnorePatterns};
use dua::heuristics::{Heuristic, NamedEntry};
use dua::hub::{group_candidates, select_path};
use dua::navigation::{cleanup_candidates, is_cleanup_candidate, EntryDataBundle};
use dua::timestamp::Timestamp;

fn entry(name: &str, is_dir: bool) -> EntryDataBundle {
    EntryDataBundle {
        index: 0,
        name: name.to_string(),
        size: 0,
        mtime: Timestamp { seconds: 0, nanos: 0 },
        entry_count: None,
        is_dir,
        exists: true,
    }
}

#[test]
fn identifies_conservative_cleanup_directories() {
    for name in ["target", "node_modules", "__pycache__", ".venv"] {
        assert!(is_cleanup_candidate(&entry(name, true)));
    }
    for path in ["project/target", "project/node_modules", "project/.venv"] {
        assert!(is_cleanup_candidate(&entry(path, true)), "file paths are expected as `name` field.");
    }
}

#[test]
fn ignores_files_and_ambiguous_build_outputs() {
    for name in ["target", "build", "dist"] {
        assert!(!is_cleanup_candidate(&entry(name, false)));
    }
    assert!(!is_cleanup_candidate(&entry("build", true)));
    assert!(!is_cleanup_candidate(&entry("dist", true)));
}

#[test]
fn candidates_are_listed_in_order_and_must_exist() {
    let mut entries = vec![entry("src", true), entry("target", true), entry("node_modules", true), entry("venv", true)];
    for (index, e) in entries.iter_mut().enumerate() {
        e.index = index * 10;
    }
    entries[2].exists = false;
    assert_eq!(cleanup_candidates(&entries), vec![10, 30]);
}

#[test]
fn matches_cleanup_names() {
    assert!(is_cleanup_dir_name("node_modules"));
    assert!(is_cleanup_dir_name("zig-out"));
    assert!(!is_cleanup_dir_name("Node_Modules"));
    assert!(!is_cleanup_dir_name("build"));
    assert!(is_git_dir_name(".git"));
    assert!(is_git_dir_name(".GIT"));
    assert!(is_git_dir_name(".Git"));
    assert!(!is_git_dir_name("git"));
}

#[test]
fn qualification_depends_on_project_markers() {
    assert_eq!(qualification("target", Some(true)), Qualification::Qualifies);
    assert_eq!(qualification("target", Some(false)), Qualification::Rejected);
    assert_eq!(qualification("target", None), Qualification::IfParentHasCargoManifest);
    assert_eq!(qualification(".venv", Some(true)), Qualification::IfVirtualEnvironment);
    assert_eq!(qualification("node_modules", None), Qualification::Qualifies);
    assert_eq!(qualification("src", None), Qualification::Rejected);
}

fn listed(name: &str, is_dir: bool) -> ListedEntry {
    ListedEntry { name: name.to_string(), is_dir, is_file: !is_dir }
}

#[test]
fn listings_identify_bare_repositories_and_children() {
    let bare = vec![listed("HEAD", false), listed("objects", true), listed("refs", true)];
    assert!(is_bare_repository(&bare));
    let worktree = vec![listed("HEAD", true), listed("objects", true), listed("refs", true), listed(".GIT", true), listed("Cargo.toml", false)];
    assert!(!is_bare_repository(&worktree));
    assert!(has_listed(&worktree, "Cargo.toml", false));
    assert!(!has_listed(&worktree, "Cargo.toml", true));
    assert_eq!(subdirectories_to_visit(&worktree), vec!["HEAD".to_string(), "objects".to_string(), "refs".to_string()]);
    assert!(keeps_listed_entry("pyvenv.cfg", false));
    assert!(!keeps_listed_entry("README", false));
    assert!(keeps_listed_entry("README", true));
}

fn heuristic(rules: &[&str]) -> Heuristic {
    Heuristic {
        name: "test".to_string(),
        description: String::new(),
        enabled: true,
        match_rules: rules.iter().map(|r| r.to_string()).collect(),
        patterns: vec![],
    }
}

fn named(name: &str, is_dir: bool) -> NamedEntry {
    NamedEntry { is_dir, name: name.to_string() }
}

#[test]
fn heuristics_match_every_group_and_any_rule() {
    let entries = vec![named("package.json", false), named("node_modules", true), named("app.csproj", false)];
    assert!(heuristic(&["-f package.json", "-d node_modules"]).matches(&entries, false));
    assert!(heuristic(&["-f missing | -f package.json"]).matches(&entries, false));
    assert!(!heuristic(&["-f package.json", "-d missing"]).matches(&entries, false));
    assert!(!heuristic(&["-d package.json"]).matches(&entries, false), "files are not directories");
    assert!(heuristic(&["-f *.csproj"]).matches(&entries, false));
    assert!(!heuristic(&["-f *.fsproj"]).matches(&entries, false));
    assert!(heuristic(&[]).matches(&entries, false));
    let mut disabled = heuristic(&[]);
    disabled.enabled = false;
    assert!(!disabled.matches(&entries, false));
}

#[test]
fn heuristics_ignore_ascii_case_where_filesystems_do() {
    let entries = vec![named("Package.JSON", false), named("Node_Modules", true), named("App.CSPROJ", false)];
    assert!(heuristic(&["-f package.json", "-d node_modules"]).matches(&entries, true));
    assert!(!heuristic(&["-f package.json"]).matches(&entries, false));
    assert!(!heuristic(&["-d node_modules"]).matches(&entries, false));
    assert!(heuristic(&["-f *.csproj"]).matches(&entries, true));
    assert!(!heuristic(&["-f *.csproj"]).matches(&entries, false));
    assert!(!heuristic(&["-f package.jsonx"]).matches(&entries, true));
}

fn candidate(index: usize, path: &str, size: u128, seconds: i64, entry_count: Option<u64>) -> dua::hub::HubCandidate {
    let mut components = vec!["/".to_string()];
    components.extend(path.trim_start_matches('/').split('/').map(str::to_string));
    dua::hub::HubCandidate { index, path: components, size, mtime: Timestamp { seconds, nanos: 0 }, entry_count }
}

fn joined(components: &[String]) -> String {
    format!("/{}", components[1..].join("/"))
}

#[test]
fn candidates_sharing_a_parent_are_grouped() {
    let candidates = vec![
        candidate(7, "/p/a/node_modules", 20, 5, Some(3)),
        candidate(8, "/p/a/target", 10, 9, None),
        candidate(9, "/q/target", 5, 1, Some(1)),
        candidate(10, "/r/big/target", 40, 1, None),
    ];
    let rows = group_candidates(&candidates);
    let summary: Vec<_> = rows
        .iter()
        .map(|row| (joined(&row.path), row.size, row.mtime.seconds, row.entry_count, row.members.clone()))
        .collect();
    assert_eq!(summary, vec![
        ("/r/big/target".to_string(), 40, 1, None, vec![10]),
        ("/p/a".to_string(), 30, 9, Some(3), vec![7, 8]),
        ("/q/target".to_string(), 5, 1, Some(1), vec![9]),
    ]);
}

#[test]
fn rows_are_selected_by_path_or_relation() {
    let rows = group_candidates(&vec![candidate(1, "/x/target", 1, 0, None), candidate(2, "/y/target", 2, 0, None)]);
    let path = |p: &str| candidate(0, p, 0, 0, None).path;
    assert_eq!(select_path(&rows, &path("/x/target")), Some(1));
    assert_eq!(select_path(&rows, &path("/y")), Some(0));
    assert_eq!(select_path(&rows, &path("/x/target/debug")), Some(1));
    assert_eq!(select_path(&rows, &path("/z")), None);
}

fn path(text: &str) -> Vec<String> {
    let mut components = vec!["/".to_string()];
    components.extend(text.split('/').filter(|c| !c.is_empty()).map(|c| c.to_string()));
    components
}

#[test]
fn roots_are_searched_shallow_first_without_duplicates_or_nesting() {
    let roots = vec![
        path("r/project/node_modules/inner/node_modules"),
        path("r/project/node_modules"),
        path("r"),
        path("r"),
    ];
    assert_eq!(search_roots(&roots, false), vec![2]);
    assert_eq!(search_roots(&roots, true), vec![2, 1, 0]);
    let siblings = vec![path("b"), path("a/x"), path("a")];
    assert_eq!(search_roots(&siblings, false), vec![2, 0]);
    assert_eq!(search_roots(&siblings, true), vec![2, 0, 1]);
}

#[test]
fn explicit_roots_inside_git_administration_are_pruned() {
    for marker in [".git", ".GIT", ".Git"] {
        let roots = vec![path(&format!("r/{marker}/objects"))];
        assert!(search_roots(&roots, false).is_empty());
    }
    let roots = vec![path("r/.git"), path("r/.git/x"), path("r/src")];
    assert_eq!(search_roots(&roots, false), vec![2]);
}

#[test]
fn discovery_stops_at_candidates_and_the_depth_limit() {
    let candidates = vec![path("r/project/node_modules"), path("r/target")];
    assert!(within_candidate(&path("r/project/node_modules"), &candidates));
    assert!(within_candidate(&path("r/project/node_modules/inner"), &candidates));
    assert!(!within_candidate(&path("r/project"), &candidates));
    assert!(!within_candidate(&path("r/targets"), &candidates));
    assert!(descends_from(None, 100));
    assert!(descends_from(Some(1), 0));
    assert!(!descends_from(Some(1), 1));
    assert!(!descends_from(Some(0), 0));
}

fn components(path: &str) -> Vec<String> {
    path.split('/').filter(|c| !c.is_empty()).map(|c| c.to_string()).collect()
}

#[test]
fn patterns_see_paths_relative_to_the_current_directory_or_else_the_search_root() {
    let cwd = components("/home/user");
    let root = components("/srv/data");
    assert_eq!(pattern_relative_path(&components("src/main.rs"), true, &cwd, &root), Some(components("src/main.rs")));
    assert_eq!(pattern_relative_path(&components("/home/user/project/target"), false, &cwd, &root), Some(components("project/target")));
    assert_eq!(pattern_relative_path(&components("/srv/data/cache"), false, &cwd, &root), Some(components("cache")));
    assert_eq!(pattern_relative_path(&components("/home/user"), false, &cwd, &root), Some(Vec::new()));
    assert_eq!(pattern_relative_path(&components("/home/username"), false, &cwd, &root), None);
    assert_eq!(pattern_relative_path(&components("/opt/other"), false, &cwd, &root), None);
}

#[test]
fn ignored_directories_and_patterns_exclude_paths() {
    let ignored = vec![components("/srv/data/ignored")];
    let root = components("/srv/data");
    let cwd = components("/home/user");
    assert!(is_excluded(&components("/srv/data/ignored"), &root, &cwd, &ignored, &None));
    assert!(is_excluded(&components("/srv/data/ignored/__pycache__"), &root, &cwd, &ignored, &None));
    assert!(!is_excluded(&components("/srv/data/ignored-not"), &root, &cwd, &ignored, &None));
    assert!(!is_excluded(&components("/srv/data/node_modules"), &root, &cwd, &Vec::new(), &None));
    let patterns = IgnorePatterns::from_buffers(&vec![b"/node_modules/\n".to_vec()]);
    assert!(is_excluded(&components("/srv/data/node_modules"), &root, &cwd, &Vec::new(), &patterns));
    assert!(!is_excluded(&components("/srv/data/project/node_modules"), &root, &cwd, &Vec::new(), &patterns));
    let below_cwd = components("/home/user/node_modules");
    assert!(is_excluded(&below_cwd, &root, &cwd, &Vec::new(), &patterns));
}
