use dua::clean::{keeps_listed_entry, ListedEntry};
use dua::discovery::{Answer, Discovery, Request};
use dua::patterns::{is_excluded, IgnorePatterns};
use std::collections::BTreeSet;

type Path = Vec<String>;

/// A directory tree held in memory, standing for a temporary directory on disk.
struct Tree {
    dirs: BTreeSet<Path>,
    files: BTreeSet<Path>,
    root: Path,
}

fn join(base: &Path, relative: &str) -> Path {
    let mut path = base.clone();
    for component in relative.split('/') {
        if component == "." || component.is_empty() {
            continue;
        }
        path.push(component.to_string());
    }
    path
}

impl Tree {
    fn new() -> Tree {
        let root = vec!["tmp".to_string(), "scratch".to_string()];
        let mut dirs = BTreeSet::new();
        dirs.insert(vec!["tmp".to_string()]);
        dirs.insert(root.clone());
        Tree { dirs, files: BTreeSet::new(), root }
    }

    fn directory(&mut self, base: &Path, relative: &str) -> Path {
        let path = join(base, relative);
        for end in 1..=path.len() {
            self.dirs.insert(path[..end].to_vec());
        }
        path
    }

    fn file(&mut self, relative: &str) {
        let path = join(&self.root, relative);
        self.directory(&path[..path.len() - 1].to_vec(), "");
        self.files.insert(path);
    }

    /// Every entry of `path` with whether it is a directory or a regular file, counting each
    /// one read as the search's progress does.
    fn read(&self, path: &Path, entries: &mut u64) -> Option<Vec<ListedEntry>> {
        if !self.dirs.contains(path) {
            return None;
        }
        let mut listed = Vec::new();
        for candidate in self.dirs.iter().chain(self.files.iter()) {
            if candidate.len() == path.len() + 1 && candidate.starts_with(path) {
                *entries += 1;
                let name = candidate[path.len()].clone();
                let is_dir = self.dirs.contains(candidate);
                if keeps_listed_entry(&name, is_dir) {
                    listed.push(ListedEntry { name, is_dir, is_file: !is_dir });
                }
            }
        }
        Some(listed)
    }

    fn has_regular_file(&self, path: &Path, name: &str, entries: &mut u64) -> bool {
        self.read(path, entries)
            .is_some_and(|listed| listed.iter().any(|entry| entry.name == name && entry.is_file))
    }

    /// Candidates in path order, entries read and errors met, searching `input` with every
    /// filesystem crossed, nothing excluded and Git letting every directory be a candidate.
    fn scan(&self, input: Vec<Path>, depth: Option<usize>) -> (Vec<Path>, u64, u64) {
        self.scan_excluding(input, depth, &Vec::new(), &None, None)
    }

    /// Like `scan`, leaving out what lies within `ignore_dirs` or what `patterns` exclude as
    /// seen from the current directory or else from `pattern_root`, by default the root searched.
    fn scan_excluding(
        &self,
        input: Vec<Path>,
        depth: Option<usize>,
        ignore_dirs: &Vec<Path>,
        patterns: &Option<IgnorePatterns>,
        pattern_root: Option<Path>,
    ) -> (Vec<Path>, u64, u64) {
        let cwd = vec!["work".to_string()];
        let mut entries: u64 = 0;
        let errors: u64 = 0;
        let mut roots = Vec::new();
        for path in input {
            entries += 1;
            if self.dirs.contains(&path) {
                roots.push(path);
            }
        }
        let mut search = Discovery::new(&roots, depth, true);
        let mut found = Vec::new();
        let mut request = search.step(Answer::Start);
        loop {
            let answer = match request {
                Request::Finished => break,
                Request::RootDevice | Request::Device => Answer::Device(Some(1)),
                Request::Exclusion => {
                    let root = pattern_root.clone().or_else(|| search.current_root().cloned()).unwrap_or_default();
                    Answer::Excluded(is_excluded(search.current_path(), &root, &cwd, ignore_dirs, patterns))
                },
                Request::ParentManifest => {
                    let path = search.current_path().clone();
                    let present = !path.is_empty()
                        && self.has_regular_file(&path[..path.len() - 1].to_vec(), "Cargo.toml", &mut entries);
                    Answer::HasFile(present)
                },
                Request::VirtualEnvironment => {
                    let path = search.current_path().clone();
                    Answer::HasFile(self.has_regular_file(&path, "pyvenv.cfg", &mut entries))
                },
                Request::GitCheck => Answer::Git(Some(true)),
                Request::Listing => {
                    let path = search.current_path().clone();
                    Answer::Listing(self.read(&path, &mut entries))
                },
                Request::Candidate => {
                    found.push(search.current_path().clone());
                    Answer::Reported
                },
            };
            request = search.step(answer);
        }
        found.sort();
        (found, entries, errors)
    }
}

#[test]
fn depth_limits_discovery_and_an_input_candidate_has_depth_zero() {
    let mut tree = Tree::new();
    let root = tree.root.clone();
    let direct = tree.directory(&root, "node_modules");
    let nested = tree.directory(&root, "project/__pycache__");
    assert!(tree.scan(vec![root.clone()], Some(0)).0.is_empty());
    assert_eq!(tree.scan(vec![root.clone()], Some(1)).0, vec![direct.clone()]);
    let mut expected = vec![direct.clone(), nested.clone()];
    expected.sort();
    assert_eq!(tree.scan(vec![root.clone(), join(&root, "project")], Some(1)).0, expected);
    assert_eq!(tree.scan(vec![root], None).0, expected);
    assert_eq!(tree.scan(vec![direct.clone()], Some(0)).0, vec![direct]);
}

#[test]
fn overlapping_inputs_do_not_duplicate_or_nest_candidates() {
    let mut tree = Tree::new();
    let root = tree.root.clone();
    let artifact = tree.directory(&root, "project/node_modules");
    let nested = tree.directory(&artifact, "inner/node_modules");
    assert_eq!(
        tree.scan(vec![nested, artifact.clone(), root.clone(), join(&root, ".")], None).0,
        vec![artifact]
    );
}

#[test]
fn explicit_paths_inside_git_administration_are_pruned() {
    for marker in [".git", ".GIT", ".Git"] {
        let mut tree = Tree::new();
        let root = tree.root.clone();
        tree.directory(&root, &format!("{marker}/objects/node_modules"));
        let (paths, entries, errors) = tree.scan(vec![join(&join(&root, marker), "objects")], None);
        assert!(paths.is_empty());
        assert_eq!(entries, 1);
        assert_eq!(errors, 0);
    }
}

#[test]
fn discovers_zig_caches_and_build_outputs() {
    let mut tree = Tree::new();
    let root = tree.root.clone();
    tree.file("build.zig");
    tree.file("build.zig.zon");
    let mut expected = Vec::new();
    for name in [".zig-cache", "zig-cache", "zig-out"] {
        let path = tree.directory(&root, name);
        tree.directory(&path, "nested/.zig-cache");
        expected.push(path);
    }
    let (paths, _, errors) = tree.scan(vec![root], None);
    assert_eq!(paths, expected);
    assert_eq!(errors, 0);
}

#[test]
fn discovers_qualified_directories_and_prunes_claimed_subtrees() {
    let mut tree = Tree::new();
    let root = tree.root.clone();
    let node = tree.directory(&root, "web/node_modules");
    tree.directory(&node, "nested/node_modules");
    let target = tree.directory(&root, "rust/target");
    tree.file("rust/Cargo.toml");
    let venv = tree.directory(&root, "python/.venv");
    tree.file("python/.venv/pyvenv.cfg");
    let cache = tree.directory(&root, "misc/__pycache__");
    let below_target = tree.directory(&root, "ordinary/target/nested/node_modules");
    let below_venv = tree.directory(&root, "ordinary/venv/nested/node_modules");
    tree.directory(&root, "ordinary/venv/pyvenv.cfg");
    tree.directory(&root, "metadata/.git/node_modules");
    tree.file("target");
    assert_eq!(tree.scan(vec![target.clone()], Some(0)).0, vec![target.clone()]);
    let (paths, entries, errors) = tree.scan(vec![root], None);
    let mut expected = vec![node, target, venv, cache, below_target, below_venv];
    expected.sort();
    assert_eq!(paths, expected);
    assert!(entries > paths.len() as u64);
    assert_eq!(errors, 0);
}

#[test]
fn bare_repositories_are_not_entered_and_unreadable_directories_are_passed_over() {
    let mut tree = Tree::new();
    let root = tree.root.clone();
    tree.directory(&root, "bare.git/objects");
    tree.directory(&root, "bare.git/refs");
    tree.file("bare.git/HEAD");
    tree.directory(&root, "bare.git/node_modules");
    let kept = tree.directory(&root, "project/node_modules");
    assert_eq!(tree.scan(vec![root.clone()], None).0, vec![kept]);
    let missing = join(&root, "gone");
    assert!(tree.scan(vec![missing], None).0.is_empty());
}

#[test]
fn a_root_whose_device_cannot_be_read_is_passed_over_and_other_devices_are_not_entered() {
    let mut tree = Tree::new();
    let root = tree.root.clone();
    tree.directory(&root, "mounted/node_modules");
    let local = tree.directory(&root, "local/node_modules");
    let roots = vec![root.clone()];
    let mut search = Discovery::new(&roots, None, false);
    assert_eq!(search.step(Answer::Start), Request::RootDevice);
    assert_eq!(search.step(Answer::Device(None)), Request::Finished);

    let mut search = Discovery::new(&roots, None, false);
    let mut found = Vec::new();
    let mut request = search.step(Answer::Start);
    let mut entries: u64 = 0;
    loop {
        let answer = match request {
            Request::Finished => break,
            Request::RootDevice => Answer::Device(Some(7)),
            Request::Device => {
                let on_mount = search.current_path().iter().any(|c| c == "mounted");
                Answer::Device(Some(if on_mount { 8 } else { 7 }))
            },
            Request::Exclusion => Answer::Excluded(false),
            Request::ParentManifest | Request::VirtualEnvironment => Answer::HasFile(false),
            Request::GitCheck => Answer::Git(Some(true)),
            Request::Listing => {
                let path = search.current_path().clone();
                Answer::Listing(tree.read(&path, &mut entries))
            },
            Request::Candidate => {
                found.push(search.current_path().clone());
                Answer::Reported
            },
        };
        request = search.step(answer);
    }
    assert_eq!(found, vec![local]);
}

#[test]
fn excluded_directories_and_git_failures_yield_no_candidates() {
    let mut tree = Tree::new();
    let root = tree.root.clone();
    tree.directory(&root, "ignored/__pycache__");
    tree.directory(&root, "tracked/node_modules");
    let roots = vec![root.clone()];
    let mut search = Discovery::new(&roots, None, true);
    let mut found = Vec::new();
    let mut request = search.step(Answer::Start);
    let mut entries: u64 = 0;
    loop {
        let answer = match request {
            Request::Finished => break,
            Request::RootDevice | Request::Device => Answer::Device(Some(1)),
            Request::Exclusion => Answer::Excluded(search.current_path().iter().any(|c| c == "ignored")),
            Request::ParentManifest | Request::VirtualEnvironment => Answer::HasFile(false),
            Request::GitCheck => Answer::Git(None),
            Request::Listing => {
                let path = search.current_path().clone();
                Answer::Listing(tree.read(&path, &mut entries))
            },
            Request::Candidate => {
                found.push(search.current_path().clone());
                Answer::Reported
            },
        };
        request = search.step(answer);
    }
    assert!(found.is_empty());
}

#[test]
fn exclusions_keep_the_original_search_root_scope() {
    let mut tree = Tree::new();
    let root = tree.root.clone();
    tree.directory(&root, "node_modules");
    let nested = tree.directory(&root, "project/node_modules");
    tree.directory(&root, "ignored/__pycache__");
    tree.directory(&root, "bare.git/objects");
    tree.directory(&root, "bare.git/refs");
    tree.file("bare.git/HEAD");
    tree.directory(&root, "bare.git/node_modules");
    let patterns = IgnorePatterns::from_buffers(&vec![b"/node_modules/\n".to_vec()]);
    let ignore_dirs = vec![join(&root, "ignored")];
    assert_eq!(tree.scan_excluding(vec![root], None, &ignore_dirs, &patterns, None).0, vec![nested]);
}

#[test]
fn refresh_uses_the_supplied_discovery_root() {
    let mut tree = Tree::new();
    let root = tree.root.clone();
    let artifact = tree.directory(&root, "project/node_modules");
    let project = join(&root, "project");
    let patterns = IgnorePatterns::from_buffers(&vec![b"/node_modules/\n".to_vec()]);
    let found = tree.scan_excluding(vec![artifact.clone()], None, &Vec::new(), &patterns, Some(project)).0;
    assert!(found.is_empty(), "refresh must not change the anchored pattern base");
    let found = tree.scan_excluding(vec![artifact.clone()], None, &Vec::new(), &patterns, Some(root.clone())).0;
    assert_eq!(found, vec![artifact]);
}
