use dua::browse::{MTimeSort, SortMode};
use dua::deletion::Forest;
use dua::listing::{descendant_mtime, sort_time, sorted_order};
use dua::navigation::EntryDataBundle;
use dua::timestamp::Timestamp;

fn mtime(seconds: i64) -> Timestamp {
    Timestamp { seconds, nanos: 0 }
}

/// A tree of entries in memory: parents, depths, names, times and kinds, by node.
struct Tree {
    parent: Vec<Option<usize>>,
    depth: Vec<usize>,
    names: Vec<String>,
    mtimes: Vec<Timestamp>,
    is_dir: Vec<bool>,
}

impl Tree {
    fn new() -> Tree {
        Tree { parent: Vec::new(), depth: Vec::new(), names: Vec::new(), mtimes: Vec::new(), is_dir: Vec::new() }
    }

    fn add_entry(&mut self, parent: Option<usize>, name: &str, mtime_seconds: i64, is_dir: bool) -> usize {
        let depth = parent.map_or(0, |p| self.depth[p] + 1);
        self.parent.push(parent);
        self.depth.push(depth);
        self.names.push(name.to_string());
        self.mtimes.push(mtime(mtime_seconds));
        self.is_dir.push(is_dir);
        self.parent.len() - 1
    }

    fn forest(&self) -> Forest {
        Forest { parent: self.parent.clone(), depth: self.depth.clone() }
    }

    /// The children of `node`, listed in `sorting`, each with the time it is sorted by.
    fn sorted_entries(&self, node: usize, sorting: SortMode) -> Vec<EntryDataBundle> {
        let forest = self.forest();
        let mtime_sort = sorting.mtime_sort().unwrap_or_default();
        let children: Vec<EntryDataBundle> = (0..self.parent.len())
            .filter(|&i| self.parent[i] == Some(node))
            .map(|i| EntryDataBundle {
                index: i,
                name: self.names[i].clone(),
                size: 0,
                mtime: sort_time(&forest, &self.mtimes, i, mtime_sort),
                entry_count: None,
                is_dir: self.is_dir[i],
                exists: true,
            })
            .collect();
        let order = sorted_order(&children, sorting);
        order.into_iter().map(|k| children[k].clone()).collect()
    }
}

fn sample() -> (Tree, usize) {
    let mut tree = Tree::new();
    let root = tree.add_entry(None, "", 1, true);
    let first = tree.add_entry(Some(root), "first", 10, true);
    tree.add_entry(Some(first), "old-child", 20, false);
    let nested = tree.add_entry(Some(first), "nested", 30, true);
    tree.add_entry(Some(nested), "new-grandchild", 90, false);
    let second = tree.add_entry(Some(root), "second", 40, true);
    tree.add_entry(Some(second), "new-child", 60, false);
    (tree, root)
}

#[test]
fn it_can_sort_directory_mtimes_by_recursive_entries() {
    let (tree, root) = sample();
    let recursive = tree.sorted_entries(root, SortMode::MTimeDescending(MTimeSort::RecursiveChildrenNewest));
    assert_eq!(recursive[0].name, "first");
    assert_eq!(recursive[0].mtime, mtime(90));
    assert_eq!(recursive[1].name, "second");
    assert_eq!(recursive[1].mtime, mtime(60));

    let recursive_oldest = tree.sorted_entries(root, SortMode::MTimeDescending(MTimeSort::RecursiveChildrenOldest));
    assert_eq!(recursive_oldest[0].name, "second");
    assert_eq!(recursive_oldest[0].mtime, mtime(60));
    assert_eq!(recursive_oldest[1].name, "first");
    assert_eq!(recursive_oldest[1].mtime, mtime(20));

    let mut sorting = SortMode::MTimeDescending(MTimeSort::Entry);
    assert!(sorting.mtime_sort().is_some());
    sorting.cycle_mtime_sort();
    assert_eq!(sorting, SortMode::MTimeDescending(MTimeSort::RecursiveChildrenNewest));
    let entries = tree.sorted_entries(root, sorting);
    assert_eq!(entries[0].name, "first");
    assert_eq!(entries[0].mtime, mtime(90));

    sorting.cycle_mtime_sort();
    assert_eq!(sorting, SortMode::MTimeDescending(MTimeSort::RecursiveChildrenOldest));
    let entries = tree.sorted_entries(root, sorting);
    assert_eq!(entries[0].name, "second");
    assert_eq!(entries[0].mtime, mtime(60));
}

#[test]
fn descendant_times_cover_every_level_and_leaves_have_none() {
    let (tree, root) = sample();
    let forest = tree.forest();
    assert_eq!(descendant_mtime(&forest, &tree.mtimes, root, true), Some(mtime(90)));
    assert_eq!(descendant_mtime(&forest, &tree.mtimes, root, false), Some(mtime(10)));
    assert_eq!(descendant_mtime(&forest, &tree.mtimes, 1, true), Some(mtime(90)));
    assert_eq!(descendant_mtime(&forest, &tree.mtimes, 2, true), None);
    assert_eq!(sort_time(&forest, &tree.mtimes, 2, MTimeSort::RecursiveChildrenNewest), mtime(20));
    assert_eq!(sort_time(&forest, &tree.mtimes, 1, MTimeSort::Entry), mtime(10));
    assert_eq!(sort_time(&forest, &tree.mtimes, 1, MTimeSort::RecursiveChildrenOldest), mtime(20));
}
