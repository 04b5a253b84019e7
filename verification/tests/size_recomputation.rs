use dua::deletion::Forest;
use dua::recompute::recompute_sizes_recursively;

/// root(0) -> a(1) -> a1(3), a2(4); root -> b(2) -> b1(5) -> b11(6)
fn forest() -> Forest {
    Forest {
        parent: vec![None, Some(0), Some(0), Some(1), Some(1), Some(2), Some(5)],
        depth: vec![0, 1, 1, 2, 2, 2, 3],
    }
}

#[test]
fn sizes_and_counts_are_recomputed_from_children_up_to_the_root() {
    let f = forest();
    let mut sizes: Vec<u128> = vec![999, 999, 7, 10, 20, 999, 5];
    let mut counts: Vec<Option<u64>> = vec![Some(100), Some(100), Some(1), None, None, Some(100), None];
    recompute_sizes_recursively(&f, &mut sizes, &mut counts, 5);
    assert_eq!(sizes, vec![1004, 999, 5, 10, 20, 5, 5]);
    assert_eq!(counts[5], Some(1));
    assert_eq!(counts[2], Some(1));
    assert_eq!(counts[0], Some(101));
}

#[test]
fn recomputing_a_leaf_gives_it_no_size_and_no_entries() {
    let f = forest();
    let mut sizes: Vec<u128> = vec![0, 30, 9, 10, 20, 9, 9];
    let mut counts: Vec<Option<u64>> = vec![None, Some(2), Some(2), None, None, Some(1), None];
    recompute_sizes_recursively(&f, &mut sizes, &mut counts, 3);
    assert_eq!(sizes[3], 0);
    assert_eq!(counts[3], Some(0));
    assert_eq!(sizes[1], 20);
    assert_eq!(counts[1], Some(1));
    assert_eq!(sizes[0], 29);
    assert_eq!(counts[0], Some(3));
    assert_eq!(sizes[4], 20);
    assert_eq!(sizes[6], 9);
}
