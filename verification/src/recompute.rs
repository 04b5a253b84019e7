//! Directory sizes and entry counts recomputed from their children, from one entry up to the
//! root of the tree.
use vstd::prelude::*;
use crate::deletion::{ancestors, lemma_ancestors_step, Forest};

verus! {

/// Entry `i` followed by its ancestors, nearest first.
pub open spec fn path_up(f: Forest, i: usize) -> Seq<usize> {
    seq![i] + ancestors(f, i as int)
}

/// The total size of the children of `x` among the first `n` entries.
pub open spec fn child_size_total(f: Forest, sizes: Seq<u128>, x: usize, n: int) -> int
    decreases n,
{
    if n <= 0 {
        0
    } else {
        child_size_total(f, sizes, x, n - 1) + if f.parent@[n - 1] == Some(x) { sizes[n - 1] as int } else { 0 }
    }
}

/// The number of entries the children of `x` among the first `n` entries stand for: each its
/// own entry count, or one where it has none.
pub open spec fn child_count_total(f: Forest, counts: Seq<Option<u64>>, x: usize, n: int) -> int
    decreases n,
{
    if n <= 0 {
        0
    } else {
        child_count_total(f, counts, x, n - 1) + if f.parent@[n - 1] == Some(x) {
            match counts[n - 1] {
                Some(c) => c as int,
                None => 1,
            }
        } else {
            0
        }
    }
}

/// The sizes and entry counts once the first `k` entries of `path` were recomputed in turn, each
/// from its children's values at that moment.
pub open spec fn recomputed(f: Forest, sizes: Seq<u128>, counts: Seq<Option<u64>>, path: Seq<usize>, k: nat) -> (Seq<u128>, Seq<Option<u64>>)
    decreases k,
{
    if k == 0 {
        (sizes, counts)
    } else {
        let prior = recomputed(f, sizes, counts, path, (k - 1) as nat);
        let x = path[k - 1];
        let n = f.parent@.len() as int;
        (
            prior.0.update(x as int, child_size_total(f, prior.0, x, n) as u128),
            prior.1.update(x as int, Some(child_count_total(f, prior.1, x, n) as u64)),
        )
    }
}

/// Whether every total computed along `path` fits its type.
pub open spec fn recomputation_fits(f: Forest, sizes: Seq<u128>, counts: Seq<Option<u64>>, path: Seq<usize>) -> bool {
    forall|k: nat| k < path.len() ==> {
        let prior = #[trigger] recomputed(f, sizes, counts, path, k);
        &&& child_size_total(f, prior.0, path[k as int], f.parent@.len() as int) <= u128::MAX
        &&& child_count_total(f, prior.1, path[k as int], f.parent@.len() as int) <= u64::MAX
    }
}

proof fn lemma_path_links(f: Forest, i: usize, k: int)
    requires
        f.wf(),
        i < f.parent@.len(),
        0 <= k < path_up(f, i).len(),
    ensures
        path_up(f, i)[k] < f.parent@.len(),
        f.depth@[path_up(f, i)[k] as int] == f.depth@[i as int] - k,
        k + 1 < path_up(f, i).len() ==> f.parent@[path_up(f, i)[k] as int] == Some(path_up(f, i)[k + 1]),
        k + 1 == path_up(f, i).len() ==> f.parent@[path_up(f, i)[k] as int] is None,
    decreases f.depth@[i as int],
{
    match f.parent@[i as int] {
        None => {
            assert(ancestors(f, i as int) =~= Seq::<usize>::empty());
        },
        Some(p) => {
            lemma_ancestors_step(f, i as int);
            assert(path_up(f, i) =~= seq![i] + path_up(f, p));
            if k > 0 {
                lemma_path_links(f, p, k - 1);
                assert(path_up(f, i)[k] == path_up(f, p)[k - 1]);
            } else {
                assert(path_up(f, p)[0] == p);
            }
        },
    }
}

proof fn lemma_path_distinct(f: Forest, i: usize, j: int, k: int)
    requires
        f.wf(),
        i < f.parent@.len(),
        0 <= j < path_up(f, i).len(),
        0 <= k < path_up(f, i).len(),
        j != k,
    ensures
        path_up(f, i)[j] != path_up(f, i)[k],
{
    lemma_path_links(f, i, j);
    lemma_path_links(f, i, k);
}

proof fn lemma_size_total_update(f: Forest, s: Seq<u128>, y: int, v: u128, x: usize, n: int)
    requires
        0 <= n <= s.len(),
        n <= f.parent@.len(),
        0 <= y < s.len(),
        f.parent@[y] != Some(x),
    ensures
        child_size_total(f, s.update(y, v), x, n) == child_size_total(f, s, x, n),
    decreases n,
{
    if n > 0 {
        lemma_size_total_update(f, s, y, v, x, n - 1);
    }
}

proof fn lemma_count_total_update(f: Forest, c: Seq<Option<u64>>, y: int, v: Option<u64>, x: usize, n: int)
    requires
        0 <= n <= c.len(),
        n <= f.parent@.len(),
        0 <= y < c.len(),
        f.parent@[y] != Some(x),
    ensures
        child_count_total(f, c.update(y, v), x, n) == child_count_total(f, c, x, n),
    decreases n,
{
    if n > 0 {
        lemma_count_total_update(f, c, y, v, x, n - 1);
    }
}

proof fn lemma_totals_grow(f: Forest, s: Seq<u128>, c: Seq<Option<u64>>, x: usize, m: int, n: int)
    requires
        0 <= m <= n,
    ensures
        child_size_total(f, s, x, m) <= child_size_total(f, s, x, n),
        child_count_total(f, c, x, m) <= child_count_total(f, c, x, n),
    decreases n - m,
{
    if m < n {
        lemma_totals_grow(f, s, c, x, m, n - 1);
    }
}

proof fn lemma_recomputed_lengths(f: Forest, sizes: Seq<u128>, counts: Seq<Option<u64>>, i: usize, k: nat)
    requires
        f.wf(),
        sizes.len() == f.parent@.len(),
        counts.len() == f.parent@.len(),
        i < f.parent@.len(),
        k <= path_up(f, i).len(),
    ensures
        recomputed(f, sizes, counts, path_up(f, i), k).0.len() == sizes.len(),
        recomputed(f, sizes, counts, path_up(f, i), k).1.len() == counts.len(),
    decreases k,
{
    if k > 0 {
        lemma_recomputed_lengths(f, sizes, counts, i, (k - 1) as nat);
        lemma_path_links(f, i, k - 1);
    }
}

/// After the first `k` entries of the path up from `i` were recomputed, each of them holds its
/// children's totals, and every entry off that part of the path keeps its values.
proof fn lemma_recomputed_totals(f: Forest, sizes: Seq<u128>, counts: Seq<Option<u64>>, i: usize, k: nat)
    requires
        f.wf(),
        sizes.len() == f.parent@.len(),
        counts.len() == f.parent@.len(),
        i < f.parent@.len(),
        k <= path_up(f, i).len(),
        recomputation_fits(f, sizes, counts, path_up(f, i)),
    ensures
        ({
            let path = path_up(f, i);
            let state = recomputed(f, sizes, counts, path, k);
            let n = f.parent@.len() as int;
            &&& forall|j: int| 0 <= j < k ==> state.0[#[trigger] path[j] as int] == child_size_total(f, state.0, path[j], n)
                && state.1[path[j] as int] == Some(child_count_total(f, state.1, path[j], n) as u64)
            &&& forall|x: int| 0 <= x < n && !path.take(k as int).contains(x as usize) ==> state.0[x] == sizes[x] && state.1[x] == counts[x]
        }),
    decreases k,
{
    let path = path_up(f, i);
    let n = f.parent@.len() as int;
    if k > 0 {
        let km = (k - 1) as nat;
        lemma_recomputed_totals(f, sizes, counts, i, km);
        lemma_recomputed_lengths(f, sizes, counts, i, km);
        let prior = recomputed(f, sizes, counts, path, km);
        let state = recomputed(f, sizes, counts, path, k);
        let y = path[k - 1];
        lemma_path_links(f, i, k - 1);
        assert(recomputation_fits(f, sizes, counts, path));
        assert(child_size_total(f, prior.0, y, n) <= u128::MAX && child_count_total(f, prior.1, y, n) <= u64::MAX);
        lemma_totals_grow(f, prior.0, prior.1, y, 0, n);
        let new_size = child_size_total(f, prior.0, y, n) as u128;
        let new_count = Some(child_count_total(f, prior.1, y, n) as u64);
        assert(state.0 == prior.0.update(y as int, new_size));
        assert(state.1 == prior.1.update(y as int, new_count));
        assert forall|j: int| 0 <= j < k implies state.0[#[trigger] path[j] as int] == child_size_total(f, state.0, path[j], n)
            && state.1[path[j] as int] == Some(child_count_total(f, state.1, path[j], n) as u64) by {
            lemma_path_links(f, i, j);
            if j + 1 < path.len() {
                lemma_path_links(f, i, j + 1);
            }
            if k < path.len() {
                lemma_path_links(f, i, k as int);
            }
            assert(f.parent@[y as int] != Some(path[j])) by {
                if k < path.len() {
                    lemma_path_distinct(f, i, k as int, j);
                }
            }
            lemma_size_total_update(f, prior.0, y as int, new_size, path[j], n);
            lemma_count_total_update(f, prior.1, y as int, new_count, path[j], n);
            if j < k - 1 {
                lemma_path_distinct(f, i, j, k - 1);
                assert(state.0[path[j] as int] == prior.0[path[j] as int]);
                assert(prior.0[path[j] as int] == child_size_total(f, prior.0, path[j], n));
            } else {
                assert(path[j] == y);
                assert(state.0[y as int] == new_size);
                assert(new_size == child_size_total(f, prior.0, y, n));
            }
        }
        assert forall|x: int| 0 <= x < n && !path.take(k as int).contains(x as usize) implies state.0[x] == sizes[x] && state.1[x] == counts[x] by {
            assert(path.take(k as int)[k - 1] == y);
            if path.take(km as int).contains(x as usize) {
                let w = choose|w: int| 0 <= w < km && path.take(km as int)[w] == x as usize;
                assert(path.take(k as int)[w] == x as usize);
            }
        }
    }
}

/// The total size and entry count of the children of `x`.
fn child_totals(f: &Forest, sizes: &Vec<u128>, counts: &Vec<Option<u64>>, x: usize) -> (r: (u128, u64))
    requires
        sizes@.len() == f.parent@.len(),
        counts@.len() == f.parent@.len(),
        child_size_total(*f, sizes@, x, f.parent@.len() as int) <= u128::MAX,
        child_count_total(*f, counts@, x, f.parent@.len() as int) <= u64::MAX,
    ensures
        r.0 == child_size_total(*f, sizes@, x, f.parent@.len() as int),
        r.1 == child_count_total(*f, counts@, x, f.parent@.len() as int),
{
    let n = f.parent.len();
    let mut total: u128 = 0;
    let mut count: u64 = 0;
    let mut i: usize = 0;
    while i < n
        invariant
            n == f.parent@.len() == sizes@.len() == counts@.len(),
            i <= n,
            total == child_size_total(*f, sizes@, x, i as int),
            count == child_count_total(*f, counts@, x, i as int),
            child_size_total(*f, sizes@, x, n as int) <= u128::MAX,
            child_count_total(*f, counts@, x, n as int) <= u64::MAX,
        decreases n - i,
    {
        proof {
            lemma_totals_grow(*f, sizes@, counts@, x, i + 1, n as int);
        }
        if f.parent[i] == Some(x) {
            total = total + sizes[i];
            let c: u64 = match counts[i] {
                Some(c) => c,
                None => 1,
            };
            count = count + c;
        }
        i = i + 1;
    }
    (total, count)
}

/// Recompute the size and entry count of `index` and of each of its ancestors in turn, nearest
/// first, from their children: a size is the total of the children's sizes, an entry count the
/// total of the children's counts, a child without one counting once.
pub fn recompute_sizes_recursively(f: &Forest, sizes: &mut Vec<u128>, counts: &mut Vec<Option<u64>>, index: usize)
    requires
        f.wf(),
        old(sizes)@.len() == f.parent@.len(),
        old(counts)@.len() == f.parent@.len(),
        index < f.parent@.len(),
        recomputation_fits(*f, old(sizes)@, old(counts)@, path_up(*f, index)),
    ensures
        (final(sizes)@, final(counts)@) == recomputed(*f, old(sizes)@, old(counts)@, path_up(*f, index), path_up(*f, index).len()),
        forall|k: int| 0 <= k < path_up(*f, index).len() ==> {
            let x = #[trigger] path_up(*f, index)[k];
            &&& final(sizes)@[x as int] == child_size_total(*f, final(sizes)@, x, f.parent@.len() as int)
            &&& final(counts)@[x as int] == Some(child_count_total(*f, final(counts)@, x, f.parent@.len() as int) as u64)
        },
        forall|x: int| 0 <= x < f.parent@.len() && !path_up(*f, index).contains(x as usize)
            ==> final(sizes)@[x] == old(sizes)@[x] && final(counts)@[x] == old(counts)@[x],
{
    let ghost path = path_up(*f, index);
    let ghost start_sizes = sizes@;
    let ghost start_counts = counts@;
    let ghost n = f.parent@.len() as int;
    let mut current = index;
    let ghost mut k: nat = 0;
    proof {
        lemma_path_links(*f, index, 0);
    }
    loop
        invariant_except_break
            k < path.len(),
            current == path[k as int],
            current < n,
            (sizes@, counts@) == recomputed(*f, start_sizes, start_counts, path, k),
        invariant
            f.wf(),
            n == f.parent@.len(),
            sizes@.len() == n,
            counts@.len() == n,
            index < n,
            path == path_up(*f, index),
            recomputation_fits(*f, start_sizes, start_counts, path),
        ensures
            (sizes@, counts@) == recomputed(*f, start_sizes, start_counts, path, path.len()),
        decreases path.len() - k,
    {
        let (total, count) = child_totals(f, sizes, counts, current);
        sizes.set(current, total);
        counts.set(current, Some(count));
        proof {
            lemma_path_links(*f, index, k as int);
            k = k + 1;
        }
        match f.parent[current] {
            None => {
                break;
            },
            Some(p) => {
                current = p;
            },
        }
    }
    proof {
        lemma_recomputed_totals(*f, start_sizes, start_counts, index, path.len());
        assert(path.take(path.len() as int) =~= path);
    }
}

} // verus!
