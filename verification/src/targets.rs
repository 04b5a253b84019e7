//! The paths a deletion starts from: every marked entry but the tree root, in path order, with
//! entries that a marked directory above them takes along left out.
use vstd::prelude::*;
use crate::diff::{
    compare_components, components_order, lemma_components_equal, lemma_components_order_flips,
    lemma_components_order_reflexive, lemma_components_order_transitive, lemma_text_equal,
    lemma_text_order_flips, lemma_text_order_reflexive, texts, text_order, KeyOrder,
};
use crate::hub::{path_starts_with, starts_with_path};
use crate::sorting::{lemma_ordered_positions_cover, sort_positions};

verus! {

/// An entry marked for deletion.
#[derive(Clone, Debug)]
pub struct MarkedEntry {
    /// The entry's node in the tree.
    pub index: usize,
    /// The components of its path.
    pub path: Vec<String>,
    /// Whether it is a directory.
    pub is_dir: bool,
}

/// The path of marked entry `i`.
pub open spec fn marked_path(marked: Seq<MarkedEntry>, i: int) -> Seq<Seq<char>> {
    texts(marked[i].path@)
}

/// Whether no two marked entries share a path, as no two nodes of a tree do.
pub open spec fn distinct_paths(marked: Seq<MarkedEntry>) -> bool {
    forall|a: int, b: int| 0 <= a < marked.len() && 0 <= b < marked.len() && a != b
        ==> marked_path(marked, a) != marked_path(marked, b)
}

/// Whether marked entry `i` goes along with another marked directory above it; the tree root
/// `root` is never deleted and takes nothing along.
pub open spec fn within_marked_directory(marked: Seq<MarkedEntry>, root: usize, i: int) -> bool {
    exists|d: int| 0 <= d < marked.len() && marked[d].index != root && marked[d].is_dir && d != i
        && starts_with_path(marked_path(marked, i), #[trigger] marked_path(marked, d))
}

/// Whether marked entry `i` is a path the deletion starts from.
pub open spec fn deletion_target(marked: Seq<MarkedEntry>, root: usize, i: int) -> bool {
    marked[i].index != root && !within_marked_directory(marked, root, i)
}

proof fn lemma_prefix_is_less(a: Seq<Seq<char>>, b: Seq<Seq<char>>)
    requires
        starts_with_path(b, a),
        a != b,
    ensures
        components_order(a, b) == KeyOrder::Less,
    decreases a.len(),
{
    if a.len() == 0 {
        assert(b.len() > 0) by {
            if b.len() == 0 {
                assert(a =~= b);
            }
        }
    } else {
        assert(b[0] == a[0]) by {
            assert(b.take(a.len() as int)[0] == b[0]);
        }
        lemma_text_order_reflexive(a[0]);
        assert(b.drop_first().take(a.drop_first().len() as int) =~= a.drop_first()) by {
            assert forall|k: int| 0 <= k < a.len() - 1 implies b.drop_first()[k] == a.drop_first()[k] by {
                assert(b.take(a.len() as int)[k + 1] == a[k + 1]);
            }
        }
        assert(a.drop_first() != b.drop_first()) by {
            if a.drop_first() == b.drop_first() {
                assert(a =~= b) by {
                    assert forall|k: int| 0 <= k < a.len() implies a[k] == b[k] by {
                        if k > 0 {
                            assert(a.drop_first()[k - 1] == b.drop_first()[k - 1]);
                        }
                    }
                }
            }
        }
        lemma_prefix_is_less(a.drop_first(), b.drop_first());
    }
}

/// The paths between a path and one that starts with it all start with it too.
proof fn lemma_prefix_block(a: Seq<Seq<char>>, b: Seq<Seq<char>>, c: Seq<Seq<char>>)
    requires
        components_order(a, b) == KeyOrder::Less,
        components_order(b, c) == KeyOrder::Less,
        starts_with_path(c, a),
    ensures
        starts_with_path(b, a),
    decreases a.len(),
{
    if a.len() == 0 {
        assert(b.take(0) =~= a);
    } else {
        assert(c[0] == a[0]) by {
            assert(c.take(a.len() as int)[0] == c[0]);
        }
        lemma_text_order_flips(a[0], b[0]);
        let ab = text_order(a[0], b[0]);
        assert(b.len() > 0);
        assert(c.len() > 0);
        if ab == KeyOrder::Less {
            assert(text_order(b[0], c[0]) == KeyOrder::Greater);
            assert(false);
        }
        if ab == KeyOrder::Equal {
            lemma_text_equal(a[0], b[0]);
            lemma_text_order_reflexive(b[0]);
            assert(c.drop_first().take(a.drop_first().len() as int) =~= a.drop_first()) by {
                assert forall|k: int| 0 <= k < a.len() - 1 implies c.drop_first()[k] == a.drop_first()[k] by {
                    assert(c.take(a.len() as int)[k + 1] == a[k + 1]);
                }
            }
            lemma_prefix_block(a.drop_first(), b.drop_first(), c.drop_first());
            assert(b.take(a.len() as int) =~= a) by {
                assert forall|k: int| 0 <= k < a.len() implies b[k] == a[k] by {
                    if k > 0 {
                        assert(b.drop_first().take(a.drop_first().len() as int)[k - 1] == a.drop_first()[k - 1]);
                    }
                }
            }
        }
    }
}

proof fn lemma_starts_with_transitive(a: Seq<Seq<char>>, b: Seq<Seq<char>>, c: Seq<Seq<char>>)
    requires
        starts_with_path(a, b),
        starts_with_path(b, c),
    ensures
        starts_with_path(a, c),
{
    assert(a.take(c.len() as int) =~= b.take(c.len() as int));
}

proof fn lemma_less_asymmetric(a: Seq<Seq<char>>, b: Seq<Seq<char>>)
    requires
        components_order(a, b) == KeyOrder::Less,
    ensures
        components_order(b, a) == KeyOrder::Greater,
        a != b,
{
    lemma_components_order_flips(a, b);
    lemma_components_order_reflexive(a);
}

/// The positions of the marked entries other than the tree root, in order.
fn deletable(marked: &Vec<MarkedEntry>, root: usize) -> (r: Vec<usize>)
    ensures
        forall|k: int| 0 <= k < r@.len() ==> #[trigger] r@[k] < marked@.len() && marked@[r@[k] as int].index != root,
        forall|x: int, y: int| 0 <= x < y < r@.len() ==> #[trigger] r@[x] < #[trigger] r@[y],
        forall|i: int| 0 <= i < marked@.len() && marked@[i].index != root ==> exists|k: int| 0 <= k < r@.len() && #[trigger] r@[k] == i,
{
    let mut r: Vec<usize> = Vec::new();
    let mut i: usize = 0;
    while i < marked.len()
        invariant
            i <= marked@.len(),
            forall|k: int| 0 <= k < r@.len() ==> #[trigger] r@[k] < i && marked@[r@[k] as int].index != root,
            forall|x: int, y: int| 0 <= x < y < r@.len() ==> #[trigger] r@[x] < #[trigger] r@[y],
            forall|j: int| 0 <= j < i && marked@[j].index != root ==> exists|k: int| 0 <= k < r@.len() && #[trigger] r@[k] == j,
        decreases marked@.len() - i,
    {
        if marked[i].index != root {
            let ghost prior = r@;
            r.push(i);
            proof {
                assert forall|j: int| 0 <= j < i + 1 && marked@[j].index != root implies exists|k: int| 0 <= k < r@.len() && #[trigger] r@[k] == j by {
                    if j == i {
                        assert(r@[prior.len() as int] == j);
                    } else {
                        let k = choose|k: int| 0 <= k < prior.len() && #[trigger] prior[k] == j;
                        assert(r@[k] == prior[k]);
                    }
                }
            }
        }
        i = i + 1;
    }
    r
}

/// The positions of the marked entries other than the tree root, in path order.
fn deletable_in_path_order(marked: &Vec<MarkedEntry>, root: usize) -> (s: Vec<usize>)
    requires
        distinct_paths(marked@),
    ensures
        forall|k: int| 0 <= k < s@.len() ==> #[trigger] s@[k] < marked@.len() && marked@[s@[k] as int].index != root,
        forall|x: int, y: int| 0 <= x < y < s@.len()
            ==> components_order(marked_path(marked@, #[trigger] s@[x] as int), marked_path(marked@, #[trigger] s@[y] as int)) == KeyOrder::Less,
        forall|i: int| 0 <= i < marked@.len() && marked@[i].index != root ==> exists|k: int| 0 <= k < s@.len() && #[trigger] s@[k] == i,
{
    let cand = deletable(marked, root);
    let ghost rel = |a: int, b: int| components_order(marked_path(marked@, cand@[a] as int), marked_path(marked@, cand@[b] as int)) == KeyOrder::Less;
    let before = |a: usize, b: usize| -> (r: bool)
        requires
            a < cand@.len(),
            b < cand@.len(),
        ensures
            r == (components_order(marked_path(marked@, cand@[a as int] as int), marked_path(marked@, cand@[b as int] as int)) == KeyOrder::Less),
    {
        match compare_components(&marked[cand[a]].path, &marked[cand[b]].path) {
            KeyOrder::Less => true,
            _ => false,
        }
    };
    let m = cand.len();
    proof {
        assert forall|i: usize, j: usize| i < m && j < m implies #[trigger] before.requires((i, j)) by {}
        assert forall|i: usize, j: usize, b: bool| i < m && j < m && #[trigger] before.ensures((i, j), b) implies b == rel(i as int, j as int) by {}
        assert forall|i: int| 0 <= i < m implies !#[trigger] rel(i, i) by {
            lemma_components_order_reflexive(marked_path(marked@, cand@[i] as int));
        }
        assert forall|i: int, j: int| 0 <= i < m && 0 <= j < m && i != j implies #[trigger] rel(i, j) || #[trigger] rel(j, i) by {
            let pi = marked_path(marked@, cand@[i] as int);
            let pj = marked_path(marked@, cand@[j] as int);
            lemma_components_order_flips(pi, pj);
            if components_order(pi, pj) == KeyOrder::Equal {
                lemma_components_equal(pi, pj);
                if i < j {
                    assert(cand@[i] < cand@[j]);
                } else {
                    assert(cand@[j] < cand@[i]);
                }
            }
        }
        assert forall|i: int, j: int, k: int| 0 <= i < m && 0 <= j < m && 0 <= k < m && #[trigger] rel(i, j) && #[trigger] rel(j, k) implies rel(i, k) by {
            lemma_components_order_transitive(
                marked_path(marked@, cand@[i] as int),
                marked_path(marked@, cand@[j] as int),
                marked_path(marked@, cand@[k] as int),
            );
        }
    }
    let order = sort_positions(&before, Ghost(rel), m);
    let mut s: Vec<usize> = Vec::new();
    let mut k: usize = 0;
    while k < order.len()
        invariant
            m == cand@.len(),
            order@.len() == m,
            forall|j: int| 0 <= j < order@.len() ==> #[trigger] order@[j] < m,
            k <= order@.len(),
            s@.len() == k,
            forall|j: int| 0 <= j < k ==> #[trigger] s@[j] == cand@[order@[j] as int],
        decreases order@.len() - k,
    {
        s.push(cand[order[k]]);
        k = k + 1;
    }
    proof {
        assert forall|x: int, y: int| 0 <= x < y < s@.len()
            implies components_order(marked_path(marked@, #[trigger] s@[x] as int), marked_path(marked@, #[trigger] s@[y] as int)) == KeyOrder::Less by {
            assert(rel(order@[x] as int, order@[y] as int));
        }
        assert forall|i: int| 0 <= i < marked@.len() && marked@[i].index != root implies exists|k: int| 0 <= k < s@.len() && #[trigger] s@[k] == i by {
            let c = choose|c: int| 0 <= c < cand@.len() && #[trigger] cand@[c] == i;
            lemma_ordered_positions_cover(rel, order@, m as int, c);
            let j = choose|j: int| 0 <= j < order@.len() && order@[j] == c;
            assert(s@[j] == i);
        }
    }
    s
}

/// Whether each earlier marked directory with later entries in it is covered by the last kept
/// directory.
pub open spec fn covers_pending(marked: Seq<MarkedEntry>, s: Seq<usize>, n: int, last_dir: Option<usize>) -> bool {
    forall|j: int, t: int| 0 <= j < n <= t < s.len() && marked[#[trigger] s[j] as int].is_dir
        && starts_with_path(marked_path(marked, #[trigger] s[t] as int), marked_path(marked, s[j] as int))
        ==> (last_dir matches Some(d) && starts_with_path(marked_path(marked, s[j] as int), marked_path(marked, d as int)))
}

/// Whether `s` lists the marked entries other than the tree root, each once, in path order.
#[verifier::opaque]
pub open spec fn in_deletion_order(marked: Seq<MarkedEntry>, root: usize, s: Seq<usize>) -> bool {
    &&& forall|k: int| 0 <= k < s.len() ==> #[trigger] s[k] < marked.len() && marked[s[k] as int].index != root
    &&& forall|x: int, y: int| 0 <= x < y < s.len()
        ==> components_order(marked_path(marked, #[trigger] s[x] as int), marked_path(marked, #[trigger] s[y] as int)) == KeyOrder::Less
    &&& forall|i: int| 0 <= i < marked.len() && marked[i].index != root ==> exists|k: int| 0 <= k < s.len() && #[trigger] s[k] == i
}

/// Whether every target found so far is one of the first `n` entries, the last one too.
#[verifier::opaque]
pub open spec fn kept_from(s: Seq<usize>, n: int, kept: Seq<usize>) -> bool {
    &&& forall|k: int| 0 <= k < kept.len() ==> exists|j: int| 0 <= j < n && #[trigger] kept[k] == s[j]
    &&& kept.len() > 0 ==> exists|j: int| 0 <= j < n && kept.last() == #[trigger] s[j]
}

/// Whether every entry found so far is a target.
#[verifier::opaque]
pub open spec fn all_targets(marked: Seq<MarkedEntry>, root: usize, kept: Seq<usize>) -> bool {
    forall|k: int| 0 <= k < kept.len() ==> #[trigger] kept[k] < marked.len() && deletion_target(marked, root, kept[k] as int)
}

/// Whether the targets found so far follow each other in path order.
#[verifier::opaque]
pub open spec fn kept_in_order(marked: Seq<MarkedEntry>, kept: Seq<usize>) -> bool {
    forall|x: int, y: int| 0 <= x < y < kept.len()
        ==> components_order(marked_path(marked, #[trigger] kept[x] as int), marked_path(marked, #[trigger] kept[y] as int)) == KeyOrder::Less
}

/// Whether the targets found so far come before the entries from `n` on.
#[verifier::opaque]
pub open spec fn kept_before_rest(marked: Seq<MarkedEntry>, s: Seq<usize>, n: int, kept: Seq<usize>) -> bool {
    forall|k: int, t: int| 0 <= k < kept.len() && n <= t < s.len()
        ==> components_order(marked_path(marked, #[trigger] kept[k] as int), marked_path(marked, #[trigger] s[t] as int)) == KeyOrder::Less
}

/// Whether `last_dir` is the last target, a marked directory, where it is known.
pub open spec fn last_dir_kept(marked: Seq<MarkedEntry>, root: usize, kept: Seq<usize>, last_dir: Option<usize>) -> bool {
    last_dir matches Some(d) ==> d < marked.len() && marked[d as int].is_dir && marked[d as int].index != root
        && kept.len() > 0 && kept.last() == d
}

/// Whether each of the first `n` entries is a target found, or goes along with a marked directory.
#[verifier::opaque]
pub open spec fn decided(marked: Seq<MarkedEntry>, root: usize, s: Seq<usize>, n: int, kept: Seq<usize>) -> bool {
    forall|j: int| 0 <= j < n ==> (exists|k: int| 0 <= k < kept.len() && #[trigger] kept[k] == s[j])
        || within_marked_directory(marked, root, #[trigger] s[j] as int)
}

/// The state of the pass over the first `n` entries of `s`: `kept` holds the targets found so
/// far, in path order, and `last_dir` the last of them where it is a directory.
pub open spec fn pass_state(marked: Seq<MarkedEntry>, root: usize, s: Seq<usize>, n: int, kept: Seq<usize>, last_dir: Option<usize>) -> bool {
    &&& 0 <= n <= s.len()
    &&& kept_from(s, n, kept)
    &&& all_targets(marked, root, kept)
    &&& kept_in_order(marked, kept)
    &&& kept_before_rest(marked, s, n, kept)
    &&& last_dir_kept(marked, root, kept, last_dir)
    &&& decided(marked, root, s, n, kept)
    &&& covers_pending(marked, s, n, last_dir)
}

proof fn lemma_pass_starts(marked: Seq<MarkedEntry>, root: usize, s: Seq<usize>)
    ensures
        pass_state(marked, root, s, 0, Seq::empty(), None),
{
    reveal(kept_from);
    reveal(all_targets);
    reveal(kept_in_order);
    reveal(kept_before_rest);
    reveal(decided);
}

proof fn lemma_pass_bounds(marked: Seq<MarkedEntry>, root: usize, s: Seq<usize>, n: int, kept: Seq<usize>, last_dir: Option<usize>)
    requires
        pass_state(marked, root, s, n, kept, last_dir),
    ensures
        forall|k: int| 0 <= k < kept.len() ==> #[trigger] kept[k] < marked.len(),
        last_dir matches Some(d) ==> d < marked.len(),
{
    reveal(all_targets);
}

/// An entry never equals the last target: paths are distinct and the targets come earlier.
proof fn lemma_pass_never_repeats(
    marked: Seq<MarkedEntry>,
    root: usize,
    s: Seq<usize>,
    n: int,
    kept: Seq<usize>,
    last_dir: Option<usize>,
)
    requires
        pass_state(marked, root, s, n, kept, last_dir),
        n < s.len(),
        kept.len() > 0,
    ensures
        marked_path(marked, kept.last() as int) != marked_path(marked, s[n] as int),
        kept.last() != s[n],
{
    reveal(kept_before_rest);
    let k = kept.len() - 1;
    assert(components_order(marked_path(marked, kept[k] as int), marked_path(marked, s[n] as int)) == KeyOrder::Less);
    lemma_less_asymmetric(marked_path(marked, kept[k] as int), marked_path(marked, s[n] as int));
}

/// Where an earlier marked directory holds a later entry, the entry at `n` lies within the last
/// directory kept.
proof fn lemma_pending_directory_covers(
    marked: Seq<MarkedEntry>,
    root: usize,
    s: Seq<usize>,
    n: int,
    last_dir: Option<usize>,
    j: int,
    t: int,
)
    requires
        in_deletion_order(marked, root, s),
        covers_pending(marked, s, n, last_dir),
        0 <= j < n,
        n < t < s.len(),
        marked[s[j] as int].is_dir,
        starts_with_path(marked_path(marked, s[t] as int), marked_path(marked, s[j] as int)),
    ensures
        last_dir matches Some(d) && starts_with_path(marked_path(marked, s[n] as int), marked_path(marked, d as int))
            && starts_with_path(marked_path(marked, s[j] as int), marked_path(marked, d as int)),
{
    reveal(in_deletion_order);
    lemma_prefix_block(
        marked_path(marked, s[j] as int),
        marked_path(marked, s[n] as int),
        marked_path(marked, s[t] as int),
    );
    let d = last_dir->0;
    lemma_starts_with_transitive(marked_path(marked, s[n] as int), marked_path(marked, s[j] as int), marked_path(marked, d as int));
}

/// An entry within the last directory kept is left out.
proof fn lemma_pass_skips(
    marked: Seq<MarkedEntry>,
    root: usize,
    s: Seq<usize>,
    n: int,
    kept: Seq<usize>,
    last_dir: Option<usize>,
)
    requires
        in_deletion_order(marked, root, s),
        pass_state(marked, root, s, n, kept, last_dir),
        n < s.len(),
        last_dir matches Some(d) && starts_with_path(marked_path(marked, s[n] as int), marked_path(marked, d as int)),
    ensures
        pass_state(marked, root, s, n + 1, kept, last_dir),
{
    let x = s[n];
    let d = last_dir->0;
    lemma_pass_never_repeats(marked, root, s, n, kept, last_dir);
    assert(within_marked_directory(marked, root, x as int)) by {
        reveal(in_deletion_order);
        assert(starts_with_path(marked_path(marked, x as int), marked_path(marked, d as int)));
    }
    assert(kept_from(s, n + 1, kept)) by {
        reveal(kept_from);
        assert forall|k: int| 0 <= k < kept.len() implies exists|j: int| 0 <= j < n + 1 && #[trigger] kept[k] == s[j] by {
            let j = choose|j: int| 0 <= j < n && #[trigger] kept[k] == s[j];
        }
        if kept.len() > 0 {
            let j = choose|j: int| 0 <= j < n && kept.last() == #[trigger] s[j];
        }
    }
    assert(kept_before_rest(marked, s, n + 1, kept)) by {
        reveal(kept_before_rest);
    }
    assert(decided(marked, root, s, n + 1, kept)) by {
        reveal(decided);
    }
    assert forall|j: int, t: int| 0 <= j < n + 1 <= t < s.len() && marked[#[trigger] s[j] as int].is_dir
        && starts_with_path(marked_path(marked, #[trigger] s[t] as int), marked_path(marked, s[j] as int))
        implies (last_dir matches Some(d) && starts_with_path(marked_path(marked, s[j] as int), marked_path(marked, d as int))) by {
        if j < n {
            lemma_pending_directory_covers(marked, root, s, n, last_dir, j, t);
        }
    }
}

/// An entry that lies within no earlier directory kept is a target.
proof fn lemma_pass_keeps(
    marked: Seq<MarkedEntry>,
    root: usize,
    s: Seq<usize>,
    n: int,
    kept: Seq<usize>,
    last_dir: Option<usize>,
)
    requires
        distinct_paths(marked),
        in_deletion_order(marked, root, s),
        pass_state(marked, root, s, n, kept, last_dir),
        n < s.len(),
        !(last_dir matches Some(d) && starts_with_path(marked_path(marked, s[n] as int), marked_path(marked, d as int))),
    ensures
        pass_state(marked, root, s, n + 1, kept.push(s[n]),
            if marked[s[n] as int].is_dir { Some(s[n]) } else { None }),
{
    let x = s[n];
    assert(!within_marked_directory(marked, root, x as int)) by {
        if within_marked_directory(marked, root, x as int) {
            reveal(in_deletion_order);
            let d = choose|d: int| 0 <= d < marked.len() && marked[d].index != root && marked[d].is_dir && d != x
                && starts_with_path(marked_path(marked, x as int), #[trigger] marked_path(marked, d));
            let j = choose|j: int| 0 <= j < s.len() && #[trigger] s[j] == d;
            lemma_prefix_is_less(marked_path(marked, d), marked_path(marked, x as int));
            if j > n {
                lemma_less_asymmetric(marked_path(marked, s[n] as int), marked_path(marked, s[j] as int));
            }
            assert(j != n);
            let dd = last_dir->0;
            lemma_starts_with_transitive(marked_path(marked, x as int), marked_path(marked, d), marked_path(marked, dd as int));
        }
    }
    let after = kept.push(x);
    let last = if marked[x as int].is_dir { Some(x) } else { None };
    assert(x < marked.len() && marked[x as int].index != root) by {
        reveal(in_deletion_order);
    }
    assert(kept_from(s, n + 1, after)) by {
        reveal(kept_from);
        assert forall|k: int| 0 <= k < after.len() implies exists|j: int| 0 <= j < n + 1 && #[trigger] after[k] == s[j] by {
            if k == kept.len() {
                assert(after[k] == s[n]);
            } else {
                assert(after[k] == kept[k]);
                let j = choose|j: int| 0 <= j < n && #[trigger] kept[k] == s[j];
            }
        }
        assert(after.last() == s[n]);
    }
    assert(all_targets(marked, root, after)) by {
        reveal(all_targets);
        assert forall|k: int| 0 <= k < after.len() implies #[trigger] after[k] < marked.len() && deletion_target(marked, root, after[k] as int) by {
            if k < kept.len() {
                assert(after[k] == kept[k]);
            }
        }
    }
    assert(kept_in_order(marked, after)) by {
        reveal(kept_in_order);
        reveal(kept_before_rest);
        assert forall|x2: int, y2: int| 0 <= x2 < y2 < after.len()
            implies components_order(marked_path(marked, #[trigger] after[x2] as int), marked_path(marked, #[trigger] after[y2] as int)) == KeyOrder::Less by {
            assert(after[x2] == kept[x2]);
            if y2 < kept.len() {
                assert(after[y2] == kept[y2]);
            }
        }
    }
    assert(kept_before_rest(marked, s, n + 1, after)) by {
        reveal(kept_before_rest);
        assert forall|k: int, t: int| 0 <= k < after.len() && n + 1 <= t < s.len()
            implies components_order(marked_path(marked, #[trigger] after[k] as int), marked_path(marked, #[trigger] s[t] as int)) == KeyOrder::Less by {
            reveal(in_deletion_order);
            if k < kept.len() {
                assert(after[k] == kept[k]);
                lemma_components_order_transitive(
                    marked_path(marked, kept[k] as int),
                    marked_path(marked, s[n] as int),
                    marked_path(marked, s[t] as int),
                );
            } else {
                assert(after[k] == s[n]);
            }
        }
    }
    assert(decided(marked, root, s, n + 1, after)) by {
        reveal(decided);
        assert forall|j: int| 0 <= j < n + 1 implies (exists|k: int| 0 <= k < after.len() && #[trigger] after[k] == s[j])
            || within_marked_directory(marked, root, #[trigger] s[j] as int) by {
            if j == n {
                assert(after[kept.len() as int] == s[j]);
            } else if exists|k: int| 0 <= k < kept.len() && #[trigger] kept[k] == s[j] {
                let k = choose|k: int| 0 <= k < kept.len() && #[trigger] kept[k] == s[j];
                assert(after[k] == kept[k]);
            }
        }
    }
    assert forall|j: int, t: int| 0 <= j < n + 1 <= t < s.len() && marked[#[trigger] s[j] as int].is_dir
        && starts_with_path(marked_path(marked, #[trigger] s[t] as int), marked_path(marked, s[j] as int))
        implies (last matches Some(d) && starts_with_path(marked_path(marked, s[j] as int), marked_path(marked, d as int))) by {
        if j == n {
            assert(marked_path(marked, s[j] as int).take(marked_path(marked, s[j] as int).len() as int)
                =~= marked_path(marked, s[j] as int));
        } else {
            lemma_pending_directory_covers(marked, root, s, n, last_dir, j, t);
        }
    }
}

proof fn lemma_pass_ends(marked: Seq<MarkedEntry>, root: usize, s: Seq<usize>, kept: Seq<usize>, last_dir: Option<usize>)
    requires
        in_deletion_order(marked, root, s),
        pass_state(marked, root, s, s.len() as int, kept, last_dir),
    ensures
        forall|k: int| 0 <= k < kept.len() ==> #[trigger] kept[k] < marked.len(),
        forall|x: int, y: int| 0 <= x < y < kept.len()
            ==> components_order(marked_path(marked, #[trigger] kept[x] as int), marked_path(marked, #[trigger] kept[y] as int)) == KeyOrder::Less,
        forall|k: int| 0 <= k < kept.len() ==> deletion_target(marked, root, #[trigger] kept[k] as int),
        forall|i: int| 0 <= i < marked.len() && deletion_target(marked, root, i)
            ==> exists|k: int| 0 <= k < kept.len() && #[trigger] kept[k] == i,
{
    reveal(in_deletion_order);
    reveal(decided);
    reveal(all_targets);
    reveal(kept_in_order);
    assert forall|i: int| 0 <= i < marked.len() && deletion_target(marked, root, i)
        implies exists|k: int| 0 <= k < kept.len() && #[trigger] kept[k] == i by {
        let j = choose|j: int| 0 <= j < s.len() && #[trigger] s[j] == i;
        assert((exists|k: int| 0 <= k < kept.len() && #[trigger] kept[k] == s[j])
            || within_marked_directory(marked, root, s[j] as int));
    }
}

/// The paths a deletion starts from, as positions in `marked`, in path order: every marked
/// entry but the tree root `root`, except entries that go along with a marked directory above
/// them.
pub fn deletion_targets(marked: &Vec<MarkedEntry>, root: usize) -> (r: Vec<usize>)
    requires
        distinct_paths(marked@),
    ensures
        forall|k: int| 0 <= k < r@.len() ==> #[trigger] r@[k] < marked@.len(),
        forall|x: int, y: int| 0 <= x < y < r@.len()
            ==> components_order(marked_path(marked@, #[trigger] r@[x] as int), marked_path(marked@, #[trigger] r@[y] as int)) == KeyOrder::Less,
        forall|k: int| 0 <= k < r@.len() ==> deletion_target(marked@, root, #[trigger] r@[k] as int),
        forall|i: int| 0 <= i < marked@.len() && deletion_target(marked@, root, i)
            ==> exists|k: int| 0 <= k < r@.len() && #[trigger] r@[k] == i,
{
    let s = deletable_in_path_order(marked, root);
    proof {
        reveal(in_deletion_order);
        lemma_pass_starts(marked@, root, s@);
    }
    let mut kept: Vec<usize> = Vec::new();
    let mut last_dir: Option<usize> = None;
    let mut n: usize = 0;
    while n < s.len()
        invariant
            distinct_paths(marked@),
            in_deletion_order(marked@, root, s@),
            forall|k: int| 0 <= k < s@.len() ==> #[trigger] s@[k] < marked@.len(),
            n <= s@.len(),
            pass_state(marked@, root, s@, n as int, kept@, last_dir),
        decreases s@.len() - n,
    {
        proof {
            lemma_pass_bounds(marked@, root, s@, n as int, kept@, last_dir);
        }
        let x = s[n];
        let same_as_last = kept.len() > 0 && match compare_components(&marked[kept[kept.len() - 1]].path, &marked[x].path) {
            KeyOrder::Equal => true,
            _ => false,
        };
        let inside = match last_dir {
            Some(d) => path_starts_with(&marked[x].path, &marked[d].path),
            None => false,
        };
        proof {
            if kept@.len() > 0 {
                let p = marked_path(marked@, kept@.last() as int);
                let q = marked_path(marked@, x as int);
                if same_as_last {
                    lemma_components_equal(p, q);
                } else if p == q {
                    lemma_components_order_reflexive(p);
                }
            }
            if kept@.len() > 0 {
                lemma_pass_never_repeats(marked@, root, s@, n as int, kept@, last_dir);
            }
            if inside {
                lemma_pass_skips(marked@, root, s@, n as int, kept@, last_dir);
            } else {
                lemma_pass_keeps(marked@, root, s@, n as int, kept@, last_dir);
            }
        }
        if !same_as_last && !inside {
            last_dir = if marked[x].is_dir { Some(x) } else { None };
            kept.push(x);
        }
        n = n + 1;
    }
    proof {
        lemma_pass_ends(marked@, root, s@, kept@, last_dir);
    }
    kept
}

/// The paths a deletion starts from never repeat, and none lies within another that is a
/// directory: each path is deleted once.
pub proof fn law_deletion_targets_never_nest(marked: Seq<MarkedEntry>, root: usize, r: Seq<usize>, a: int, b: int)
    requires
        forall|k: int| 0 <= k < r.len() ==> #[trigger] r[k] < marked.len(),
        forall|x: int, y: int| 0 <= x < y < r.len()
            ==> components_order(marked_path(marked, #[trigger] r[x] as int), marked_path(marked, #[trigger] r[y] as int)) == KeyOrder::Less,
        forall|k: int| 0 <= k < r.len() ==> deletion_target(marked, root, #[trigger] r[k] as int),
        0 <= a < r.len(),
        0 <= b < r.len(),
        a != b,
    ensures
        marked_path(marked, r[a] as int) != marked_path(marked, r[b] as int),
        marked[r[b] as int].is_dir ==> !starts_with_path(marked_path(marked, r[a] as int), marked_path(marked, r[b] as int)),
{
    if a < b {
        lemma_less_asymmetric(marked_path(marked, r[a] as int), marked_path(marked, r[b] as int));
    } else {
        lemma_less_asymmetric(marked_path(marked, r[b] as int), marked_path(marked, r[a] as int));
    }
    assert(deletion_target(marked, root, r[a] as int));
    assert(deletion_target(marked, root, r[b] as int));
    if marked[r[b] as int].is_dir && starts_with_path(marked_path(marked, r[a] as int), marked_path(marked, r[b] as int)) {
        assert(within_marked_directory(marked, root, r[a] as int));
    }
}

} // verus!
