//! A stable merge sort of positions by a caller's strict total order.
use vstd::prelude::*;

verus! {

/// Whether `rel` strictly and totally orders the positions below `n`.
pub open spec fn strict_total_order(rel: spec_fn(int, int) -> bool, n: int) -> bool {
    &&& forall|i: int| 0 <= i < n ==> !#[trigger] rel(i, i)
    &&& forall|i: int, j: int| 0 <= i < n && 0 <= j < n && i != j ==> #[trigger] rel(i, j) || #[trigger] rel(j, i)
    &&& forall|i: int, j: int, k: int| 0 <= i < n && 0 <= j < n && 0 <= k < n && #[trigger] rel(i, j) && #[trigger] rel(j, k)
        ==> rel(i, k)
}

/// Whether `order` lists positions in the order `rel` puts them.
pub open spec fn ordered_by(rel: spec_fn(int, int) -> bool, order: Seq<usize>) -> bool {
    forall|x: int, y: int| 0 <= x < y < order.len() ==> rel(#[trigger] order[x] as int, #[trigger] order[y] as int)
}

/// Whether `before` computes `rel` on the positions below `n`.
pub open spec fn computes<F: Fn(usize, usize) -> bool>(before: F, rel: spec_fn(int, int) -> bool, n: int) -> bool {
    &&& forall|i: usize, j: usize| i < n && j < n ==> #[trigger] before.requires((i, j))
    &&& forall|i: usize, j: usize, b: bool| i < n && j < n && #[trigger] before.ensures((i, j), b) ==> b == rel(i as int, j as int)
}

fn merge<F: Fn(usize, usize) -> bool>(
    before: &F,
    Ghost(rel): Ghost<spec_fn(int, int) -> bool>,
    n: usize,
    a: Vec<usize>,
    b: Vec<usize>,
    lo: usize,
    mid: usize,
    hi: usize,
) -> (r: Vec<usize>)
    requires
        computes(*before, rel, n as int),
        strict_total_order(rel, n as int),
        lo <= mid <= hi <= n,
        forall|k: int| 0 <= k < a@.len() ==> lo <= #[trigger] a@[k] < mid,
        forall|k: int| 0 <= k < b@.len() ==> mid <= #[trigger] b@[k] < hi,
        ordered_by(rel, a@),
        ordered_by(rel, b@),
    ensures
        r@.len() == a@.len() + b@.len(),
        forall|k: int| 0 <= k < r@.len() ==> lo <= #[trigger] r@[k] < hi,
        ordered_by(rel, r@),
{
    let mut out: Vec<usize> = Vec::new();
    let mut i: usize = 0;
    let mut j: usize = 0;
    while i < a.len() || j < b.len()
        invariant
            computes(*before, rel, n as int),
            strict_total_order(rel, n as int),
            lo <= mid <= hi <= n,
            forall|k: int| 0 <= k < a@.len() ==> lo <= #[trigger] a@[k] < mid,
            forall|k: int| 0 <= k < b@.len() ==> mid <= #[trigger] b@[k] < hi,
            ordered_by(rel, a@),
            ordered_by(rel, b@),
            i <= a@.len(),
            j <= b@.len(),
            out@.len() == i + j,
            forall|k: int| 0 <= k < out@.len() ==> lo <= #[trigger] out@[k] < hi,
            ordered_by(rel, out@),
            out@.len() > 0 && i < a@.len() ==> rel(out@.last() as int, a@[i as int] as int),
            out@.len() > 0 && j < b@.len() ==> rel(out@.last() as int, b@[j as int] as int),
        decreases a@.len() + b@.len() - i - j,
    {
        let take_a = i < a.len() && (j >= b.len() || before(a[i], b[j]));
        let next = if take_a { a[i] } else { b[j] };
        proof {
            if !take_a && i < a@.len() {
                assert(a@[i as int] != b@[j as int]);
                assert(rel(a@[i as int] as int, b@[j as int] as int) || rel(b@[j as int] as int, a@[i as int] as int));
            }
            assert forall|k: int| 0 <= k < out@.len() implies rel(#[trigger] out@[k] as int, next as int) by {
                if k < out@.len() - 1 {
                    assert(rel(out@[k] as int, out@.last() as int));
                }
            }
        }
        let ghost prior = out@;
        out.push(next);
        proof {
            assert forall|x: int, y: int| 0 <= x < y < out@.len() implies rel(#[trigger] out@[x] as int, #[trigger] out@[y] as int) by {
                assert(out@[x] == prior[x]);
                if y < prior.len() {
                    assert(out@[y] == prior[y]);
                }
            }
        }
        if take_a {
            i = i + 1;
            proof {
                if i < a@.len() {
                    assert(rel(a@[i - 1] as int, a@[i as int] as int));
                }
            }
        } else {
            j = j + 1;
            proof {
                if j < b@.len() {
                    assert(rel(b@[j - 1] as int, b@[j as int] as int));
                }
                if i < a@.len() {
                    assert(a@[i as int] != b@[j - 1]);
                    assert(rel(a@[i as int] as int, b@[j - 1] as int) || rel(b@[j - 1] as int, a@[i as int] as int));
                }
            }
        }
    }
    out
}

fn sort_range<F: Fn(usize, usize) -> bool>(
    before: &F,
    Ghost(rel): Ghost<spec_fn(int, int) -> bool>,
    n: usize,
    lo: usize,
    hi: usize,
) -> (r: Vec<usize>)
    requires
        computes(*before, rel, n as int),
        strict_total_order(rel, n as int),
        lo <= hi <= n,
    ensures
        r@.len() == hi - lo,
        forall|k: int| 0 <= k < r@.len() ==> lo <= #[trigger] r@[k] < hi,
        ordered_by(rel, r@),
    decreases hi - lo,
{
    if hi - lo <= 1 {
        let mut r: Vec<usize> = Vec::new();
        if hi - lo == 1 {
            r.push(lo);
        }
        return r;
    }
    let mid = lo + (hi - lo) / 2;
    let a = sort_range(before, Ghost(rel), n, lo, mid);
    let b = sort_range(before, Ghost(rel), n, mid, hi);
    merge(before, Ghost(rel), n, a, b, lo, mid, hi)
}

/// The positions below `n` in the order `rel` puts them, where `before` computes `rel`.
pub(crate) fn sort_positions<F: Fn(usize, usize) -> bool>(
    before: &F,
    Ghost(rel): Ghost<spec_fn(int, int) -> bool>,
    n: usize,
) -> (r: Vec<usize>)
    requires
        computes(*before, rel, n as int),
        strict_total_order(rel, n as int),
    ensures
        r@.len() == n,
        forall|k: int| 0 <= k < r@.len() ==> #[trigger] r@[k] < n,
        ordered_by(rel, r@),
{
    sort_range(before, Ghost(rel), n, 0, n)
}

/// A full-length ordering of positions lists each position exactly once.
pub proof fn lemma_ordered_positions_cover(rel: spec_fn(int, int) -> bool, order: Seq<usize>, n: int, i: int)
    requires
        order.len() == n,
        forall|k: int| 0 <= k < order.len() ==> #[trigger] order[k] < n,
        forall|x: int| 0 <= x < n ==> !#[trigger] rel(x, x),
        ordered_by(rel, order),
        0 <= i < n,
    ensures
        exists|k: int| 0 <= k < order.len() && order[k] == i,
{
    let positions = order.map_values(|p: usize| p as int);
    assert(positions.no_duplicates()) by {
        assert forall|x: int, y: int| 0 <= x < y < positions.len() implies positions[x] != positions[y] by {
            assert(rel(order[x] as int, order[y] as int));
        }
    }
    positions.unique_seq_to_set();
    vstd::set_lib::lemma_int_range(0, n);
    let others = vstd::set_lib::set_int_range(0, n).remove(i);
    if !(exists|k: int| 0 <= k < order.len() && order[k] == i) {
        assert forall|v: int| positions.to_set().contains(v) implies others.contains(v) by {
            let k = choose|k: int| 0 <= k < positions.len() && positions[k] == v;
            assert(order[k] < n);
            assert(order[k] != i);
        }
        vstd::set_lib::lemma_len_subset(positions.to_set(), others);
        assert(vstd::set_lib::set_int_range(0, n).contains(i));
    }
}

} // verus!
