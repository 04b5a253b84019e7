//! The decisions of the removal worker: how the outcome of each removal is counted, how many
//! threads unlink files, and in which order the directories of a removed tree go.
use vstd::prelude::*;

verus! {

/// The outcome of removing one path.
#[derive(Clone, Copy, Debug, PartialEq, Eq, Structural)]
pub enum RemovalResult {
    /// The path was removed.
    Removed,
    /// The path had already disappeared.
    Missing,
    /// The path could not be removed.
    Failed,
}

/// Paths removed and removals that failed.
#[derive(Clone, Copy, Debug, PartialEq, Eq, Structural)]
pub struct RemovalStats {
    /// Paths removed.
    pub entries: usize,
    /// Removals that failed.
    pub errors: usize,
}

impl Default for RemovalStats {
    fn default() -> (s: RemovalStats)
        ensures
            s.entries == 0,
            s.errors == 0,
    {
        RemovalStats { entries: 0, errors: 0 }
    }
}

impl RemovalStats {
    /// Count the outcome of one removal. Returns whether the path is reported as gone: a
    /// path that had already disappeared is reported too, though it counts as no removal.
    pub fn record(&mut self, result: RemovalResult) -> (reported: bool)
        requires
            old(self).entries < usize::MAX,
            old(self).errors < usize::MAX,
        ensures
            reported == (result != RemovalResult::Failed),
            final(self).entries == old(self).entries + if result == RemovalResult::Removed { 1int } else { 0 },
            final(self).errors == old(self).errors + if result == RemovalResult::Failed { 1int } else { 0 },
    {
        match result {
            RemovalResult::Removed => {
                self.entries = self.entries + 1;
                true
            },
            RemovalResult::Missing => true,
            RemovalResult::Failed => {
                self.errors = self.errors + 1;
                false
            },
        }
    }

    /// Add the counts of `other`.
    pub fn add(&mut self, other: RemovalStats)
        requires
            old(self).entries + other.entries <= usize::MAX,
            old(self).errors + other.errors <= usize::MAX,
        ensures
            final(self).entries == old(self).entries + other.entries,
            final(self).errors == old(self).errors + other.errors,
    {
        self.entries = self.entries + other.entries;
        self.errors = self.errors + other.errors;
    }
}

/// How many threads unlink `files` files when `threads` are configured: at least one, and
/// never more than there are files.
pub fn unlink_workers(threads: usize, files: usize) -> (r: usize)
    ensures
        r == if files < (if threads < 1 { 1 } else { threads }) { files } else if threads < 1 { 1 } else { threads },
{
    let at_least_one = if threads < 1 { 1 } else { threads };
    if files < at_least_one { files } else { at_least_one }
}

/// Whether the directory at walk position `i` is removed before the one at `j`: deeper
/// directories first, and directories of equal depth in the order the walk found them.
pub open spec fn removed_first(depths: Seq<usize>, i: int, j: int) -> bool {
    depths[i] > depths[j] || (depths[i] == depths[j] && i < j)
}

/// Whether `order` lists walk positions in removal order.
pub open spec fn in_removal_order(depths: Seq<usize>, order: Seq<usize>) -> bool {
    forall|x: int, y: int| 0 <= x < y < order.len() ==> removed_first(depths, #[trigger] order[x] as int, #[trigger] order[y] as int)
}

fn merge_by_depth(depths: &Vec<usize>, a: Vec<usize>, b: Vec<usize>, lo: usize, mid: usize, hi: usize) -> (r: Vec<usize>)
    requires
        lo <= mid <= hi <= depths@.len(),
        forall|k: int| 0 <= k < a@.len() ==> lo <= #[trigger] a@[k] < mid,
        forall|k: int| 0 <= k < b@.len() ==> mid <= #[trigger] b@[k] < hi,
        in_removal_order(depths@, a@),
        in_removal_order(depths@, b@),
    ensures
        r@.len() == a@.len() + b@.len(),
        forall|k: int| 0 <= k < r@.len() ==> lo <= #[trigger] r@[k] < hi,
        in_removal_order(depths@, r@),
{
    let mut out: Vec<usize> = Vec::new();
    let mut i: usize = 0;
    let mut j: usize = 0;
    while i < a.len() || j < b.len()
        invariant
            lo <= mid <= hi <= depths@.len(),
            forall|k: int| 0 <= k < a@.len() ==> lo <= #[trigger] a@[k] < mid,
            forall|k: int| 0 <= k < b@.len() ==> mid <= #[trigger] b@[k] < hi,
            in_removal_order(depths@, a@),
            in_removal_order(depths@, b@),
            i <= a@.len(),
            j <= b@.len(),
            out@.len() == i + j,
            forall|k: int| 0 <= k < out@.len() ==> lo <= #[trigger] out@[k] < hi,
            in_removal_order(depths@, out@),
            out@.len() > 0 && i < a@.len() ==> removed_first(depths@, out@.last() as int, a@[i as int] as int),
            out@.len() > 0 && j < b@.len() ==> removed_first(depths@, out@.last() as int, b@[j as int] as int),
        decreases a@.len() + b@.len() - i - j,
    {
        let take_a = i < a.len() && (j >= b.len() || depths[a[i]] >= depths[b[j]]);
        let next = if take_a { a[i] } else { b[j] };
        proof {
            assert forall|k: int| 0 <= k < out@.len() implies removed_first(depths@, #[trigger] out@[k] as int, next as int) by {
                if k < out@.len() - 1 {
                    assert(removed_first(depths@, out@[k] as int, out@.last() as int));
                }
            }
        }
        let ghost before = out@;
        out.push(next);
        proof {
            assert forall|x: int, y: int| 0 <= x < y < out@.len() implies removed_first(depths@, #[trigger] out@[x] as int, #[trigger] out@[y] as int) by {
                assert(out@[x] == before[x]);
                if y < before.len() {
                    assert(out@[y] == before[y]);
                }
            }
        }
        if take_a {
            i = i + 1;
            proof {
                if i < a@.len() {
                    assert(removed_first(depths@, a@[i - 1] as int, a@[i as int] as int));
                }
            }
        } else {
            j = j + 1;
            proof {
                if j < b@.len() {
                    assert(removed_first(depths@, b@[j - 1] as int, b@[j as int] as int));
                }
            }
        }
    }
    out
}

fn sort_by_depth(depths: &Vec<usize>, lo: usize, hi: usize) -> (r: Vec<usize>)
    requires
        lo <= hi <= depths@.len(),
    ensures
        r@.len() == hi - lo,
        forall|k: int| 0 <= k < r@.len() ==> lo <= #[trigger] r@[k] < hi,
        in_removal_order(depths@, r@),
    decreases hi - lo,
{
    if hi - lo <= 1 {
        let mut r: Vec<usize> = Vec::new();
        if hi - lo == 1 {
            r.push(lo);
        }
        return r;
    }
    let mid = lo + (hi - lo) / 2;
    let a = sort_by_depth(depths, lo, mid);
    let b = sort_by_depth(depths, mid, hi);
    merge_by_depth(depths, a, b, lo, mid, hi)
}

/// The order in which the directories a walk found are removed, given the depth of each in
/// walk order: every directory after all deeper ones, so that each is empty by its turn.
/// Each walk position occurs once.
pub fn deepest_first(depths: &Vec<usize>) -> (r: Vec<usize>)
    ensures
        r@.len() == depths@.len(),
        forall|k: int| 0 <= k < r@.len() ==> #[trigger] r@[k] < depths@.len(),
        in_removal_order(depths@, r@),
{
    sort_by_depth(depths, 0, depths.len())
}

/// Every walk position occurs exactly once in a removal order of full length.
pub proof fn law_removal_order_lists_each_directory_once(depths: Seq<usize>, order: Seq<usize>, i: int)
    requires
        order.len() == depths.len(),
        forall|k: int| 0 <= k < order.len() ==> #[trigger] order[k] < depths.len(),
        in_removal_order(depths, order),
        0 <= i < depths.len(),
    ensures
        exists|k: int| 0 <= k < order.len() && order[k] == i,
        forall|x: int, y: int| 0 <= x < y < order.len() ==> #[trigger] order[x] != #[trigger] order[y],
{
    assert forall|x: int, y: int| 0 <= x < y < order.len() implies #[trigger] order[x] != #[trigger] order[y] by {
        assert(removed_first(depths, order[x] as int, order[y] as int));
    }
    let n = depths.len() as int;
    let positions = order.map_values(|p: usize| p as int);
    assert(positions.no_duplicates()) by {
        assert forall|x: int, y: int| 0 <= x < y < positions.len() implies positions[x] != positions[y] by {
            assert(order[x] != order[y]);
        }
    }
    positions.unique_seq_to_set();
    vstd::set_lib::lemma_int_range(0, n);
    let others = vstd::set_lib::set_int_range(0, n).remove(i);
    if !(exists|k: int| 0 <= k < order.len() && order[k] == i) {
        assert forall|v: int| positions.to_set().contains(v) implies others.contains(v) by {
            let k = choose|k: int| 0 <= k < positions.len() && positions[k] == v;
            assert(order[k] < depths.len());
            assert(order[k] != i);
        }
        vstd::set_lib::lemma_len_subset(positions.to_set(), others);
        assert(vstd::set_lib::set_int_range(0, n).contains(i));
    }
}

} // verus!
