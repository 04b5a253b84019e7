//! The cleanup hub's rows: candidates that share a parent directory with another candidate are
//! grouped under their topmost such parent, and rows are listed largest first.
use vstd::prelude::*;
use crate::diff::{components_order, texts, KeyOrder, lemma_components_equal, lemma_components_order_flips, lemma_components_order_reflexive, lemma_components_order_transitive};
use crate::timestamp::Timestamp;
use crate::listing::time_order;
use crate::clean::{copy_string, text_equals};
use crate::diff::compare_components;

verus! {

/// A cleanup candidate found by discovery.
#[derive(Clone, Debug)]
pub struct HubCandidate {
    /// The candidate's node in the tree.
    pub index: usize,
    /// The components of the candidate's absolute path.
    pub path: Vec<String>,
    /// Its size in bytes.
    pub size: u128,
    /// Its modification time.
    pub mtime: Timestamp,
    /// The number of entries below it.
    pub entry_count: Option<u64>,
}

/// A row of the hub: one candidate, or the candidates grouped under a shared parent.
#[derive(Clone, Debug)]
pub struct HubRow {
    /// The path components of the row: the candidate's, or the shared parent's.
    pub path: Vec<String>,
    /// The total size of the row's candidates.
    pub size: u128,
    /// The newest modification time among them.
    pub mtime: Timestamp,
    /// The entry count of a single candidate; the sum of the counts of grouped ones.
    pub entry_count: Option<u64>,
    /// The tree nodes of the row's candidates, in the order they were found.
    pub members: Vec<usize>,
}

/// The path components of each candidate.
pub open spec fn candidate_paths(c: Seq<HubCandidate>) -> Seq<Seq<Seq<char>>> {
    c.map_values(|x: HubCandidate| texts(x.path@))
}

/// Whether two or more candidates have the directory `dir` as their parent.
pub open spec fn shared_parent(paths: Seq<Seq<Seq<char>>>, dir: Seq<Seq<char>>) -> bool {
    exists|i: int, j: int| 0 <= i < j < paths.len() && #[trigger] paths[i].drop_last() == dir && #[trigger] paths[j].drop_last() == dir
}

/// Whether `path` has a proper ancestor, `k` components long, that is a shared parent.
pub open spec fn grouped_at(paths: Seq<Seq<Seq<char>>>, path: Seq<Seq<char>>, k: int) -> bool {
    0 <= k < path.len() && shared_parent(paths, path.take(k))
}

/// The row a candidate path belongs to: its topmost proper ancestor that is a shared parent, or
/// the path itself.
pub open spec fn row_key(paths: Seq<Seq<Seq<char>>>, path: Seq<Seq<char>>) -> Seq<Seq<char>> {
    if exists|k: int| grouped_at(paths, path, k) {
        path.take(choose|k: int| grouped_at(paths, path, k) && forall|m: int| 0 <= m < k ==> !grouped_at(paths, path, m))
    } else {
        path
    }
}

/// The members, size, newest time and count of the row `key` over the first `n` candidates.
pub open spec fn row_fold(c: Seq<HubCandidate>, key: Seq<Seq<char>>, n: int) -> (Seq<usize>, int, Option<Timestamp>, Option<int>)
    decreases n,
{
    if n <= 0 {
        (Seq::empty(), 0, None, None)
    } else {
        let (members, size, mtime, count) = row_fold(c, key, n - 1);
        let x = c[n - 1];
        if row_key(candidate_paths(c), texts(x.path@)) != key {
            (members, size, mtime, count)
        } else if members.len() == 0 {
            (seq![x.index], x.size as int, Some(x.mtime), match x.entry_count { Some(v) => Some(v as int), None => None })
        } else {
            (members.push(x.index), size + x.size,
                Some(if time_order(x.mtime, mtime->0) == KeyOrder::Greater { x.mtime } else { mtime->0 }),
                Some((match count { Some(v) => v, None => 0 }) + (match x.entry_count { Some(v) => v as int, None => 0 })))
        }
    }
}

/// Whether row `a` is listed before row `b`: larger first, then by path.
pub open spec fn row_before(a: HubRow, b: HubRow) -> bool {
    a.size > b.size || (a.size == b.size && components_order(texts(a.path@), texts(b.path@)) == KeyOrder::Less)
}

/// Whether one of `rows` has the path `key`.
pub open spec fn has_row(rows: Seq<HubRow>, key: Seq<Seq<char>>) -> bool {
    exists|m: int| 0 <= m < rows.len() && texts(#[trigger] rows[m].path@) == key
}

/// Whether `rows` are the hub's rows for `candidates`: one row for each row key, with the
/// members, total size, newest time and count of its candidates, largest first and then by path.
pub open spec fn rows_of(candidates: Seq<HubCandidate>, rows: Seq<HubRow>) -> bool {
    let paths = candidate_paths(candidates);
    &&& forall|i: int| 0 <= i < candidates.len() ==> #[trigger] has_row(rows, row_key(paths, paths[i]))
    &&& forall|m: int| 0 <= m < rows.len() ==> {
        let key = texts(#[trigger] rows[m].path@);
        let (members, size, mtime, count) = row_fold(candidates, key, candidates.len() as int);
        &&& members.len() > 0
        &&& rows[m].members@ == members
        &&& rows[m].size == size
        &&& Some(rows[m].mtime) == mtime
        &&& rows[m].entry_count == match count { Some(v) => Some(v as u64), None => None }
    }
    &&& forall|m: int, n: int| 0 <= m < n < rows.len() ==> row_before(#[trigger] rows[m], #[trigger] rows[n])
}


fn prefixes_equal(a: &Vec<String>, alen: usize, b: &Vec<String>, blen: usize) -> (r: bool)
    requires
        alen <= a@.len(),
        blen <= b@.len(),
    ensures
        r == (texts(a@).take(alen as int) == texts(b@).take(blen as int)),
{
    if alen != blen {
        proof {
            assert(texts(a@).take(alen as int).len() != texts(b@).take(blen as int).len());
        }
        return false;
    }
    let mut i: usize = 0;
    while i < alen
        invariant
            i <= alen == blen,
            alen <= a@.len(),
            blen <= b@.len(),
            forall|j: int| 0 <= j < i ==> a@[j]@ == b@[j]@,
        decreases alen - i,
    {
        if !text_equals(a[i].as_str(), b[i].as_str()) {
            proof {
                assert(texts(a@).take(alen as int)[i as int] == a@[i as int]@);
                assert(texts(b@).take(blen as int)[i as int] == b@[i as int]@);
            }
            return false;
        }
        i = i + 1;
    }
    assert(texts(a@).take(alen as int) =~= texts(b@).take(blen as int));
    true
}

/// Whether the first `k` components of `path` are the parent of candidate `i`.
fn is_parent_prefix(candidates: &Vec<HubCandidate>, i: usize, path: &Vec<String>, k: usize) -> (r: bool)
    requires
        i < candidates@.len(),
        candidates@[i as int].path@.len() >= 1,
        k <= path@.len(),
    ensures
        r == (candidate_paths(candidates@)[i as int].drop_last() == texts(path@).take(k as int)),
{
    let c = &candidates[i];
    assert(candidate_paths(candidates@)[i as int] == texts(c.path@));
    let r = prefixes_equal(&c.path, c.path.len() - 1, path, k);
    proof {
        assert(texts(c.path@).drop_last() =~= texts(c.path@).take(c.path@.len() - 1));
    }
    r
}

/// Whether every candidate has a path with a parent.
pub open spec fn paths_nonempty(c: Seq<HubCandidate>) -> bool {
    forall|i: int| 0 <= i < c.len() ==> #[trigger] c[i].path@.len() >= 1
}

fn is_shared_parent(candidates: &Vec<HubCandidate>, path: &Vec<String>, k: usize) -> (r: bool)
    requires
        paths_nonempty(candidates@),
        k <= path@.len(),
    ensures
        r == shared_parent(candidate_paths(candidates@), texts(path@).take(k as int)),
{
    let ghost paths = candidate_paths(candidates@);
    let ghost dir = texts(path@).take(k as int);
    let mut first: Option<usize> = None;
    let mut i: usize = 0;
    while i < candidates.len()
        invariant
            paths_nonempty(candidates@),
            k <= path@.len(),
            paths == candidate_paths(candidates@),
            dir == texts(path@).take(k as int),
            i <= candidates@.len(),
            match first {
                None => forall|j: int| 0 <= j < i ==> #[trigger] paths[j].drop_last() != dir,
                Some(f) => f < i && paths[f as int].drop_last() == dir
                    && forall|j: int| 0 <= j < i && j != f ==> #[trigger] paths[j].drop_last() != dir,
            },
        decreases candidates@.len() - i,
    {
        if is_parent_prefix(candidates, i, path, k) {
            match first {
                Some(f) => {
                    assert(paths[f as int].drop_last() == dir && paths[i as int].drop_last() == dir);
                    return true;
                },
                None => {
                    first = Some(i);
                },
            }
        }
        i = i + 1;
    }
    proof {
        if shared_parent(paths, dir) {
            let (a, b) = choose|a: int, b: int| 0 <= a < b < paths.len() && #[trigger] paths[a].drop_last() == dir && #[trigger] paths[b].drop_last() == dir;
            assert(paths[a].drop_last() == dir);
            assert(paths[b].drop_last() == dir);
        }
    }
    false
}

/// The number of leading components of candidate `i`'s path that make up its row key.
fn row_key_len(candidates: &Vec<HubCandidate>, i: usize) -> (r: usize)
    requires
        paths_nonempty(candidates@),
        i < candidates@.len(),
    ensures
        r <= candidates@[i as int].path@.len(),
        texts(candidates@[i as int].path@).take(r as int) == row_key(candidate_paths(candidates@), candidate_paths(candidates@)[i as int]),
{
    let ghost paths = candidate_paths(candidates@);
    let path = &candidates[i].path;
    let ghost p = texts(path@);
    assert(paths[i as int] == p);
    let mut k: usize = 0;
    while k < path.len()
        invariant
            paths_nonempty(candidates@),
            paths == candidate_paths(candidates@),
            p == texts(path@),
            paths[i as int] == p,
            i < candidates@.len(),
            path@ == candidates@[i as int].path@,
            k <= path@.len(),
            forall|m: int| 0 <= m < k ==> !grouped_at(paths, p, m),
        decreases path@.len() - k,
    {
        if is_shared_parent(candidates, path, k) {
            proof {
                assert(grouped_at(paths, p, k as int));
                let c = choose|c: int| grouped_at(paths, p, c) && forall|m: int| 0 <= m < c ==> !grouped_at(paths, p, m);
                if c < k { } else if k < c { assert(!grouped_at(paths, p, k as int)); }
            }
            return k;
        }
        k = k + 1;
    }
    proof {
        assert(!exists|m: int| grouped_at(paths, p, m));
        assert(p.take(p.len() as int) =~= p);
    }
    path.len()
}


fn copy_prefix(path: &Vec<String>, k: usize) -> (r: Vec<String>)
    requires
        k <= path@.len(),
    ensures
        texts(r@) == texts(path@).take(k as int),
{
    let mut out: Vec<String> = Vec::new();
    let mut i: usize = 0;
    while i < k
        invariant
            i <= k <= path@.len(),
            texts(out@) == texts(path@).take(i as int),
        decreases k - i,
    {
        let ghost before = texts(out@);
        out.push(copy_string(&path[i]));
        assert(texts(out@) =~= before.push(path@[i as int]@));
        assert(texts(path@).take(i + 1) =~= texts(path@).take(i as int).push(path@[i as int]@));
        i = i + 1;
    }
    out
}

/// The row key of each candidate.
pub open spec fn candidate_keys(c: Seq<HubCandidate>) -> Seq<Seq<Seq<char>>> {
    Seq::new(c.len(), |i: int| row_key(candidate_paths(c), candidate_paths(c)[i]))
}

proof fn lemma_fold_grows(c: Seq<HubCandidate>, key: Seq<Seq<char>>, m: int, n: int)
    requires
        0 <= m <= n <= c.len(),
    ensures
        row_fold(c, key, m).1 <= row_fold(c, key, n).1,
        row_fold(c, key, m).0.len() <= row_fold(c, key, n).0.len(),
        (match row_fold(c, key, m).3 { Some(v) => v, None => 0int }) <= (match row_fold(c, key, n).3 { Some(v) => v, None => 0int }),
    decreases n - m,
{
    if m < n {
        lemma_fold_grows(c, key, m, n - 1);
        lemma_fold_shape(c, key, n - 1);
    }
}

proof fn lemma_fold_shape(c: Seq<HubCandidate>, key: Seq<Seq<char>>, n: int)
    requires
        0 <= n <= c.len(),
    ensures
        (row_fold(c, key, n).0.len() == 0) == (row_fold(c, key, n).2 is None),
        row_fold(c, key, n).0.len() == 0 ==> row_fold(c, key, n).1 == 0 && row_fold(c, key, n).3 is None,
        row_fold(c, key, n).1 >= 0,
        match row_fold(c, key, n).3 { Some(v) => v >= 0, None => true },
    decreases n,
{
    if n > 0 {
        lemma_fold_shape(c, key, n - 1);
    }
}

proof fn lemma_fold_has_member(c: Seq<HubCandidate>, key: Seq<Seq<char>>, i: int, n: int)
    requires
        0 <= i < n <= c.len(),
        candidate_keys(c)[i] == key,
    ensures
        row_fold(c, key, n).0.len() > 0,
    decreases n,
{
    if n - 1 > i {
        lemma_fold_has_member(c, key, i, n - 1);
        lemma_fold_grows(c, key, n - 1, n);
    }
}

/// Whether the sums of every row fit: sizes in 128 bits, entry counts in 64.
pub open spec fn sums_fit(c: Seq<HubCandidate>) -> bool {
    forall|i: int| 0 <= i < c.len() ==> {
        &&& #[trigger] row_fold(c, candidate_keys(c)[i], c.len() as int).1 <= u128::MAX
        &&& match row_fold(c, candidate_keys(c)[i], c.len() as int).3 { Some(v) => v <= u64::MAX, None => true }
    }
}

/// The row of candidate `rep`'s key, folded over all candidates.
fn build_row(candidates: &Vec<HubCandidate>, key_lens: &Vec<usize>, rep: usize) -> (r: HubRow)
    requires
        paths_nonempty(candidates@),
        sums_fit(candidates@),
        rep < candidates@.len(),
        key_lens@.len() == candidates@.len(),
        forall|i: int| 0 <= i < candidates@.len() ==> key_lens@[i] <= candidates@[i].path@.len()
            && texts(candidates@[i].path@).take(#[trigger] key_lens@[i] as int) == candidate_keys(candidates@)[i],
    ensures
        texts(r.path@) == candidate_keys(candidates@)[rep as int],
        ({
            let (members, size, mtime, count) = row_fold(candidates@, candidate_keys(candidates@)[rep as int], candidates@.len() as int);
            &&& members.len() > 0
            &&& r.members@ == members
            &&& r.size == size
            &&& Some(r.mtime) == mtime
            &&& r.entry_count == match count { Some(v) => Some(v as u64), None => None }
        }),
{
    let ghost c = candidates@;
    let ghost key = candidate_keys(c)[rep as int];
    let n = candidates.len();
    let path = copy_prefix(&candidates[rep].path, key_lens[rep]);
    let mut members: Vec<usize> = Vec::new();
    let mut size: u128 = 0;
    let mut mtime = Timestamp { seconds: 0, nanos: 0 };
    let mut count: Option<u64> = None;
    let mut j: usize = 0;
    proof {
        assert(sums_fit(c) ==> row_fold(c, candidate_keys(c)[rep as int], c.len() as int).1 <= u128::MAX);
    }
    while j < n
        invariant
            c == candidates@,
            n == c.len(),
            paths_nonempty(c),
            sums_fit(c),
            rep < n,
            key == candidate_keys(c)[rep as int],
            key_lens@.len() == n,
            forall|i: int| 0 <= i < n ==> key_lens@[i] <= c[i].path@.len()
                && texts(c[i].path@).take(#[trigger] key_lens@[i] as int) == candidate_keys(c)[i],
            j <= n,
            ({
                let (m, sz, t, cnt) = row_fold(c, key, j as int);
                &&& members@ == m
                &&& size == sz
                &&& (m.len() > 0 ==> t == Some(mtime))
                &&& count == match cnt { Some(v) => Some(v as u64), None => None }
            }),
            row_fold(c, key, n as int).1 <= u128::MAX,
            match row_fold(c, key, n as int).3 { Some(v) => v <= u64::MAX, None => true },
        decreases n - j,
    {
        let x = &candidates[j];
        let same = prefixes_equal(&x.path, key_lens[j], &candidates[rep].path, key_lens[rep]);
        proof {
            assert(candidate_keys(c)[j as int] == row_key(candidate_paths(c), texts(x.path@)));
            lemma_fold_grows(c, key, j as int + 1, n as int);
            lemma_fold_shape(c, key, j as int);
            lemma_fold_shape(c, key, j as int + 1);
        }
        if same {
            if members.len() == 0 {
                members.push(x.index);
                size = x.size;
                mtime = x.mtime;
                count = x.entry_count;
                proof {
                    assert(members@ =~= seq![x.index]);
                }
            } else {
                members.push(x.index);
                size = size + x.size;
                if mtime.is_before(&x.mtime) {
                    mtime = x.mtime;
                }
                let previous: u64 = match count { Some(v) => v, None => 0 };
                let added: u64 = match x.entry_count { Some(v) => v, None => 0 };
                count = Some(previous + added);
            }
        }
        j = j + 1;
    }
    proof {
        lemma_fold_has_member(c, key, rep as int, n as int);
        lemma_fold_shape(c, key, n as int);
    }
    HubRow { path, size, mtime, entry_count: count, members }
}


/// Whether the row of size `sa` and path `ka` is listed before the row of size `sb` and path
/// `kb`.
pub open spec fn ranks_before(sa: int, ka: Seq<Seq<char>>, sb: int, kb: Seq<Seq<char>>) -> bool {
    sa > sb || (sa == sb && components_order(ka, kb) == KeyOrder::Less)
}

proof fn lemma_ranks_total(sa: int, ka: Seq<Seq<char>>, sb: int, kb: Seq<Seq<char>>)
    requires
        ka != kb,
    ensures
        ranks_before(sa, ka, sb, kb) || ranks_before(sb, kb, sa, ka),
{
    lemma_components_order_flips(ka, kb);
    if components_order(ka, kb) == KeyOrder::Equal {
        lemma_components_equal(ka, kb);
    }
}

proof fn lemma_ranks_transitive(sa: int, ka: Seq<Seq<char>>, sb: int, kb: Seq<Seq<char>>, sc: int, kc: Seq<Seq<char>>)
    requires
        ranks_before(sa, ka, sb, kb),
        ranks_before(sb, kb, sc, kc),
    ensures
        ranks_before(sa, ka, sc, kc),
{
    if sa == sb && sb == sc {
        lemma_components_order_transitive(ka, kb, kc);
    }
}

/// Whether some first candidate of a row in `reps` has the row key `key`.
pub open spec fn represented(ks: Seq<Seq<Seq<char>>>, reps: Seq<usize>, key: Seq<Seq<char>>) -> bool {
    exists|m: int| 0 <= m < reps.len() && ks[#[trigger] reps[m] as int] == key
}

/// Group the cleanup candidates into the hub's rows; see [`rows_of`].
pub fn group_candidates(candidates: &Vec<HubCandidate>) -> (r: Vec<HubRow>)
    requires
        paths_nonempty(candidates@),
        sums_fit(candidates@),
    ensures
        rows_of(candidates@, r@),
{
    let ghost c = candidates@;
    let ghost ks = candidate_keys(c);
    let n = candidates.len();
    // The length of each candidate's row key, and a copy of the key.
    let mut key_lens: Vec<usize> = Vec::new();
    let mut keys: Vec<Vec<String>> = Vec::new();
    let mut i: usize = 0;
    while i < n
        invariant
            c == candidates@,
            n == c.len(),
            ks == candidate_keys(c),
            paths_nonempty(c),
            i <= n,
            key_lens@.len() == i,
            keys@.len() == i,
            forall|k: int| 0 <= k < i ==> key_lens@[k] <= c[k].path@.len()
                && texts(c[k].path@).take(#[trigger] key_lens@[k] as int) == ks[k],
            forall|k: int| 0 <= k < i ==> texts(#[trigger] keys@[k]@) == ks[k],
        decreases n - i,
    {
        let len = row_key_len(candidates, i);
        key_lens.push(len);
        keys.push(copy_prefix(&candidates[i].path, len));
        i = i + 1;
    }
    // The first candidate of each row, in the order they were found.
    let mut reps: Vec<usize> = Vec::new();
    i = 0;
    while i < n
        invariant
            c == candidates@,
            n == c.len(),
            ks == candidate_keys(c),
            i <= n,
            key_lens@.len() == n,
            keys@.len() == n,
            forall|k: int| 0 <= k < n ==> texts(#[trigger] keys@[k]@) == ks[k],
            forall|m: int| 0 <= m < reps@.len() ==> #[trigger] reps@[m] < i,
            forall|a: int, b: int| 0 <= a < b < reps@.len() ==> ks[#[trigger] reps@[a] as int] != ks[#[trigger] reps@[b] as int],
            forall|k: int| 0 <= k < i ==> #[trigger] represented(ks, reps@, ks[k]),
        decreases n - i,
    {
        let ghost before_reps = reps@;
        let mut seen = false;
        let mut j: usize = 0;
        while j < reps.len()
            invariant
                c == candidates@,
                n == c.len(),
                ks == candidate_keys(c),
                i < n,
                keys@.len() == n,
                forall|k: int| 0 <= k < n ==> texts(#[trigger] keys@[k]@) == ks[k],
                forall|m: int| 0 <= m < reps@.len() ==> #[trigger] reps@[m] < i,
                j <= reps@.len(),
                seen ==> exists|m: int| 0 <= m < reps@.len() && ks[#[trigger] reps@[m] as int] == ks[i as int],
                !seen ==> forall|m: int| 0 <= m < j ==> ks[#[trigger] reps@[m] as int] != ks[i as int],
            decreases reps@.len() - j,
        {
            let rep = reps[j];
            if compare_components(&keys[rep], &keys[i]) == KeyOrder::Equal {
                proof {
                    lemma_components_equal(texts(keys@[rep as int]@), texts(keys@[i as int]@));
                }
                seen = true;
                assert(ks[reps@[j as int] as int] == ks[i as int]);
            } else {
                proof {
                    if ks[rep as int] == ks[i as int] {
                        lemma_components_order_reflexive(ks[i as int]);
                    }
                }
            }
            j = j + 1;
        }
        if !seen {
            reps.push(i);
            proof {
                assert(ks[reps@.last() as int] == ks[i as int]);
            }
        }
        i = i + 1;
        proof {
            assert forall|k: int| 0 <= k < i implies #[trigger] represented(ks, reps@, ks[k]) by {
                if k == i - 1 {
                    if !seen {
                        assert(ks[reps@[reps@.len() - 1] as int] == ks[k]);
                    }
                } else {
                    assert(represented(ks, before_reps, ks[k]));
                    let m = choose|m: int| 0 <= m < before_reps.len() && ks[#[trigger] before_reps[m] as int] == ks[k];
                    assert(reps@[m] == before_reps[m]);
                }
            }
        }
    }
    // The size of each row.
    let r_count = reps.len();
    let mut sizes: Vec<u128> = Vec::new();
    let mut p: usize = 0;
    while p < r_count
        invariant
            c == candidates@,
            n == c.len(),
            ks == candidate_keys(c),
            paths_nonempty(c),
            sums_fit(c),
            r_count == reps@.len(),
            forall|m: int| 0 <= m < reps@.len() ==> #[trigger] reps@[m] < n,
            key_lens@.len() == n,
            forall|k: int| 0 <= k < n ==> key_lens@[k] <= c[k].path@.len()
                && texts(c[k].path@).take(#[trigger] key_lens@[k] as int) == ks[k],
            p <= r_count,
            sizes@.len() == p,
            forall|q: int| 0 <= q < p ==> #[trigger] sizes@[q] == row_fold(c, ks[reps@[q] as int], n as int).1,
        decreases r_count - p,
    {
        let row = build_row(candidates, &key_lens, reps[p]);
        sizes.push(row.size);
        p = p + 1;
    }
    // The rows in listing order, as positions among `reps`.
    let mut order: Vec<usize> = Vec::new();
    let mut q: usize = 0;
    while q < r_count
        invariant
            c == candidates@,
            n == c.len(),
            ks == candidate_keys(c),
            r_count == reps@.len() == sizes@.len(),
            forall|m: int| 0 <= m < reps@.len() ==> #[trigger] reps@[m] < n,
            forall|a: int, b: int| 0 <= a < b < reps@.len() ==> ks[#[trigger] reps@[a] as int] != ks[#[trigger] reps@[b] as int],
            keys@.len() == n,
            forall|k: int| 0 <= k < n ==> texts(#[trigger] keys@[k]@) == ks[k],
            q <= r_count,
            order@.len() == q,
            forall|x: int| 0 <= x < q ==> #[trigger] order@[x] < q,
            forall|y: usize| y < q ==> #[trigger] order@.contains(y),
            forall|x: int, y: int| 0 <= x < y < q ==> ranks_before(sizes@[#[trigger] order@[x] as int] as int, ks[reps@[order@[x] as int] as int],
                sizes@[#[trigger] order@[y] as int] as int, ks[reps@[order@[y] as int] as int]),
        decreases r_count - q,
    {
        let mut pos: usize = q;
        while pos > 0 && !(sizes[order[pos - 1]] > sizes[q]
            || (sizes[order[pos - 1]] == sizes[q] && compare_components(&keys[reps[order[pos - 1]]], &keys[reps[q]]) == KeyOrder::Less))
            invariant
                pos <= q < r_count,
                r_count == reps@.len() == sizes@.len(),
                order@.len() == q,
                forall|x: int| 0 <= x < q ==> #[trigger] order@[x] < q,
                forall|m: int| 0 <= m < reps@.len() ==> #[trigger] reps@[m] < n,
                keys@.len() == n,
                forall|k: int| 0 <= k < n ==> texts(#[trigger] keys@[k]@) == ks[k],
                forall|x: int| pos <= x < q ==> !ranks_before(sizes@[#[trigger] order@[x] as int] as int, ks[reps@[order@[x] as int] as int],
                    sizes@[q as int] as int, ks[reps@[q as int] as int]),
            decreases pos,
        {
            pos = pos - 1;
        }
        let ghost before = order@;
        proof {
            assert forall|x: int| pos <= x < q implies ranks_before(sizes@[q as int] as int, ks[reps@[q as int] as int],
                sizes@[#[trigger] before[x] as int] as int, ks[reps@[before[x] as int] as int]) by {
                assert(before[x] != q);
                lemma_ranks_total(sizes@[q as int] as int, ks[reps@[q as int] as int], sizes@[before[x] as int] as int, ks[reps@[before[x] as int] as int]);
            }
            if pos > 0 {
                assert(ranks_before(sizes@[before[pos - 1] as int] as int, ks[reps@[before[pos - 1] as int] as int],
                    sizes@[q as int] as int, ks[reps@[q as int] as int]));
            }
        }
        order.insert(pos, q);
        proof {
            assert(order@ =~= before.subrange(0, pos as int).push(q).add(before.subrange(pos as int, q as int)));
            assert forall|x: int| 0 <= x < q + 1 implies #[trigger] order@[x] < q + 1 by {
                if x < pos { assert(order@[x] == before[x]); } else if x > pos { assert(order@[x] == before[x - 1]); }
            }
            assert forall|y: usize| y < q + 1 implies #[trigger] order@.contains(y) by {
                if y == q {
                    assert(order@[pos as int] == q);
                } else {
                    assert(before.contains(y));
                    let x = choose|x: int| 0 <= x < before.len() && before[x] == y;
                    if x < pos { assert(order@[x] == before[x]); } else { assert(order@[x + 1] == before[x]); }
                }
            }
            assert forall|x: int, y: int| 0 <= x < y < q + 1 implies ranks_before(sizes@[#[trigger] order@[x] as int] as int, ks[reps@[order@[x] as int] as int],
                sizes@[#[trigger] order@[y] as int] as int, ks[reps@[order@[y] as int] as int]) by {
                let sz = |k: usize| sizes@[k as int] as int;
                let kk = |k: usize| ks[reps@[k as int] as int];
                if y < pos {
                    assert(order@[x] == before[x] && order@[y] == before[y]);
                } else if y == pos {
                    assert(order@[x] == before[x]);
                    if x < pos - 1 {
                        lemma_ranks_transitive(sz(before[x]), kk(before[x]), sz(before[pos - 1]), kk(before[pos - 1]), sz(q), kk(q));
                    }
                } else if x < pos {
                    assert(order@[x] == before[x] && order@[y] == before[y - 1]);
                } else if x == pos {
                    assert(order@[y] == before[y - 1]);
                } else {
                    assert(order@[x] == before[x - 1] && order@[y] == before[y - 1]);
                }
            }
        }
        q = q + 1;
    }
    // The rows themselves.
    let mut rows: Vec<HubRow> = Vec::new();
    let mut x: usize = 0;
    while x < r_count
        invariant
            c == candidates@,
            n == c.len(),
            ks == candidate_keys(c),
            paths_nonempty(c),
            sums_fit(c),
            r_count == reps@.len() == sizes@.len() == order@.len(),
            forall|m: int| 0 <= m < reps@.len() ==> #[trigger] reps@[m] < n,
            forall|y: int| 0 <= y < r_count ==> #[trigger] order@[y] < r_count,
            forall|q: int| 0 <= q < r_count ==> #[trigger] sizes@[q] == row_fold(c, ks[reps@[q] as int], n as int).1,
            key_lens@.len() == n,
            forall|k: int| 0 <= k < n ==> key_lens@[k] <= c[k].path@.len()
                && texts(c[k].path@).take(#[trigger] key_lens@[k] as int) == ks[k],
            x <= r_count,
            rows@.len() == x,
            forall|y: int| 0 <= y < x ==> texts(#[trigger] rows@[y].path@) == ks[reps@[order@[y] as int] as int],
            forall|y: int| 0 <= y < x ==> {
                let (members, size, mtime, count) = row_fold(c, texts(#[trigger] rows@[y].path@), n as int);
                &&& members.len() > 0
                &&& rows@[y].members@ == members
                &&& rows@[y].size == size
                &&& Some(rows@[y].mtime) == mtime
                &&& rows@[y].entry_count == match count { Some(v) => Some(v as u64), None => None }
            },
        decreases r_count - x,
    {
        let row = build_row(candidates, &key_lens, reps[order[x]]);
        rows.push(row);
        x = x + 1;
    }
    proof {
        assert forall|k: int| 0 <= k < c.len() implies #[trigger] has_row(rows@, row_key(candidate_paths(c), candidate_paths(c)[k])) by {
            assert(ks[k] == row_key(candidate_paths(c), candidate_paths(c)[k]));
            assert(represented(ks, reps@, ks[k]));
            let m = choose|m: int| 0 <= m < reps@.len() && ks[#[trigger] reps@[m] as int] == ks[k];
            assert(order@.contains(m as usize));
            let y = choose|y: int| 0 <= y < order@.len() && order@[y] == m as usize;
            assert(texts(rows@[y].path@) == ks[k]);
        }
        assert forall|a: int, b: int| 0 <= a < b < rows@.len() implies row_before(#[trigger] rows@[a], #[trigger] rows@[b]) by {
            assert(texts(rows@[a].path@) == ks[reps@[order@[a] as int] as int]);
            assert(texts(rows@[b].path@) == ks[reps@[order@[b] as int] as int]);
            assert(order@[a] < r_count && order@[b] < r_count);
            assert(sizes@[order@[a] as int] == row_fold(c, ks[reps@[order@[a] as int] as int], n as int).1);
            assert(sizes@[order@[b] as int] == row_fold(c, ks[reps@[order@[b] as int] as int], n as int).1);
            assert(rows@[a].size == sizes@[order@[a] as int]);
            assert(rows@[b].size == sizes@[order@[b] as int]);
        }
    }
    rows
}


/// Whether path `a` starts with path `b`, component by component.
pub open spec fn starts_with_path(a: Seq<Seq<char>>, b: Seq<Seq<char>>) -> bool {
    b.len() <= a.len() && a.take(b.len() as int) == b
}

/// The first row, by position, with path `path`, or else related to it: one path starting with
/// the other.
pub open spec fn row_for_path(rows: Seq<HubRow>, path: Seq<Seq<char>>) -> Option<int> {
    if exists|m: int| 0 <= m < rows.len() && texts(rows[m].path@) == path {
        Some(choose|m: int| 0 <= m < rows.len() && texts(rows[m].path@) == path
            && forall|k: int| 0 <= k < m ==> texts(rows[k].path@) != path)
    } else if exists|m: int| 0 <= m < rows.len() && related(texts(rows[m].path@), path) {
        Some(choose|m: int| 0 <= m < rows.len() && related(texts(rows[m].path@), path)
            && forall|k: int| 0 <= k < m ==> !related(texts(rows[k].path@), path))
    } else {
        None
    }
}

/// Whether one of two paths starts with the other.
pub open spec fn related(a: Seq<Seq<char>>, b: Seq<Seq<char>>) -> bool {
    starts_with_path(a, b) || starts_with_path(b, a)
}

pub(crate) fn path_starts_with(a: &Vec<String>, b: &Vec<String>) -> (r: bool)
    ensures
        r == starts_with_path(texts(a@), texts(b@)),
{
    if b.len() > a.len() {
        return false;
    }
    let r = prefixes_equal(a, b.len(), b, b.len());
    proof {
        assert(texts(b@).take(b@.len() as int) =~= texts(b@));
    }
    r
}

fn find_row(rows: &Vec<HubRow>, path: &Vec<String>, related_only: bool) -> (r: Option<usize>)
    ensures
        match r {
            Some(m) => m < rows@.len() && (if related_only { related(texts(rows@[m as int].path@), texts(path@)) } else { texts(rows@[m as int].path@) == texts(path@) })
                && forall|k: int| 0 <= k < m ==> !(if related_only { related(texts(rows@[k].path@), texts(path@)) } else { texts(rows@[k].path@) == texts(path@) }),
            None => forall|k: int| 0 <= k < rows@.len() ==> !(if related_only { related(texts(rows@[k].path@), texts(path@)) } else { texts(rows@[k].path@) == texts(path@) }),
        },
{
    let mut m: usize = 0;
    while m < rows.len()
        invariant
            m <= rows@.len(),
            forall|k: int| 0 <= k < m ==> !(if related_only { related(texts(rows@[k].path@), texts(path@)) } else { texts(rows@[k].path@) == texts(path@) }),
        decreases rows@.len() - m,
    {
        let row_path = &rows[m].path;
        let hit = if related_only {
            path_starts_with(row_path, path) || path_starts_with(path, row_path)
        } else {
            path_starts_with(row_path, path) && row_path.len() == path.len()
        };
        proof {
            if !related_only {
                if texts(row_path@).len() == texts(path@).len() {
                    assert(texts(row_path@).take(texts(path@).len() as int) =~= texts(row_path@));
                }
            }
        }
        if hit {
            return Some(m);
        }
        m = m + 1;
    }
    None
}

/// The row to select for `path`; see [`row_for_path`].
pub fn select_path(rows: &Vec<HubRow>, path: &Vec<String>) -> (r: Option<usize>)
    ensures
        match r {
            Some(m) => row_for_path(rows@, texts(path@)) == Some(m as int),
            None => row_for_path(rows@, texts(path@)) is None,
        },
{
    match find_row(rows, path, false) {
        Some(m) => {
            proof {
                let c = choose|c: int| 0 <= c < rows@.len() && texts(rows@[c].path@) == texts(path@)
                    && forall|k: int| 0 <= k < c ==> texts(rows@[k].path@) != texts(path@);
                if c < m { } else if m < c { assert(texts(rows@[m as int].path@) == texts(path@)); }
            }
            Some(m)
        },
        None => match find_row(rows, path, true) {
            Some(m) => {
                proof {
                    assert(!exists|k: int| 0 <= k < rows@.len() && texts(rows@[k].path@) == texts(path@));
                    let c = choose|c: int| 0 <= c < rows@.len() && related(texts(rows@[c].path@), texts(path@))
                        && forall|k: int| 0 <= k < c ==> !related(texts(rows@[k].path@), texts(path@));
                    if c < m { } else if m < c { assert(related(texts(rows@[m as int].path@), texts(path@))); }
                }
                Some(m)
            },
            None => None,
        },
    }
}

} // verus!
