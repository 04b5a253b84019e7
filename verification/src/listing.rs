//! The order of the entries the browser lists: by size, modification time, entry count or
//! name, ascending or descending, and stable for entries that compare equal.
use vstd::prelude::*;
use crate::browse::{MTimeSort, SortMode};
use crate::deletion::{ancestors, lemma_ancestors_step, Forest};
use crate::diff::{
    components_order, flipped, text_order, KeyOrder, lemma_components_equal, lemma_components_order_flips,
    lemma_components_order_transitive,
};
use crate::keys::{chars_of, split_by, split_on, views};
use crate::navigation::EntryDataBundle;
use crate::timestamp::Timestamp;

verus! {

/// The order of two numbers.
pub open spec fn number_order(a: int, b: int) -> KeyOrder {
    if a < b { KeyOrder::Less } else if a > b { KeyOrder::Greater } else { KeyOrder::Equal }
}

/// The order of two points in time.
pub open spec fn time_order(a: Timestamp, b: Timestamp) -> KeyOrder {
    match number_order(a.seconds as int, b.seconds as int) {
        KeyOrder::Equal => number_order(a.nanos as int, b.nanos as int),
        other => other,
    }
}

/// The order of two optional counts: no count before any count.
pub open spec fn count_value_order(a: Option<u64>, b: Option<u64>) -> KeyOrder {
    match (a, b) {
        (None, None) => KeyOrder::Equal,
        (None, Some(_)) => KeyOrder::Less,
        (Some(_), None) => KeyOrder::Greater,
        (Some(x), Some(y)) => number_order(x as int, y as int),
    }
}

/// The order of two names as paths, component by component.
pub open spec fn name_order(a: Seq<char>, b: Seq<char>) -> KeyOrder {
    components_order(split_by(a, '/'), split_by(b, '/'))
}

/// Entries by count, then by name.
pub open spec fn count_order(l: EntryDataBundle, r: EntryDataBundle) -> KeyOrder {
    match count_value_order(l.entry_count, r.entry_count) {
        KeyOrder::Equal => name_order(l.name@, r.name@),
        other => other,
    }
}

/// Directories before files, then by name.
pub open spec fn kind_name_order(l: EntryDataBundle, r: EntryDataBundle) -> KeyOrder {
    if l.is_dir && !r.is_dir {
        KeyOrder::Less
    } else if !l.is_dir && r.is_dir {
        KeyOrder::Greater
    } else {
        name_order(l.name@, r.name@)
    }
}

/// The order of two listed entries in `mode`.
pub open spec fn entry_order(mode: SortMode, l: EntryDataBundle, r: EntryDataBundle) -> KeyOrder {
    match mode {
        SortMode::SizeDescending => number_order(r.size as int, l.size as int),
        SortMode::SizeAscending => number_order(l.size as int, r.size as int),
        SortMode::MTimeAscending(_) => time_order(l.mtime, r.mtime),
        SortMode::MTimeDescending(_) => time_order(r.mtime, l.mtime),
        SortMode::CountAscending => count_order(l, r),
        SortMode::CountDescending => flipped(count_order(l, r)),
        SortMode::NameAscending => kind_name_order(l, r),
        SortMode::NameDescending => flipped(kind_name_order(l, r)),
    }
}

/// Whether the entry at position `i` is listed before the one at `j`: it comes first in `mode`,
/// or they compare equal and it came first.
pub open spec fn listed_first(mode: SortMode, entries: Seq<EntryDataBundle>, i: int, j: int) -> bool {
    let o = entry_order(mode, entries[i], entries[j]);
    o == KeyOrder::Less || (o == KeyOrder::Equal && i < j)
}

/// Whether `order` lists the positions it holds in listing order.
pub open spec fn in_listing_order(mode: SortMode, entries: Seq<EntryDataBundle>, order: Seq<usize>) -> bool {
    forall|a: int, b: int| 0 <= a < b < order.len() ==> listed_first(mode, entries, #[trigger] order[a] as int, #[trigger] order[b] as int)
}

proof fn lemma_name_order_flips(a: Seq<char>, b: Seq<char>)
    ensures
        name_order(b, a) == flipped(name_order(a, b)),
{
    lemma_components_order_flips(split_by(a, '/'), split_by(b, '/'));
}

/// Compared the other way round, an order is flipped.
proof fn lemma_entry_order_flips(mode: SortMode, l: EntryDataBundle, r: EntryDataBundle)
    ensures
        entry_order(mode, r, l) == flipped(entry_order(mode, l, r)),
{
    lemma_name_order_flips(l.name@, r.name@);
}

proof fn lemma_name_order_transitive(a: Seq<char>, b: Seq<char>, c: Seq<char>)
    requires
        name_order(a, b) != KeyOrder::Greater,
        name_order(b, c) != KeyOrder::Greater,
    ensures
        name_order(a, c) != KeyOrder::Greater,
        name_order(a, b) == KeyOrder::Less || name_order(b, c) == KeyOrder::Less ==> name_order(a, c) == KeyOrder::Less,
{
    let (pa, pb, pc) = (split_by(a, '/'), split_by(b, '/'), split_by(c, '/'));
    if components_order(pa, pb) == KeyOrder::Equal {
        lemma_components_equal(pa, pb);
    } else if components_order(pb, pc) == KeyOrder::Equal {
        lemma_components_equal(pb, pc);
    } else {
        lemma_components_order_transitive(pa, pb, pc);
    }
}

/// Ordering the entries of a listing is transitive.
proof fn lemma_entry_order_transitive(mode: SortMode, a: EntryDataBundle, b: EntryDataBundle, c: EntryDataBundle)
    requires
        entry_order(mode, a, b) != KeyOrder::Greater,
        entry_order(mode, b, c) != KeyOrder::Greater,
    ensures
        entry_order(mode, a, c) != KeyOrder::Greater,
        entry_order(mode, a, b) == KeyOrder::Less || entry_order(mode, b, c) == KeyOrder::Less ==> entry_order(mode, a, c) == KeyOrder::Less,
{
    match mode {
        SortMode::CountAscending => {
            if count_value_order(a.entry_count, b.entry_count) == KeyOrder::Equal
                && count_value_order(b.entry_count, c.entry_count) == KeyOrder::Equal {
                lemma_name_order_transitive(a.name@, b.name@, c.name@);
            }
        },
        SortMode::CountDescending => {
            lemma_entry_order_flips(SortMode::CountAscending, a, b);
            lemma_entry_order_flips(SortMode::CountAscending, b, c);
            lemma_entry_order_flips(SortMode::CountAscending, a, c);
            if count_value_order(c.entry_count, b.entry_count) == KeyOrder::Equal
                && count_value_order(b.entry_count, a.entry_count) == KeyOrder::Equal {
                lemma_name_order_transitive(c.name@, b.name@, a.name@);
            }
        },
        SortMode::NameAscending => {
            if a.is_dir == b.is_dir && b.is_dir == c.is_dir {
                lemma_name_order_transitive(a.name@, b.name@, c.name@);
            }
        },
        SortMode::NameDescending => {
            lemma_entry_order_flips(SortMode::NameAscending, a, b);
            lemma_entry_order_flips(SortMode::NameAscending, b, c);
            lemma_entry_order_flips(SortMode::NameAscending, a, c);
            if a.is_dir == b.is_dir && b.is_dir == c.is_dir {
                lemma_name_order_transitive(c.name@, b.name@, a.name@);
            }
        },
        _ => {},
    }
}

proof fn lemma_listed_first_transitive(mode: SortMode, entries: Seq<EntryDataBundle>, x: int, y: int, z: int)
    requires
        listed_first(mode, entries, x, y),
        listed_first(mode, entries, y, z),
    ensures
        listed_first(mode, entries, x, z),
{
    lemma_entry_order_transitive(mode, entries[x], entries[y], entries[z]);
}

proof fn lemma_listed_first_total(mode: SortMode, entries: Seq<EntryDataBundle>, x: int, y: int)
    requires
        x != y,
    ensures
        listed_first(mode, entries, x, y) || listed_first(mode, entries, y, x),
{
    lemma_entry_order_flips(mode, entries[x], entries[y]);
}

fn number_order_of(a: u128, b: u128) -> (r: KeyOrder)
    ensures
        r == number_order(a as int, b as int),
{
    if a < b { KeyOrder::Less } else if a > b { KeyOrder::Greater } else { KeyOrder::Equal }
}

fn time_order_of(a: Timestamp, b: Timestamp) -> (r: KeyOrder)
    ensures
        r == time_order(a, b),
{
    if a.seconds < b.seconds {
        KeyOrder::Less
    } else if a.seconds > b.seconds {
        KeyOrder::Greater
    } else if a.nanos < b.nanos {
        KeyOrder::Less
    } else if a.nanos > b.nanos {
        KeyOrder::Greater
    } else {
        KeyOrder::Equal
    }
}

fn compare_char_vecs(a: &Vec<char>, b: &Vec<char>) -> (r: KeyOrder)
    ensures
        r == text_order(a@, b@),
{
    let mut i: usize = 0;
    assert(a@.skip(0) =~= a@);
    assert(b@.skip(0) =~= b@);
    while i < a.len() && i < b.len() && a[i] == b[i]
        invariant
            i <= a@.len(),
            i <= b@.len(),
            text_order(a@, b@) == text_order(a@.skip(i as int), b@.skip(i as int)),
        decreases a@.len() - i,
    {
        assert(a@.skip(i as int).drop_first() =~= a@.skip(i + 1));
        assert(b@.skip(i as int).drop_first() =~= b@.skip(i + 1));
        i = i + 1;
    }
    if i == a.len() {
        if i == b.len() { KeyOrder::Equal } else { KeyOrder::Less }
    } else if i == b.len() {
        KeyOrder::Greater
    } else if a[i] < b[i] {
        KeyOrder::Less
    } else {
        KeyOrder::Greater
    }
}

fn compare_parts(a: &Vec<Vec<char>>, b: &Vec<Vec<char>>) -> (r: KeyOrder)
    ensures
        r == components_order(views(a@), views(b@)),
{
    let ghost va = views(a@);
    let ghost vb = views(b@);
    let mut i: usize = 0;
    assert(va.skip(0) =~= va);
    assert(vb.skip(0) =~= vb);
    while i < a.len() && i < b.len()
        invariant
            i <= a@.len(),
            i <= b@.len(),
            va == views(a@),
            vb == views(b@),
            components_order(va, vb) == components_order(va.skip(i as int), vb.skip(i as int)),
        decreases a@.len() - i,
    {
        assert(va.skip(i as int)[0] == a@[i as int]@);
        assert(vb.skip(i as int)[0] == b@[i as int]@);
        match compare_char_vecs(&a[i], &b[i]) {
            KeyOrder::Equal => {},
            other => return other,
        }
        assert(va.skip(i as int).drop_first() =~= va.skip(i + 1));
        assert(vb.skip(i as int).drop_first() =~= vb.skip(i + 1));
        i = i + 1;
    }
    if i == a.len() {
        if i == b.len() { KeyOrder::Equal } else { KeyOrder::Less }
    } else {
        KeyOrder::Greater
    }
}

fn flip(o: KeyOrder) -> (r: KeyOrder)
    ensures
        r == flipped(o),
{
    match o {
        KeyOrder::Less => KeyOrder::Greater,
        KeyOrder::Equal => KeyOrder::Equal,
        KeyOrder::Greater => KeyOrder::Less,
    }
}

/// The name of each entry split into its path components.
pub open spec fn parts_valid(entries: Seq<EntryDataBundle>, parts: Seq<Vec<Vec<char>>>) -> bool {
    &&& parts.len() == entries.len()
    &&& forall|i: int| 0 <= i < entries.len() ==> views(#[trigger] parts[i]@) == split_by(entries[i].name@, '/')
}

fn compare_entries(mode: SortMode, entries: &Vec<EntryDataBundle>, parts: &Vec<Vec<Vec<char>>>, i: usize, j: usize) -> (r: KeyOrder)
    requires
        parts_valid(entries@, parts@),
        i < entries@.len(),
        j < entries@.len(),
    ensures
        r == entry_order(mode, entries@[i as int], entries@[j as int]),
{
    let l = &entries[i];
    let r = &entries[j];
    assert(views(parts@[i as int]@) == split_by(l.name@, '/'));
    assert(views(parts@[j as int]@) == split_by(r.name@, '/'));
    match mode {
        SortMode::SizeDescending => number_order_of(r.size, l.size),
        SortMode::SizeAscending => number_order_of(l.size, r.size),
        SortMode::MTimeAscending(_) => time_order_of(l.mtime, r.mtime),
        SortMode::MTimeDescending(_) => time_order_of(r.mtime, l.mtime),
        SortMode::CountAscending | SortMode::CountDescending => {
            let by_count = match (l.entry_count, r.entry_count) {
                (None, None) => KeyOrder::Equal,
                (None, Some(_)) => KeyOrder::Less,
                (Some(_), None) => KeyOrder::Greater,
                (Some(x), Some(y)) => number_order_of(x as u128, y as u128),
            };
            let o = match by_count {
                KeyOrder::Equal => compare_parts(&parts[i], &parts[j]),
                other => other,
            };
            if mode == SortMode::CountAscending { o } else { flip(o) }
        },
        SortMode::NameAscending | SortMode::NameDescending => {
            let o = if l.is_dir && !r.is_dir {
                KeyOrder::Less
            } else if !l.is_dir && r.is_dir {
                KeyOrder::Greater
            } else {
                compare_parts(&parts[i], &parts[j])
            };
            if mode == SortMode::NameAscending { o } else { flip(o) }
        },
    }
}

fn is_listed_first(mode: SortMode, entries: &Vec<EntryDataBundle>, parts: &Vec<Vec<Vec<char>>>, i: usize, j: usize) -> (r: bool)
    requires
        parts_valid(entries@, parts@),
        i < entries@.len(),
        j < entries@.len(),
    ensures
        r == listed_first(mode, entries@, i as int, j as int),
{
    match compare_entries(mode, entries, parts, i, j) {
        KeyOrder::Less => true,
        KeyOrder::Equal => i < j,
        KeyOrder::Greater => false,
    }
}

fn merge(mode: SortMode, entries: &Vec<EntryDataBundle>, parts: &Vec<Vec<Vec<char>>>, a: Vec<usize>, b: Vec<usize>, lo: usize, mid: usize, hi: usize) -> (r: Vec<usize>)
    requires
        parts_valid(entries@, parts@),
        lo <= mid <= hi <= entries@.len(),
        forall|k: int| 0 <= k < a@.len() ==> lo <= #[trigger] a@[k] < mid,
        forall|k: int| 0 <= k < b@.len() ==> mid <= #[trigger] b@[k] < hi,
        in_listing_order(mode, entries@, a@),
        in_listing_order(mode, entries@, b@),
    ensures
        r@.len() == a@.len() + b@.len(),
        forall|k: int| 0 <= k < r@.len() ==> lo <= #[trigger] r@[k] < hi,
        in_listing_order(mode, entries@, r@),
{
    let mut out: Vec<usize> = Vec::new();
    let mut i: usize = 0;
    let mut j: usize = 0;
    while i < a.len() || j < b.len()
        invariant
            parts_valid(entries@, parts@),
            lo <= mid <= hi <= entries@.len(),
            forall|k: int| 0 <= k < a@.len() ==> lo <= #[trigger] a@[k] < mid,
            forall|k: int| 0 <= k < b@.len() ==> mid <= #[trigger] b@[k] < hi,
            in_listing_order(mode, entries@, a@),
            in_listing_order(mode, entries@, b@),
            i <= a@.len(),
            j <= b@.len(),
            out@.len() == i + j,
            forall|k: int| 0 <= k < out@.len() ==> lo <= #[trigger] out@[k] < hi,
            in_listing_order(mode, entries@, out@),
            out@.len() > 0 && i < a@.len() ==> listed_first(mode, entries@, out@.last() as int, a@[i as int] as int),
            out@.len() > 0 && j < b@.len() ==> listed_first(mode, entries@, out@.last() as int, b@[j as int] as int),
        decreases a@.len() + b@.len() - i - j,
    {
        let take_a = i < a.len() && (j >= b.len() || is_listed_first(mode, entries, parts, a[i], b[j]));
        let next = if take_a { a[i] } else { b[j] };
        proof {
            if !take_a && i < a@.len() {
                assert(a@[i as int] != b@[j as int]);
                lemma_listed_first_total(mode, entries@, a@[i as int] as int, b@[j as int] as int);
            }
            assert forall|k: int| 0 <= k < out@.len() implies listed_first(mode, entries@, #[trigger] out@[k] as int, next as int) by {
                if k < out@.len() - 1 {
                    assert(listed_first(mode, entries@, out@[k] as int, out@.last() as int));
                    lemma_listed_first_transitive(mode, entries@, out@[k] as int, out@.last() as int, next as int);
                }
            }
        }
        let ghost before = out@;
        out.push(next);
        proof {
            assert forall|x: int, y: int| 0 <= x < y < out@.len() implies listed_first(mode, entries@, #[trigger] out@[x] as int, #[trigger] out@[y] as int) by {
                if y < before.len() {
                    assert(out@[x] == before[x] && out@[y] == before[y]);
                } else {
                    assert(out@[x] == before[x]);
                }
            }
        }
        if take_a {
            i = i + 1;
            proof {
                if i < a@.len() {
                    assert(listed_first(mode, entries@, a@[i - 1] as int, a@[i as int] as int));
                }
            }
        } else {
            j = j + 1;
            proof {
                if j < b@.len() {
                    assert(listed_first(mode, entries@, b@[j - 1] as int, b@[j as int] as int));
                }
                if i < a@.len() {
                    lemma_listed_first_total(mode, entries@, a@[i as int] as int, b@[j - 1] as int);
                }
            }
        }
    }
    out
}

fn sort_range(mode: SortMode, entries: &Vec<EntryDataBundle>, parts: &Vec<Vec<Vec<char>>>, lo: usize, hi: usize) -> (r: Vec<usize>)
    requires
        parts_valid(entries@, parts@),
        lo <= hi <= entries@.len(),
    ensures
        r@.len() == hi - lo,
        forall|k: int| 0 <= k < r@.len() ==> lo <= #[trigger] r@[k] < hi,
        in_listing_order(mode, entries@, r@),
    decreases hi - lo,
{
    if hi - lo <= 1 {
        let mut r: Vec<usize> = Vec::new();
        if hi - lo == 1 {
            r.push(lo);
        }
        return r;
    }
    let mid = lo + (hi - lo) / 2;
    let a = sort_range(mode, entries, parts, lo, mid);
    let b = sort_range(mode, entries, parts, mid, hi);
    merge(mode, entries, parts, a, b, lo, mid, hi)
}

/// The order in which `entries` are listed in `mode`: the position of each entry, first to
/// last. Entries that compare equal keep their relative order.
pub fn sorted_order(entries: &Vec<EntryDataBundle>, mode: SortMode) -> (r: Vec<usize>)
    ensures
        r@.len() == entries@.len(),
        forall|k: int| 0 <= k < r@.len() ==> #[trigger] r@[k] < entries@.len(),
        in_listing_order(mode, entries@, r@),
{
    let mut parts: Vec<Vec<Vec<char>>> = Vec::new();
    let mut i: usize = 0;
    while i < entries.len()
        invariant
            i <= entries@.len(),
            parts@.len() == i,
            forall|k: int| 0 <= k < i ==> views(#[trigger] parts@[k]@) == split_by(entries@[k].name@, '/'),
        decreases entries@.len() - i,
    {
        let chars = chars_of(entries[i].name.as_str());
        parts.push(split_on(chars.as_slice(), '/'));
        i = i + 1;
    }
    sort_range(mode, entries, &parts, 0, entries.len())
}

/// Whether entry `i` of `f` lies below entry `a`: `a` is among its ancestors.
pub open spec fn lies_below(f: Forest, a: usize, i: int) -> bool {
    ancestors(f, i).contains(a)
}

/// Whether `f` has an entry below `a`.
pub open spec fn has_descendants(f: Forest, a: usize) -> bool {
    exists|i: int| 0 <= i < f.parent@.len() && #[trigger] lies_below(f, a, i)
}

/// Whether time `t` is preferred to `u`: later where the newest is sought, else earlier.
pub open spec fn preferred(t: Timestamp, u: Timestamp, newest: bool) -> bool {
    time_order(t, u) == if newest { KeyOrder::Greater } else { KeyOrder::Less }
}

/// Whether `t` is the newest (or, unless `newest`, the oldest) modification time in `mtimes`
/// of the entries below `a`.
pub open spec fn extreme_below(f: Forest, mtimes: Seq<Timestamp>, a: usize, newest: bool, t: Timestamp) -> bool {
    &&& exists|i: int| 0 <= i < f.parent@.len() && #[trigger] lies_below(f, a, i) && mtimes[i] == t
    &&& forall|i: int| 0 <= i < f.parent@.len() && #[trigger] lies_below(f, a, i) ==> !preferred(mtimes[i], t, newest)
}

/// The time an entry is sorted by in `sort`: its own, or the newest or oldest time below it,
/// where it has entries below it.
pub open spec fn sort_time_of(f: Forest, mtimes: Seq<Timestamp>, node: usize, sort: MTimeSort, t: Timestamp) -> bool {
    match sort {
        MTimeSort::Entry => t == mtimes[node as int],
        MTimeSort::RecursiveChildrenNewest => if has_descendants(f, node) {
            extreme_below(f, mtimes, node, true, t)
        } else {
            t == mtimes[node as int]
        },
        MTimeSort::RecursiveChildrenOldest => if has_descendants(f, node) {
            extreme_below(f, mtimes, node, false, t)
        } else {
            t == mtimes[node as int]
        },
    }
}

fn is_below(f: &Forest, a: usize, i: usize) -> (r: bool)
    requires
        f.wf(),
        i < f.parent@.len(),
    ensures
        r == lies_below(*f, a, i as int),
{
    let ghost chain = ancestors(*f, i as int);
    let mut current: Option<usize> = f.parent[i];
    let ghost mut walked: int = 0;
    proof {
        if f.parent@[i as int] is Some {
            lemma_ancestors_step(*f, i as int);
        }
        assert(chain.skip(0) =~= chain);
    }
    while current.is_some()
        invariant
            f.wf(),
            chain == ancestors(*f, i as int),
            0 <= walked <= chain.len(),
            forall|k: int| 0 <= k < walked ==> chain[k] != a,
            match current {
                Some(c) => c < f.parent@.len() && chain.skip(walked) == seq![c] + ancestors(*f, c as int),
                None => walked == chain.len(),
            },
        decreases chain.len() - walked,
    {
        let c = current.unwrap();
        proof {
            assert((seq![c] + ancestors(*f, c as int))[0] == c);
            assert(chain.skip(walked).len() == chain.len() - walked);
            assert(chain.skip(walked)[0] == chain[walked]);
        }
        if c == a {
            assert(chain[walked] == a);
            return true;
        }
        let next = f.parent[c];
        proof {
            assert(chain.skip(walked + 1) =~= chain.skip(walked).drop_first());
            if next is Some {
                lemma_ancestors_step(*f, c as int);
            } else {
                assert(ancestors(*f, c as int) =~= Seq::<usize>::empty());
            }
            walked = walked + 1;
        }
        current = next;
    }
    false
}

/// The newest (or, unless `newest`, the oldest) modification time among the entries below `a`,
/// or `None` where there is none.
pub fn descendant_mtime(f: &Forest, mtimes: &Vec<Timestamp>, a: usize, newest: bool) -> (r: Option<Timestamp>)
    requires
        f.wf(),
        mtimes@.len() == f.parent@.len(),
    ensures
        r is None <==> !has_descendants(*f, a),
        r matches Some(t) ==> extreme_below(*f, mtimes@, a, newest, t),
{
    let n = f.parent.len();
    let mut selected: Option<Timestamp> = None;
    let mut i: usize = 0;
    while i < n
        invariant
            f.wf(),
            n == f.parent@.len() == mtimes@.len(),
            i <= n,
            selected is None <==> !exists|j: int| 0 <= j < i && #[trigger] lies_below(*f, a, j),
            selected matches Some(t) ==> {
                &&& exists|j: int| 0 <= j < i && #[trigger] lies_below(*f, a, j) && mtimes@[j] == t
                &&& forall|j: int| 0 <= j < i && #[trigger] lies_below(*f, a, j) ==> !preferred(mtimes@[j], t, newest)
            },
        decreases n - i,
    {
        if is_below(f, a, i) {
            let t = mtimes[i];
            let ghost prior = selected;
            selected = match selected {
                None => Some(t),
                Some(best) => {
                    let o = time_order_of(t, best);
                    let wanted = if newest { KeyOrder::Greater } else { KeyOrder::Less };
                    if o == wanted { Some(t) } else { Some(best) }
                },
            };
            proof {
                let chosen = selected->0;
                assert(lies_below(*f, a, i as int) && mtimes@[i as int] == t);
                match prior {
                    Some(best) => {
                    if chosen == t {
                        assert forall|j: int| 0 <= j < i + 1 && #[trigger] lies_below(*f, a, j) implies !preferred(mtimes@[j], t, newest) by {
                            if j < i {
                                assert(!preferred(mtimes@[j], best, newest));
                                lemma_time_order_total(mtimes@[j], best, t);
                            } else {
                                lemma_time_order_irreflexive(t);
                            }
                        }
                    } else {
                        assert forall|j: int| 0 <= j < i + 1 && #[trigger] lies_below(*f, a, j) implies !preferred(mtimes@[j], best, newest) by {
                            if j == i {
                                lemma_time_order_flip(t, best);
                            }
                        }
                    }
                    },
                    None => {
                    assert forall|j: int| 0 <= j < i + 1 && #[trigger] lies_below(*f, a, j) implies !preferred(mtimes@[j], t, newest) by {
                        if j == i {
                            lemma_time_order_irreflexive(t);
                        }
                    }
                    },
                }
            }
        }
        i = i + 1;
    }
    selected
}

proof fn lemma_time_order_irreflexive(t: Timestamp)
    ensures
        time_order(t, t) == KeyOrder::Equal,
{
}

proof fn lemma_time_order_flip(t: Timestamp, u: Timestamp)
    ensures
        time_order(t, u) == KeyOrder::Greater <==> time_order(u, t) == KeyOrder::Less,
{
}

proof fn lemma_time_order_total(x: Timestamp, best: Timestamp, t: Timestamp)
    ensures
        time_order(x, best) != KeyOrder::Greater && time_order(best, t) == KeyOrder::Less ==> time_order(x, t) == KeyOrder::Less,
        time_order(x, best) != KeyOrder::Less && time_order(best, t) == KeyOrder::Greater ==> time_order(x, t) == KeyOrder::Greater,
{
}

/// The time entry `node` is sorted by in `sort`; see [`sort_time_of`].
pub fn sort_time(f: &Forest, mtimes: &Vec<Timestamp>, node: usize, sort: MTimeSort) -> (r: Timestamp)
    requires
        f.wf(),
        mtimes@.len() == f.parent@.len(),
        node < f.parent@.len(),
    ensures
        sort_time_of(*f, mtimes@, node, sort, r),
{
    match sort {
        MTimeSort::Entry => mtimes[node],
        MTimeSort::RecursiveChildrenNewest => match descendant_mtime(f, mtimes, node, true) {
            Some(t) => t,
            None => mtimes[node],
        },
        MTimeSort::RecursiveChildrenOldest => match descendant_mtime(f, mtimes, node, false) {
            Some(t) => t,
            None => mtimes[node],
        },
    }
}

} // verus!
