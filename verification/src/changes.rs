//! The comparison of two whole snapshots: both are walked together in key order, and every
//! difference is reported once, at the entry it concerns.
use vstd::prelude::*;
use crate::clean::copy_string;
use crate::diff::{
    diff_step, key_view, position_order, step_spec, Advance, Change, Current, DecodedEntry, Side, SnapshotCursor,
};

verus! {

/// What a cursor at `e` holds of it.
pub open spec fn current_of(e: DecodedEntry) -> Current {
    Current { depth: e.depth, size: e.size, is_dir: e.is_dir }
}

/// Whether `es` lists a snapshot's entries in preorder: the first is a root, and each entry lies
/// at most one level below the entry before it.
pub open spec fn preorder(es: Seq<DecodedEntry>) -> bool {
    &&& es.len() > 0 ==> es[0].depth == 0
    &&& forall|p: int| 0 < p < es.len() ==> #[trigger] es[p].depth <= es[p - 1].depth + 1
}

/// The key of entry `p` of `es`: the key parts of its ancestors from its root, then its own.
pub open spec fn key_at(es: Seq<DecodedEntry>, p: int) -> Seq<(Seq<u8>, u64)>
    decreases p,
{
    if p <= 0 || es[p].depth == 0 {
        seq![(es[p].native_name@, es[p].sibling_ordinal)]
    } else {
        key_at(es, p - 1).take(es[p].depth as int).push((es[p].native_name@, es[p].sibling_ordinal))
    }
}

/// The number of roots among the first `n` entries of `es`.
pub open spec fn roots_among(es: Seq<DecodedEntry>, n: int) -> nat
    decreases n,
{
    if n <= 0 { 0 } else { roots_among(es, n - 1) + if es[n - 1].depth == 0 { 1nat } else { 0nat } }
}

/// The first position at or after `from` that is the end of `es` or lies no deeper than entry
/// `p`: where a walk that leaves out `p`'s descendants goes on.
pub open spec fn next_outside(es: Seq<DecodedEntry>, p: int, from: int) -> int
    decreases es.len() - from,
{
    if from >= es.len() || es[from].depth <= es[p].depth { from } else { next_outside(es, p, from + 1) }
}

/// Where a cursor at position `p` of `es` moves with `adv`.
pub open spec fn moved(es: Seq<DecodedEntry>, p: int, adv: Advance) -> int {
    match adv {
        Advance::Stay => p,
        Advance::Next => p + 1,
        Advance::PastCurrent => if es[p].is_dir { next_outside(es, p, p + 1) } else { p + 1 },
    }
}

/// The entry at position `p` of `es`, if it is not the end.
pub open spec fn entry_at_position(es: Seq<DecodedEntry>, p: int) -> Option<Current> {
    if 0 <= p < es.len() { Some(current_of(es[p])) } else { None }
}

/// The order of position `i` of `old` and position `j` of `new`: by root, then by key.
pub open spec fn order_at(old: Seq<DecodedEntry>, i: int, new: Seq<DecodedEntry>, j: int) -> crate::diff::KeyOrder {
    position_order((roots_among(old, i + 1) - 1) as usize, key_at(old, i), (roots_among(new, j + 1) - 1) as usize, key_at(new, j))
}

/// The changes of one step, each with the position of the entry it concerns in its snapshot.
pub open spec fn placed(changes: Seq<(Change, Side)>, i: int, j: int) -> Seq<(Change, Side, usize)> {
    changes.map_values(|c: (Change, Side)| (c.0, c.1, if c.1 is Old { i as usize } else { j as usize }))
}

/// Leaving out the descendants of `p` goes on at a position after `p`, at most the end.
pub proof fn lemma_next_outside(es: Seq<DecodedEntry>, p: int, from: int)
    requires
        0 <= p < es.len(),
        p < from <= es.len(),
    ensures
        from <= next_outside(es, p, from) <= es.len(),
    decreases es.len() - from,
{
    if from < es.len() && es[from].depth > es[p].depth {
        lemma_next_outside(es, p, from + 1);
    }
}

/// Unless both snapshots are exhausted, a step moves neither cursor back or past its end, and
/// at least one of them forward.
pub proof fn lemma_step_moves(old: Seq<DecodedEntry>, new: Seq<DecodedEntry>, i: int, j: int, d: bool)
    requires
        0 <= i <= old.len(),
        0 <= j <= new.len(),
        i < old.len() || j < new.len(),
    ensures
        ({
            let st = step_spec(entry_at_position(old, i), entry_at_position(new, j), order_at(old, i, new, j), d);
            &&& i <= moved(old, i, st.1) <= old.len()
            &&& j <= moved(new, j, st.2) <= new.len()
            &&& moved(old, i, st.1) + moved(new, j, st.2) > i + j
            &&& !st.3
        }),
{
    if i < old.len() && old[i].is_dir {
        lemma_next_outside(old, i, i + 1);
    }
    if j < new.len() && new[j].is_dir {
        lemma_next_outside(new, j, j + 1);
    }
}

/// The changes between `old` from position `i` on and `new` from position `j` on: the changes
/// of the step at these positions (see [`step_spec`]), then those from where the step moves the
/// two cursors, until both snapshots are exhausted.
pub open spec fn changes_from(old: Seq<DecodedEntry>, new: Seq<DecodedEntry>, i: int, j: int, d: bool) -> Seq<(Change, Side, usize)>
    decreases old.len() - i + new.len() - j,
{
    if !(0 <= i <= old.len() && 0 <= j <= new.len()) || (i == old.len() && j == new.len()) {
        Seq::empty()
    } else {
        let st = step_spec(entry_at_position(old, i), entry_at_position(new, j), order_at(old, i, new, j), d);
        proof {
            lemma_step_moves(old, new, i, j, d);
        }
        placed(st.0, i, j) + changes_from(old, new, moved(old, i, st.1), moved(new, j, st.2), d)
    }
}

/// Whether `r` reports each entry at most once, at a position from `i` (of `old`, length `n`) or
/// `j` (of `new`, length `m`) on, and the entries of each snapshot in the order they come.
pub open spec fn reported_once_in_order(r: Seq<(Change, Side, usize)>, i: int, n: int, j: int, m: int) -> bool {
    &&& forall|a: int| 0 <= a < r.len() ==> (#[trigger] r[a]).1 is Old ==> i <= r[a].2 < n
    &&& forall|a: int| 0 <= a < r.len() ==> (#[trigger] r[a]).1 is New ==> j <= r[a].2 < m
    &&& forall|a: int, b: int| 0 <= a < b < r.len() && (#[trigger] r[a]).1 == (#[trigger] r[b]).1 ==> r[a].2 < r[b].2
}

proof fn lemma_step_sides(old: Seq<DecodedEntry>, new: Seq<DecodedEntry>, i: int, j: int, d: bool)
    requires
        0 <= i <= old.len() <= usize::MAX,
        0 <= j <= new.len() <= usize::MAX,
        !(i == old.len() && j == new.len()),
    ensures
        ({
            let st = step_spec(entry_at_position(old, i), entry_at_position(new, j), order_at(old, i, new, j), d);
            let head = placed(st.0, i, j);
            let i2 = moved(old, i, st.1);
            let j2 = moved(new, j, st.2);
            &&& i <= i2 <= old.len()
            &&& j <= j2 <= new.len()
            &&& forall|a: int| 0 <= a < head.len() ==> (#[trigger] head[a]).1 is Old ==> head[a].2 == i && i < i2
            &&& forall|a: int| 0 <= a < head.len() ==> (#[trigger] head[a]).1 is New ==> head[a].2 == j && j < j2
            &&& forall|a: int, b: int| 0 <= a < b < head.len() ==> (#[trigger] head[a]).1 != (#[trigger] head[b]).1
        }),
{
    lemma_step_moves(old, new, i, j, d);
    if i < old.len() && old[i].is_dir {
        lemma_next_outside(old, i, i + 1);
    }
    if j < new.len() && new[j].is_dir {
        lemma_next_outside(new, j, j + 1);
    }
}

/// The walk over two snapshots reports each entry of either at most once, and the entries of
/// each snapshot in the order the snapshot lists them.
pub proof fn law_changes_report_entries_once_in_order(old: Seq<DecodedEntry>, new: Seq<DecodedEntry>, i: int, j: int, d: bool)
    requires
        0 <= i <= old.len() <= usize::MAX,
        0 <= j <= new.len() <= usize::MAX,
    ensures
        reported_once_in_order(changes_from(old, new, i, j, d), i, old.len() as int, j, new.len() as int),
    decreases old.len() - i + new.len() - j,
{
    if !(i == old.len() && j == new.len()) {
        let st = step_spec(entry_at_position(old, i), entry_at_position(new, j), order_at(old, i, new, j), d);
        lemma_step_moves(old, new, i, j, d);
        lemma_step_sides(old, new, i, j, d);
        let i2 = moved(old, i, st.1);
        let j2 = moved(new, j, st.2);
        law_changes_report_entries_once_in_order(old, new, i2, j2, d);
        let head = placed(st.0, i, j);
        let rest = changes_from(old, new, i2, j2, d);
        let r = changes_from(old, new, i, j, d);
        assert(r == head + rest);
        lemma_joined_reports(head, rest, i, i2, old.len() as int, j, j2, new.len() as int);
    }
}

proof fn lemma_joined_reports(head: Seq<(Change, Side, usize)>, rest: Seq<(Change, Side, usize)>, i: int, i2: int, n: int, j: int, j2: int, m: int)
    requires
        i <= i2,
        j <= j2,
        forall|a: int| 0 <= a < head.len() ==> (#[trigger] head[a]).1 is Old ==> head[a].2 == i && i < i2,
        forall|a: int| 0 <= a < head.len() ==> (#[trigger] head[a]).1 is New ==> head[a].2 == j && j < j2,
        forall|a: int, b: int| 0 <= a < b < head.len() ==> (#[trigger] head[a]).1 != (#[trigger] head[b]).1,
        reported_once_in_order(rest, i2, n, j2, m),
        i2 <= n,
        j2 <= m,
    ensures
        reported_once_in_order(head + rest, i, n, j, m),
{
    let r = head + rest;
    assert forall|a: int| 0 <= a < r.len() implies (#[trigger] r[a]).1 is Old ==> i <= r[a].2 < n by {
        if a < head.len() {
            assert(r[a] == head[a]);
        } else {
            assert(r[a] == rest[a - head.len()]);
        }
    }
    assert forall|a: int| 0 <= a < r.len() implies (#[trigger] r[a]).1 is New ==> j <= r[a].2 < m by {
        if a < head.len() {
            assert(r[a] == head[a]);
        } else {
            assert(r[a] == rest[a - head.len()]);
        }
    }
    assert forall|a: int, b: int| 0 <= a < b < r.len() && (#[trigger] r[a]).1 == (#[trigger] r[b]).1 implies r[a].2 < r[b].2 by {
        if b < head.len() {
            assert(r[a] == head[a] && r[b] == head[b]);
        } else if a < head.len() {
            assert(r[a] == head[a]);
            assert(r[b] == rest[b - head.len()]);
        } else {
            assert(r[a] == rest[a - head.len()] && r[b] == rest[b - head.len()]);
        }
    }
}

/// Whether cursor `c` stands at position `i` of `es`.
pub open spec fn cursor_at(c: SnapshotCursor, es: Seq<DecodedEntry>, i: int) -> bool {
    &&& 0 <= i <= es.len()
    &&& c.current == entry_at_position(es, i)
    &&& i < es.len() ==> {
        &&& key_view(c.key@) == key_at(es, i)
        &&& c.root_ordinal == roots_among(es, i + 1) - 1
        &&& c.roots_seen == roots_among(es, i + 1)
        &&& c.key@.len() == es[i].depth + 1
        &&& c.path@.len() == es[i].depth + 1
    }
}

proof fn lemma_roots_among(es: Seq<DecodedEntry>, n: int)
    requires
        0 <= n <= es.len(),
    ensures
        roots_among(es, n) <= n,
        preorder(es) && n > 0 ==> roots_among(es, n) >= 1,
    decreases n,
{
    if n > 0 {
        lemma_roots_among(es, n - 1);
    }
}

fn copy_bytes(v: &Vec<u8>) -> (r: Vec<u8>)
    ensures
        r@ == v@,
{
    let mut out: Vec<u8> = Vec::new();
    let mut i: usize = 0;
    while i < v.len()
        invariant
            i <= v@.len(),
            out@ == v@.subrange(0, i as int),
        decreases v@.len() - i,
    {
        out.push(v[i]);
        i = i + 1;
        assert(out@ =~= v@.subrange(0, i as int));
    }
    assert(v@.subrange(0, v@.len() as int) =~= v@);
    out
}

fn copy_entry(e: &DecodedEntry) -> (r: DecodedEntry)
    ensures
        r.depth == e.depth,
        r.name@ == e.name@,
        r.native_name@ == e.native_name@,
        r.sibling_ordinal == e.sibling_ordinal,
        r.size == e.size,
        r.is_dir == e.is_dir,
{
    DecodedEntry {
        depth: e.depth,
        name: copy_string(&e.name),
        native_name: copy_bytes(&e.native_name),
        sibling_ordinal: e.sibling_ordinal,
        size: e.size,
        is_dir: e.is_dir,
    }
}

/// Move cursor `c`, standing at position `i` of `es`, to position `i + 1`.
fn step_cursor(c: &mut SnapshotCursor, es: &Vec<DecodedEntry>, i: usize)
    requires
        preorder(es@),
        i < es@.len(),
        cursor_at(*old(c), es@, i as int),
    ensures
        cursor_at(*final(c), es@, i + 1),
{
    proof {
        lemma_roots_among(es@, i + 1);
    }
    let n = es.len();
    if i + 1 < n {
        let e = copy_entry(&es[i + 1]);
        assert(es@[i + 1].depth <= es@[i as int].depth + 1);
        let r = c.advance_to(Some(e));
        assert(r is Ok);
        proof {
            let p = i + 1;
            if es@[p].depth == 0 {
                assert(key_at(es@, p) == seq![(es@[p].native_name@, es@[p].sibling_ordinal)]);
                assert(key_view(c.key@) =~= key_at(es@, p));
            } else {
                assert(key_at(es@, p) == key_at(es@, p - 1).take(es@[p].depth as int).push((es@[p].native_name@, es@[p].sibling_ordinal)));
            }
            assert(roots_among(es@, p + 1) == roots_among(es@, p) + if es@[p].depth == 0 { 1nat } else { 0nat });
        }
    } else {
        let r = c.advance_to(None);
    }
}

/// Move cursor `c`, standing at position `i` of `es`, as `adv` says; see [`moved`].
fn move_cursor(c: &mut SnapshotCursor, es: &Vec<DecodedEntry>, i: usize, adv: Advance) -> (r: usize)
    requires
        preorder(es@),
        cursor_at(*old(c), es@, i as int),
        adv != Advance::Stay ==> i < es@.len(),
    ensures
        r == moved(es@, i as int, adv),
        cursor_at(*final(c), es@, r as int),
{
    let n = es.len();
    match adv {
        Advance::Stay => i,
        Advance::Next => {
            step_cursor(c, es, i);
            i + 1
        },
        Advance::PastCurrent => {
            let depth = es[i].depth;
            let is_dir = es[i].is_dir;
            step_cursor(c, es, i);
            let mut q = i + 1;
            if is_dir {
                while q < es.len() && es[q].depth > depth
                    invariant
                        preorder(es@),
                        i < q <= es@.len(),
                        depth == es@[i as int].depth,
                        es@[i as int].is_dir,
                        next_outside(es@, i as int, q as int) == next_outside(es@, i as int, i + 1),
                        cursor_at(*c, es@, q as int),
                    decreases es@.len() - q,
                {
                    step_cursor(c, es, q);
                    q = q + 1;
                }
            }
            q
        },
    }
}

/// Every difference between the snapshots whose entries, in preorder, are `old` and `new`, in
/// the order the two are walked together (see [`changes_from`]): each with the snapshot and the
/// position of the entry it is reported at. With `directories_only`, directories are compared
/// by their total sizes and files are left out.
pub fn diff_entries(old: &Vec<DecodedEntry>, new: &Vec<DecodedEntry>, directories_only: bool) -> (r: Vec<(Change, Side, usize)>)
    requires
        preorder(old@),
        preorder(new@),
    ensures
        r@ == changes_from(old@, new@, 0, 0, directories_only),
        reported_once_in_order(r@, 0, old@.len() as int, 0, new@.len() as int),
{
    let mut oc = SnapshotCursor::new();
    let mut nc = SnapshotCursor::new();
    if old.len() > 0 {
        let r = oc.advance_to(Some(copy_entry(&old[0])));
        assert(key_view(oc.key@) =~= key_at(old@, 0));
        assert(roots_among(old@, 1) == roots_among(old@, 0) + 1);
    } else {
        let r = oc.advance_to(None);
    }
    if new.len() > 0 {
        let r = nc.advance_to(Some(copy_entry(&new[0])));
        assert(key_view(nc.key@) =~= key_at(new@, 0));
        assert(roots_among(new@, 1) == roots_among(new@, 0) + 1);
    } else {
        let r = nc.advance_to(None);
    }
    let mut i: usize = 0;
    let mut j: usize = 0;
    let mut out: Vec<(Change, Side, usize)> = Vec::new();
    assert(out@ + changes_from(old@, new@, 0, 0, directories_only) =~= changes_from(old@, new@, 0, 0, directories_only));
    loop
        invariant
            preorder(old@),
            preorder(new@),
            cursor_at(oc, old@, i as int),
            cursor_at(nc, new@, j as int),
            out@ + changes_from(old@, new@, i as int, j as int, directories_only) == changes_from(old@, new@, 0, 0, directories_only),
        decreases old@.len() - i + new@.len() - j,
    {
        let step = diff_step(&oc, &nc, directories_only);
        if step.done {
            assert(i == old@.len() && j == new@.len());
            assert(out@ =~= out@ + changes_from(old@, new@, i as int, j as int, directories_only));
            let _lengths = (old.len(), new.len());
            proof {
                law_changes_report_entries_once_in_order(old@, new@, 0, 0, directories_only);
            }
            return out;
        }
        proof {
            lemma_step_moves(old@, new@, i as int, j as int, directories_only);
            if i < old@.len() && j < new@.len() {
                assert(order_at(old@, i as int, new@, j as int) == position_order(oc.root_ordinal, key_view(oc.key@), nc.root_ordinal, key_view(nc.key@)));
            }
        }
        let ghost before = out@;
        let mut k: usize = 0;
        while k < step.changes.len()
            invariant
                k <= step.changes@.len(),
                out@ == before + placed(step.changes@, i as int, j as int).take(k as int),
            decreases step.changes@.len() - k,
        {
            let (change, side) = step.changes[k];
            let position = match side {
                Side::Old => i,
                Side::New => j,
            };
            out.push((change, side, position));
            k = k + 1;
            assert(out@ =~= before + placed(step.changes@, i as int, j as int).take(k as int));
        }
        assert(placed(step.changes@, i as int, j as int).take(k as int) =~= placed(step.changes@, i as int, j as int));
        let ghost (pi, pj) = (i, j);
        i = move_cursor(&mut oc, old, i, step.old_advance);
        j = move_cursor(&mut nc, new, j, step.new_advance);
        assert(changes_from(old@, new@, pi as int, pj as int, directories_only)
            == placed(step.changes@, pi as int, pj as int) + changes_from(old@, new@, i as int, j as int, directories_only));
        assert(out@ + changes_from(old@, new@, i as int, j as int, directories_only)
            =~= before + changes_from(old@, new@, pi as int, pj as int, directories_only));
    }
}

} // verus!
