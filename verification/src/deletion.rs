//! What a batch of removals does to the tree of entries: which removed entries stand for their
//! removed descendants, and how much size and how many entries each ancestor loses.
use vstd::prelude::*;
use crate::navigation::Navigation;
use vstd::std_specs::iter::IteratorSpec;

verus! {

broadcast use vstd::std_specs::btree::group_btree_axioms, vstd::laws_cmp::group_laws_cmp;

/// The shape of the tree of entries: each entry's parent, if it has one, and its depth.
pub struct Forest {
    /// The parent of each entry.
    pub parent: Vec<Option<usize>>,
    /// The depth of each entry: one more than its parent's.
    pub depth: Vec<usize>,
}

impl Forest {
    /// Every parent is an entry one level up.
    pub open spec fn wf(&self) -> bool {
        &&& self.parent@.len() == self.depth@.len()
        &&& forall|i: int| 0 <= i < self.parent@.len() && #[trigger] self.parent@[i] is Some ==> {
            let p = self.parent@[i]->0;
            &&& p < self.parent@.len()
            &&& self.depth@[i] == self.depth@[p as int] + 1
        }
    }
}

/// The ancestors of entry `i`, nearest first, following at most `fuel` parents.
pub open spec fn ancestors_within(parent: Seq<Option<usize>>, i: int, fuel: nat) -> Seq<usize>
    decreases fuel,
{
    if fuel == 0 || !(0 <= i < parent.len()) {
        Seq::empty()
    } else {
        match parent[i] {
            None => Seq::empty(),
            Some(p) => seq![p] + ancestors_within(parent, p as int, (fuel - 1) as nat),
        }
    }
}

/// The ancestors of entry `i`, nearest first.
pub open spec fn ancestors(f: Forest, i: int) -> Seq<usize> {
    ancestors_within(f.parent@, i, (f.depth@[i] + 1) as nat)
}

pub(crate) proof fn lemma_ancestors_step(f: Forest, i: int)
    requires
        f.wf(),
        0 <= i < f.parent@.len(),
        f.parent@[i] is Some,
    ensures
        ancestors(f, i) == seq![f.parent@[i]->0] + ancestors(f, f.parent@[i]->0 as int),
{
    let p = f.parent@[i]->0;
    assert(f.depth@[i] == f.depth@[p as int] + 1);
}

proof fn lemma_ancestors_deeper(f: Forest, i: int, k: int)
    requires
        f.wf(),
        0 <= i < f.parent@.len(),
        0 <= k < ancestors(f, i).len(),
    ensures
        ancestors(f, i)[k] < f.parent@.len(),
        f.depth@[ancestors(f, i)[k] as int] < f.depth@[i],
    decreases f.depth@[i],
{
    let p = f.parent@[i]->0;
    lemma_ancestors_step(f, i);
    if k > 0 {
        lemma_ancestors_deeper(f, p as int, k - 1);
    }
}

/// Whether a removed entry is the topmost removed one on its path: no ancestor of it is removed.
pub open spec fn removal_root(f: Forest, removed: Seq<bool>, i: int) -> bool {
    removed[i] && forall|k: int| 0 <= k < ancestors(f, i).len() ==> !removed[#[trigger] ancestors(f, i)[k] as int]
}

/// Mark the removed entries that no removed ancestor stands for: a successful directory
/// removal subsumes its descendants removed in the same batch.
pub fn removal_roots(f: &Forest, removed: &Vec<bool>) -> (r: Vec<bool>)
    requires
        f.wf(),
        removed@.len() == f.parent@.len(),
    ensures
        r@.len() == removed@.len(),
        forall|i: int| 0 <= i < r@.len() ==> #[trigger] r@[i] == removal_root(*f, removed@, i),
{
    let n = removed.len();
    let mut roots: Vec<bool> = Vec::new();
    let mut i: usize = 0;
    while i < n
        invariant
            f.wf(),
            n == removed@.len() == f.parent@.len(),
            i <= n,
            roots@.len() == i,
            forall|j: int| 0 <= j < i ==> #[trigger] roots@[j] == removal_root(*f, removed@, j),
        decreases n - i,
    {
        let mut is_root = removed[i];
        if is_root {
            let mut current: Option<usize> = f.parent[i];
            let ghost mut walked: int = 0;
            proof {
                if f.parent@[i as int] is Some {
                    lemma_ancestors_step(*f, i as int);
                }
            }
            while current.is_some()
                invariant_except_break
                    is_root,
                invariant
                    f.wf(),
                    n == removed@.len() == f.parent@.len(),
                    i < n,
                    0 <= walked <= ancestors(*f, i as int).len(),
                    forall|k: int| 0 <= k < walked ==> !removed@[#[trigger] ancestors(*f, i as int)[k] as int],
                    match current {
                        None => walked == ancestors(*f, i as int).len(),
                        Some(p) => p < n && walked < ancestors(*f, i as int).len() && ancestors(*f, i as int)[walked] == p
                            && ancestors(*f, i as int).skip(walked) == seq![p] + ancestors(*f, p as int),
                    },
                ensures
                    0 <= walked <= ancestors(*f, i as int).len(),
                    forall|k: int| 0 <= k < walked ==> !removed@[#[trigger] ancestors(*f, i as int)[k] as int],
                    is_root ==> walked == ancestors(*f, i as int).len(),
                    !is_root ==> walked < ancestors(*f, i as int).len() && removed@[ancestors(*f, i as int)[walked] as int],
                decreases match current { Some(p) => f.depth@[p as int] + 1, None => 0 },
            {
                let p = match current { Some(p) => p, None => 0 };
                if removed[p] {
                    is_root = false;
                    break;
                }
                let ghost rest = ancestors(*f, i as int).skip(walked);
                current = f.parent[p];
                proof {
                    assert(rest.drop_first() =~= ancestors(*f, p as int));
                    assert(ancestors(*f, i as int).skip(walked + 1) =~= rest.drop_first());
                    if f.parent@[p as int] is Some {
                        lemma_ancestors_step(*f, p as int);
                        assert(ancestors(*f, i as int).skip(walked + 1)[0] == ancestors(*f, i as int)[walked + 1]);
                    } else {
                        assert(ancestors(*f, p as int).len() == 0);
                    }
                    walked = walked + 1;
                }
            }
            proof {
                if !is_root {
                    assert(!removal_root(*f, removed@, i as int));
                }
            }
        }
        assert(is_root == removal_root(*f, removed@, i as int));
        roots.push(is_root);
        i = i + 1;
    }
    roots
}


proof fn lemma_ancestor_depth(f: Forest, i: int, k: int)
    requires
        f.wf(),
        0 <= i < f.parent@.len(),
        0 <= k < ancestors(f, i).len(),
    ensures
        ancestors(f, i)[k] < f.parent@.len(),
        f.depth@[ancestors(f, i)[k] as int] + k + 1 == f.depth@[i],
    decreases k,
{
    let p = f.parent@[i]->0;
    lemma_ancestors_step(f, i);
    if k > 0 {
        lemma_ancestor_depth(f, p as int, k - 1);
    }
}

/// The size that removal roots among the first `n` entries take from entry `a`: the sizes of
/// those that `a` is an ancestor of.
pub open spec fn lost_bytes(f: Forest, roots: Seq<bool>, sizes: Seq<u128>, a: usize, n: int) -> int
    decreases n,
{
    if n <= 0 {
        0
    } else {
        lost_bytes(f, roots, sizes, a, n - 1) + if roots[n - 1] && ancestors(f, n - 1).contains(a) { sizes[n - 1] as int } else { 0 }
    }
}

/// The number of entries that removal roots among the first `n` entries take from entry `a`:
/// each root counts its own entries, or one where it has no count.
pub open spec fn lost_entries(f: Forest, roots: Seq<bool>, counts: Seq<Option<u64>>, a: usize, n: int) -> int
    decreases n,
{
    if n <= 0 {
        0
    } else {
        lost_entries(f, roots, counts, a, n - 1) + if roots[n - 1] && ancestors(f, n - 1).contains(a) {
            match counts[n - 1] { Some(c) => c as int, None => 1 }
        } else { 0 }
    }
}

/// The size of the removal roots among the first `n` entries that have a parent.
pub open spec fn removed_bytes(f: Forest, roots: Seq<bool>, sizes: Seq<u128>, n: int) -> int
    decreases n,
{
    if n <= 0 {
        0
    } else {
        removed_bytes(f, roots, sizes, n - 1) + if roots[n - 1] && f.parent@[n - 1] is Some { sizes[n - 1] as int } else { 0 }
    }
}

proof fn lemma_losses_grow(f: Forest, roots: Seq<bool>, sizes: Seq<u128>, counts: Seq<Option<u64>>, a: usize, m: int, n: int)
    requires
        0 <= m <= n,
    ensures
        lost_bytes(f, roots, sizes, a, m) <= lost_bytes(f, roots, sizes, a, n),
        lost_entries(f, roots, counts, a, m) <= lost_entries(f, roots, counts, a, n),
        removed_bytes(f, roots, sizes, m) <= removed_bytes(f, roots, sizes, n),
    decreases n - m,
{
    if m < n {
        lemma_losses_grow(f, roots, sizes, counts, a, m, n - 1);
    }
}

/// What a batch of removals takes from the tree.
pub struct Losses {
    /// The size each entry loses.
    pub bytes: Vec<u128>,
    /// The number of entries each entry loses.
    pub entries: Vec<u64>,
    /// The size removed in all, counting roots that have a parent.
    pub bytes_removed: u128,
}

/// What removing the entries marked in `roots` takes from every entry: each ancestor of a root
/// loses the root's size and entry count.
pub fn ancestor_losses(f: &Forest, roots: &Vec<bool>, sizes: &Vec<u128>, counts: &Vec<Option<u64>>) -> (r: Losses)
    requires
        f.wf(),
        roots@.len() == f.parent@.len(),
        sizes@.len() == f.parent@.len(),
        counts@.len() == f.parent@.len(),
        forall|a: usize| a < f.parent@.len() ==> #[trigger] lost_bytes(*f, roots@, sizes@, a, f.parent@.len() as int) <= u128::MAX,
        forall|a: usize| a < f.parent@.len() ==> #[trigger] lost_entries(*f, roots@, counts@, a, f.parent@.len() as int) <= u64::MAX,
        removed_bytes(*f, roots@, sizes@, f.parent@.len() as int) <= u128::MAX,
    ensures
        r.bytes@.len() == f.parent@.len(),
        r.entries@.len() == f.parent@.len(),
        forall|a: int| 0 <= a < f.parent@.len() ==> #[trigger] r.bytes@[a] == lost_bytes(*f, roots@, sizes@, a as usize, f.parent@.len() as int),
        forall|a: int| 0 <= a < f.parent@.len() ==> #[trigger] r.entries@[a] == lost_entries(*f, roots@, counts@, a as usize, f.parent@.len() as int),
        r.bytes_removed == removed_bytes(*f, roots@, sizes@, f.parent@.len() as int),
{
    let n = f.parent.len();
    let mut bytes: Vec<u128> = Vec::new();
    let mut entries: Vec<u64> = Vec::new();
    let mut k: usize = 0;
    while k < n
        invariant
            k <= n,
            bytes@ == Seq::new(k as nat, |i: int| 0u128),
            entries@ == Seq::new(k as nat, |i: int| 0u64),
        decreases n - k,
    {
        bytes.push(0);
        entries.push(0);
        k = k + 1;
        assert(bytes@ =~= Seq::new(k as nat, |i: int| 0u128));
        assert(entries@ =~= Seq::new(k as nat, |i: int| 0u64));
    }
    let mut bytes_removed: u128 = 0;
    let mut r: usize = 0;
    while r < n
        invariant
            f.wf(),
            n == f.parent@.len() == roots@.len() == sizes@.len() == counts@.len(),
            r <= n,
            bytes@.len() == n,
            entries@.len() == n,
            forall|a: int| 0 <= a < n ==> #[trigger] bytes@[a] == lost_bytes(*f, roots@, sizes@, a as usize, r as int),
            forall|a: int| 0 <= a < n ==> #[trigger] entries@[a] == lost_entries(*f, roots@, counts@, a as usize, r as int),
            bytes_removed == removed_bytes(*f, roots@, sizes@, r as int),
            forall|a: usize| a < n ==> #[trigger] lost_bytes(*f, roots@, sizes@, a, n as int) <= u128::MAX,
            forall|a: usize| a < n ==> #[trigger] lost_entries(*f, roots@, counts@, a, n as int) <= u64::MAX,
            removed_bytes(*f, roots@, sizes@, n as int) <= u128::MAX,
        decreases n - r,
    {
        let ghost chain = ancestors(*f, r as int);
        let ghost before_bytes = bytes@;
        let ghost before_entries = entries@;
        if roots[r] {
            let size = sizes[r];
            let count: u64 = match counts[r] { Some(c) => c, None => 1 };
            if f.parent[r].is_some() {
                proof {
                    lemma_losses_grow(*f, roots@, sizes@, counts@, 0, r as int + 1, n as int);
                }
                bytes_removed = bytes_removed + size;
            }
            let mut current: Option<usize> = f.parent[r];
            let ghost mut walked: int = 0;
            proof {
                if f.parent@[r as int] is Some {
                    lemma_ancestors_step(*f, r as int);
                }
            }
            while current.is_some()
                invariant
                    f.wf(),
                    n == f.parent@.len() == roots@.len() == sizes@.len() == counts@.len(),
                    r < n,
                    roots@[r as int],
                    size == sizes@[r as int],
                    count == match counts@[r as int] { Some(c) => c, None => 1u64 },
                    chain == ancestors(*f, r as int),
                    0 <= walked <= chain.len(),
                    bytes@.len() == n,
                    entries@.len() == n,
                    forall|a: int| 0 <= a < n ==> #[trigger] bytes@[a] == before_bytes[a] + if chain.take(walked).contains(a as usize) { size as int } else { 0 },
                    forall|a: int| 0 <= a < n ==> #[trigger] entries@[a] == before_entries[a] + if chain.take(walked).contains(a as usize) { count as int } else { 0 },
                    forall|a: int| 0 <= a < n ==> #[trigger] before_bytes[a] == lost_bytes(*f, roots@, sizes@, a as usize, r as int),
                    forall|a: int| 0 <= a < n ==> #[trigger] before_entries[a] == lost_entries(*f, roots@, counts@, a as usize, r as int),
                    forall|a: usize| a < n ==> #[trigger] lost_bytes(*f, roots@, sizes@, a, n as int) <= u128::MAX,
                    forall|a: usize| a < n ==> #[trigger] lost_entries(*f, roots@, counts@, a, n as int) <= u64::MAX,
                    match current {
                        None => walked == chain.len(),
                        Some(p) => p < n && walked < chain.len() && chain[walked] == p
                            && chain.skip(walked) == seq![p] + ancestors(*f, p as int),
                    },
                decreases match current { Some(p) => f.depth@[p as int] + 1, None => 0 },
            {
                let p = match current { Some(p) => p, None => 0 };
                proof {
                    assert(!chain.take(walked).contains(p)) by {
                        if chain.take(walked).contains(p) {
                            let k = choose|k: int| 0 <= k < walked && chain.take(walked)[k] == p;
                            lemma_ancestor_depth(*f, r as int, k);
                            lemma_ancestor_depth(*f, r as int, walked);
                        }
                    }
                    assert(chain.take(walked + 1) =~= chain.take(walked).push(p));
                    assert(chain.take(walked + 1)[walked] == p);
                    assert(chain.take(walked + 1).contains(p));
                    assert(chain[walked] == p);
                    assert(ancestors(*f, r as int).contains(p));
                    lemma_losses_grow(*f, roots@, sizes@, counts@, p, r as int + 1, n as int);
                    assert(lost_bytes(*f, roots@, sizes@, p, r as int + 1) == lost_bytes(*f, roots@, sizes@, p, r as int) + size);
                }
                let b = bytes[p];
                bytes.set(p, b + size);
                let e = entries[p];
                entries.set(p, e + count);
                let ghost rest = chain.skip(walked);
                current = f.parent[p];
                proof {
                    assert(rest.drop_first() =~= ancestors(*f, p as int));
                    assert(chain.skip(walked + 1) =~= rest.drop_first());
                    if f.parent@[p as int] is Some {
                        lemma_ancestors_step(*f, p as int);
                        assert(chain.skip(walked + 1)[0] == chain[walked + 1]);
                    } else {
                        assert(ancestors(*f, p as int).len() == 0);
                    }
                    assert forall|a: int| 0 <= a < n implies #[trigger] bytes@[a] == before_bytes[a] + if chain.take(walked + 1).contains(a as usize) { size as int } else { 0 } by {
                        if a != p as int {
                            assert(chain.take(walked + 1).contains(a as usize) == chain.take(walked).contains(a as usize));
                        }
                    }
                    assert forall|a: int| 0 <= a < n implies #[trigger] entries@[a] == before_entries[a] + if chain.take(walked + 1).contains(a as usize) { count as int } else { 0 } by {
                        if a != p as int {
                            assert(chain.take(walked + 1).contains(a as usize) == chain.take(walked).contains(a as usize));
                        }
                    }
                    walked = walked + 1;
                }
            }
            proof {
                assert(chain.take(walked) =~= chain);
            }
        }
        r = r + 1;
        assert forall|a: int| 0 <= a < n implies #[trigger] bytes@[a] == lost_bytes(*f, roots@, sizes@, a as usize, r as int) by {}
        assert forall|a: int| 0 <= a < n implies #[trigger] entries@[a] == lost_entries(*f, roots@, counts@, a as usize, r as int) by {}
    }
    Losses { bytes, entries, bytes_removed }
}

/// Whether entry `i` is gone after the removals in `removed`: it or one of its ancestors is
/// removed. Indices of no entry are never gone.
pub open spec fn gone(f: Forest, removed: Seq<bool>, i: int) -> bool {
    0 <= i < removed.len() && (removed[i]
        || exists|k: int| 0 <= k < ancestors(f, i).len() && removed[#[trigger] ancestors(f, i)[k] as int])
}

fn is_gone(f: &Forest, removed: &Vec<bool>, i: usize) -> (r: bool)
    requires
        f.wf(),
        removed@.len() == f.parent@.len(),
    ensures
        r == gone(*f, removed@, i as int),
{
    if i >= removed.len() {
        return false;
    }
    if removed[i] {
        return true;
    }
    let n = removed.len();
    let mut current: Option<usize> = f.parent[i];
    let ghost mut walked: int = 0;
    proof {
        if f.parent@[i as int] is Some {
            lemma_ancestors_step(*f, i as int);
        }
    }
    while current.is_some()
        invariant
            f.wf(),
            n == removed@.len() == f.parent@.len(),
            i < n,
            0 <= walked <= ancestors(*f, i as int).len(),
            forall|k: int| 0 <= k < walked ==> !removed@[#[trigger] ancestors(*f, i as int)[k] as int],
            match current {
                None => walked == ancestors(*f, i as int).len(),
                Some(p) => p < n && walked < ancestors(*f, i as int).len() && ancestors(*f, i as int)[walked] == p
                    && ancestors(*f, i as int).skip(walked) == seq![p] + ancestors(*f, p as int),
            },
        decreases match current { Some(p) => f.depth@[p as int] + 1, None => 0 },
    {
        let p = match current { Some(p) => p, None => 0 };
        if removed[p] {
            return true;
        }
        let ghost rest = ancestors(*f, i as int).skip(walked);
        current = f.parent[p];
        proof {
            assert(rest.drop_first() =~= ancestors(*f, p as int));
            assert(ancestors(*f, i as int).skip(walked + 1) =~= rest.drop_first());
            if f.parent@[p as int] is Some {
                lemma_ancestors_step(*f, p as int);
                assert(ancestors(*f, i as int).skip(walked + 1)[0] == ancestors(*f, i as int)[walked + 1]);
            } else {
                assert(ancestors(*f, p as int).len() == 0);
            }
            walked = walked + 1;
        }
    }
    false
}

/// The directory viewed instead of `view` once removals took it: where a search result is
/// gone, the tree root; otherwise the nearest remaining ancestor, or the tree root.
pub open spec fn view_after_removal(f: Forest, removed: Seq<bool>, matches: Seq<usize>, tree_root: usize, view: int) -> usize
    decreases f.depth@[view],
{
    if !gone(f, removed, view) {
        view as usize
    } else if matches.contains(view as usize) {
        tree_root
    } else {
        match f.parent@[view] {
            Some(p) => if f.depth@[p as int] < f.depth@[view] {
                view_after_removal(f, removed, matches, tree_root, p as int)
            } else {
                tree_root
            },
            None => tree_root,
        }
    }
}

/// The bookmarks that survive removals: those whose directory and selection both remain.
pub open spec fn surviving_bookmarks(f: Forest, removed: Seq<bool>, bookmarks: Map<usize, usize>) -> Map<usize, usize> {
    Map::new(
        |k: usize| bookmarks.contains_key(k) && !gone(f, removed, k as int) && !gone(f, removed, bookmarks[k] as int),
        |k: usize| bookmarks[k],
    )
}

/// Repair navigation after the entries marked `removed`, with their descendants, left the tree:
/// the view moves to a directory that remains, a selection that is gone is dropped, and so are
/// bookmarks of or to entries that are gone, and search results that are gone.
pub fn repair_removed_navigation(navigation: &mut Navigation, matches: &mut Vec<usize>, f: &Forest, removed: &Vec<bool>)
    requires
        f.wf(),
        removed@.len() == f.parent@.len(),
        !gone(*f, removed@, old(navigation).tree_root as int),
    ensures
        final(navigation).view_root == view_after_removal(*f, removed@, old(matches)@, old(navigation).tree_root, old(navigation).view_root as int),
        final(navigation).selected == match old(navigation).selected {
            Some(s) => if gone(*f, removed@, s as int) { None } else { Some(s) },
            None => None,
        },
        final(navigation).bookmarks@ == surviving_bookmarks(*f, removed@, old(navigation).bookmarks@),
        final(navigation).tree_root == old(navigation).tree_root,
        final(matches)@ == old(matches)@.filter(|m: usize| !gone(*f, removed@, m as int)),
{
    let ghost original = old(matches)@;
    let tree_root = navigation.tree_root;
    let mut view = navigation.view_root;
    loop
        invariant
            f.wf(),
            removed@.len() == f.parent@.len(),
            !gone(*f, removed@, tree_root as int),
            matches@ == original,
            view_after_removal(*f, removed@, original, tree_root, view as int)
                == view_after_removal(*f, removed@, original, tree_root, old(navigation).view_root as int),
        ensures
            view == view_after_removal(*f, removed@, original, tree_root, old(navigation).view_root as int),
        decreases if (view as int) < f.depth@.len() { f.depth@[view as int] + 1 } else { 0 },
    {
        if !is_gone(f, removed, view) {
            break;
        }
        let mut in_matches = false;
        let mut k: usize = 0;
        while k < matches.len()
            invariant
                k <= matches@.len(),
                in_matches == exists|j: int| 0 <= j < k && matches@[j] == view,
            decreases matches@.len() - k,
        {
            if matches[k] == view {
                in_matches = true;
            }
            k = k + 1;
        }
        if in_matches {
            view = tree_root;
            break;
        }
        match f.parent[view] {
            Some(p) => {
                view = p;
            },
            None => {
                view = tree_root;
                break;
            },
        }
    }
    navigation.view_root = view;
    navigation.selected = match navigation.selected {
        Some(s) => if is_gone(f, removed, s) { None } else { Some(s) },
        None => None,
    };

    let ghost bookmarks = navigation.bookmarks@;
    let ghost selected = navigation.selected;
    let mut keys: Vec<usize> = Vec::new();
    let ghost listed = vstd::std_specs::btree::spec_keys_iter(&navigation.bookmarks).remaining().unref();
    for key in it: navigation.bookmarks.keys()
        invariant
            it.seq().unref() == listed,
            listed.to_set() == bookmarks.dom(),
            keys@ == listed.take(it.index() as int),
    {
        keys.push(*key);
        proof {
            assert(keys@ =~= listed.take(it.index() + 1));
        }
    }
    proof {
        assert(keys@.len() == listed.len());
        assert(keys@ =~= listed);
    }
    let mut j: usize = 0;
    while j < keys.len()
        invariant
            f.wf(),
            removed@.len() == f.parent@.len(),
            j <= keys@.len(),
            keys@.to_set() == bookmarks.dom(),
            forall|k: usize| #[trigger] navigation.bookmarks@.contains_key(k) <==> bookmarks.contains_key(k)
                && (keys@.take(j as int).contains(k) ==> !gone(*f, removed@, k as int) && !gone(*f, removed@, bookmarks[k] as int)),
            forall|k: usize| #[trigger] navigation.bookmarks@.contains_key(k) ==> navigation.bookmarks@[k] == bookmarks[k],
            navigation.tree_root == tree_root,
            navigation.view_root == view,
            navigation.selected == selected,
        decreases keys@.len() - j,
    {
        let key = keys[j];
        proof {
            assert(keys@.to_set().contains(key));
        }
        let drop = match navigation.bookmarks.get(&key) {
            Some(selected) => is_gone(f, removed, key) || is_gone(f, removed, *selected),
            None => false,
        };
        if drop {
            navigation.bookmarks.remove(&key);
        }
        proof {
            assert forall|k: usize| keys@.take(j + 1).contains(k) <==> keys@.take(j as int).contains(k) || k == key by {
                if keys@.take(j + 1).contains(k) {
                    let m = choose|m: int| 0 <= m < j + 1 && #[trigger] keys@.take(j + 1)[m] == k;
                    if m < j {
                        assert(keys@.take(j as int)[m] == k);
                    }
                }
                if k == key {
                    assert(keys@.take(j + 1)[j as int] == k);
                }
                if keys@.take(j as int).contains(k) {
                    let m = choose|m: int| 0 <= m < j && #[trigger] keys@.take(j as int)[m] == k;
                    assert(keys@.take(j + 1)[m] == k);
                }
            }
        }
        j = j + 1;
    }
    proof {
        assert(keys@.take(keys@.len() as int) =~= keys@);
        assert forall|k: usize| bookmarks.contains_key(k) implies keys@.contains(k) by {
            assert(keys@.to_set().contains(k));
        }
        assert(navigation.bookmarks@ =~= surviving_bookmarks(*f, removed@, bookmarks));
    }

    let mut kept: Vec<usize> = Vec::new();
    let mut m: usize = 0;
    while m < matches.len()
        invariant
            f.wf(),
            removed@.len() == f.parent@.len(),
            m <= matches@.len(),
            matches@ == original,
            kept@ == original.take(m as int).filter(|x: usize| !gone(*f, removed@, x as int)),
        decreases matches@.len() - m,
    {
        let x = matches[m];
        proof {
            reveal_with_fuel(Seq::filter, 1);
            assert(original.take(m + 1).drop_last() =~= original.take(m as int));
        }
        if !is_gone(f, removed, x) {
            kept.push(x);
        }
        m = m + 1;
    }
    proof {
        assert(original.take(original.len() as int) =~= original);
    }
    *matches = kept;
}

/// After repair the view is a directory that remains, and every bookmark joins two entries that
/// remain.
pub proof fn law_repaired_navigation_refers_to_remaining_entries(
    f: Forest,
    removed: Seq<bool>,
    matches: Seq<usize>,
    tree_root: usize,
    view: usize,
    bookmarks: Map<usize, usize>,
)
    requires
        !gone(f, removed, tree_root as int),
    ensures
        !gone(f, removed, view_after_removal(f, removed, matches, tree_root, view as int) as int),
        forall|k: usize| #[trigger] surviving_bookmarks(f, removed, bookmarks).contains_key(k)
            ==> !gone(f, removed, k as int) && !gone(f, removed, surviving_bookmarks(f, removed, bookmarks)[k] as int),
    decreases f.depth@[view as int],
{
    if gone(f, removed, view as int) && !matches.contains(view) {
        if let Some(p) = f.parent@[view as int] {
            if f.depth@[p as int] < f.depth@[view as int] {
                law_repaired_navigation_refers_to_remaining_entries(f, removed, matches, tree_root, p, bookmarks);
            }
        }
    }
}

} // verus!
