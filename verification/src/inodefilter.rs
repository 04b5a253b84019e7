//! Tracking of seen `(device, inode)` pairs, so that hard-linked files are counted once.
use vstd::prelude::*;
use std::collections::HashMap;

verus! {

broadcast use vstd::std_specs::hash::group_hash_axioms;

/// Marks a directory whose bulk-enumerated link count excludes the links `stat` reports; its
/// actual count is resolved only if an overlapping root revisits it. Darwin's link counts are
/// 16 bits wide, so the marker cannot collide with an actual count.
pub const UNRESOLVED_DIRECTORY_LINKS: u64 = u64::MAX;

/// The key under which a `(device, inode)` pair is remembered.
pub open spec fn pair_key(pair: (u64, u64)) -> u128 {
    (pair.0 as int * 0x1_0000_0000_0000_0000 + pair.1 as int) as u128
}

fn make_key(pair: (u64, u64)) -> (k: u128)
    ensures
        k == pair_key(pair),
{
    pair.0 as u128 * 0x1_0000_0000_0000_0000 + pair.1 as u128
}

/// Distinct pairs have distinct keys.
pub proof fn lemma_pair_key_injective(a: (u64, u64), b: (u64, u64))
    ensures
        pair_key(a) == pair_key(b) <==> a == b,
{
    if pair_key(a) == pair_key(b) {
        assert(a.0 as int * 0x1_0000_0000_0000_0000 + a.1 as int == b.0 as int * 0x1_0000_0000_0000_0000 + b.1 as int);
        if a.0 < b.0 {
            assert(a.0 as int * 0x1_0000_0000_0000_0000 + 0x1_0000_0000_0000_0000 <= b.0 as int * 0x1_0000_0000_0000_0000) by (nonlinear_arith)
                requires a.0 < b.0;
        } else if a.0 > b.0 {
            assert(b.0 as int * 0x1_0000_0000_0000_0000 + 0x1_0000_0000_0000_0000 <= a.0 as int * 0x1_0000_0000_0000_0000) by (nonlinear_arith)
                requires a.0 > b.0;
        }
    }
}

/// The effect of registering one link of a pair with `nlinks` links on the remembered counts:
/// the new counts, and whether this link is the one to count.
pub open spec fn add_link(m: Map<u128, u64>, k: u128, nlinks: u64) -> (Map<u128, u64>, bool) {
    if nlinks <= 1 {
        (m, true)
    } else if !m.contains_key(k) {
        (m.insert(k, (nlinks - 1) as u64), true)
    } else if m[k] == 1 {
        (m.remove(k), false)
    } else {
        (m.insert(k, (m[k] - 1) as u64), false)
    }
}

/// The effect of registering a Windows file with hard-link identifier `id`, if it has one: the
/// identifier is remembered, and the file counts unless it was remembered already.
pub open spec fn add_link_id(m: Map<u128, u64>, id: Option<(u64, u64)>) -> (Map<u128, u64>, bool) {
    match id {
        None => (m, true),
        Some(pair) => (m.insert(pair_key(pair), 1), !m.contains_key(pair_key(pair))),
    }
}

/// The effect of registering one visit of a directory with the link count bulk enumeration
/// reported, `actual_links` being the count `stat` reports if it was looked up.
pub open spec fn add_directory_link(m: Map<u128, u64>, k: u128, link_count: u64, actual_links: Option<u64>) -> (Map<u128, u64>, bool) {
    if !m.contains_key(k) {
        if link_count <= 1 {
            (m.insert(k, UNRESOLVED_DIRECTORY_LINKS), true)
        } else {
            add_link(m, k, link_count)
        }
    } else if m[k] == UNRESOLVED_DIRECTORY_LINKS {
        let nlinks = if link_count > 1 {
            link_count
        } else {
            match actual_links {
                Some(n) => n,
                None => link_count,
            }
        };
        if nlinks <= 1 {
            (m.remove(k), true)
        } else {
            add_link(m.insert(k, (nlinks - 1) as u64), k, nlinks)
        }
    } else {
        add_link(m, k, (m[k] + 1) as u64)
    }
}

/// Tracks seen `(device, inode)` pairs to avoid double-counting hard-linked files.
#[derive(Debug)]
pub struct InodeFilter {
    inner: HashMap<u128, u64>,
}

impl InodeFilter {
    /// The number of links still expected for each remembered pair, by key.
    pub closed spec fn view(&self) -> Map<u128, u64> {
        self.inner@
    }

    /// Every remembered count is positive.
    pub open spec fn wf(&self) -> bool {
        forall|k: u128| #[trigger] self@.contains_key(k) ==> self@[k] >= 1
    }

    /// A filter that remembers nothing.
    pub fn new() -> (f: InodeFilter)
        ensures
            f@ == Map::<u128, u64>::empty(),
            f.wf(),
    {
        InodeFilter { inner: HashMap::new() }
    }

    /// Whether a file identified by `id` on Windows, if it has one, is seen for the first time.
    /// Files without an identifier are always counted. An identifier, once seen, stays
    /// remembered; only its presence matters, so it is kept with a count of one.
    pub fn add_hard_link_id(&mut self, id: Option<(u64, u64)>) -> (counted: bool)
        requires
            old(self).wf(),
        ensures
            final(self).wf(),
            (final(self)@, counted) == add_link_id(old(self)@, id),
    {
        match id {
            None => true,
            Some(pair) => {
                let key = make_key(pair);
                let previous = self.inner.insert(key, 1);
                assert forall|k: u128| #[trigger] self@.contains_key(k) implies self@[k] >= 1 by {
                    if k != key {
                        assert(old(self)@.contains_key(k));
                    }
                }
                previous.is_none()
            },
        }
    }

    /// Register a `(device, inode)` with its hard-link count.
    ///
    /// Returns `true` for the first observation that should contribute to size/count,
    /// and `false` for subsequent links.
    pub fn add_dev_inode(&mut self, dev_inode: (u64, u64), nlinks: u64) -> (counted: bool)
        requires
            old(self).wf(),
        ensures
            final(self).wf(),
            (final(self)@, counted) == add_link(old(self)@, pair_key(dev_inode), nlinks),
    {
        if nlinks <= 1 {
            return true;
        }
        let key = make_key(dev_inode);
        let counted = match self.inner.get(&key) {
            Some(count) => {
                let count = *count;
                assert(old(self)@.contains_key(key));
                if count == 1 {
                    self.inner.remove(&key);
                } else {
                    self.inner.insert(key, count - 1);
                }
                false
            },
            None => {
                self.inner.insert(key, nlinks - 1);
                true
            },
        };
        assert forall|k: u128| #[trigger] self@.contains_key(k) implies self@[k] >= 1 by {
            if k != key {
                assert(old(self)@.contains_key(k));
            }
        }
        counted
    }

    /// Register a visit of a directory whose bulk-enumerated link count is `link_count`.
    ///
    /// A directory seen once with a single reported link is remembered as unresolved; revisiting
    /// it resolves its actual link count, `actual_links` (see [`Self::needs_link_resolution`]).
    pub fn add_directory(&mut self, dev_inode: (u64, u64), link_count: u64, actual_links: Option<u64>) -> (counted: bool)
        requires
            old(self).wf(),
        ensures
            final(self).wf(),
            (final(self)@, counted) == add_directory_link(old(self)@, pair_key(dev_inode), link_count, actual_links),
    {
        let key = make_key(dev_inode);
        let current = match self.inner.get(&key) {
            Some(value) => Some(*value),
            None => None,
        };
        match current {
            None => {
                if link_count <= 1 {
                    self.inner.insert(key, UNRESOLVED_DIRECTORY_LINKS);
                    assert forall|k: u128| #[trigger] self@.contains_key(k) implies self@[k] >= 1 by {
                        if k != key {
                            assert(old(self)@.contains_key(k));
                        }
                    }
                    true
                } else {
                    self.add_dev_inode(dev_inode, link_count)
                }
            },
            Some(remaining) => {
                assert(old(self)@.contains_key(key));
                if remaining == UNRESOLVED_DIRECTORY_LINKS {
                    let nlinks = if link_count > 1 {
                        link_count
                    } else {
                        match actual_links {
                            Some(n) => n,
                            None => link_count,
                        }
                    };
                    self.inner.remove(&key);
                    assert forall|k: u128| #[trigger] self@.contains_key(k) implies self@[k] >= 1 by {
                        assert(old(self)@.contains_key(k));
                    }
                    if nlinks <= 1 {
                        return true;
                    }
                    self.inner.insert(key, nlinks - 1);
                    assert forall|k: u128| #[trigger] self@.contains_key(k) implies self@[k] >= 1 by {
                        if k != key {
                            assert(old(self)@.remove(key).contains_key(k));
                        }
                    }
                    self.add_dev_inode(dev_inode, nlinks)
                } else {
                    self.add_dev_inode(dev_inode, remaining + 1)
                }
            },
        }
    }

    /// Whether registering a directory visit with `link_count` needs its actual link count.
    pub fn needs_link_resolution(&self, dev_inode: (u64, u64), link_count: u64) -> (r: bool)
        ensures
            r == (link_count <= 1 && self@.contains_key(pair_key(dev_inode))
                && self@[pair_key(dev_inode)] == UNRESOLVED_DIRECTORY_LINKS),
    {
        let key = make_key(dev_inode);
        link_count <= 1 && match self.inner.get(&key) {
            Some(value) => *value == UNRESOLVED_DIRECTORY_LINKS,
            None => false,
        }
    }
}

/// The counted flags of registering the same link count `n` times in a row, and the counts
/// that remain.
pub open spec fn add_repeatedly(m: Map<u128, u64>, k: u128, nlinks: u64, times: nat) -> (Map<u128, u64>, Seq<bool>)
    decreases times,
{
    if times == 0 {
        (m, Seq::empty())
    } else {
        let (m1, counted) = add_link(m, k, nlinks);
        let (m2, rest) = add_repeatedly(m1, k, nlinks, (times - 1) as nat);
        (m2, seq![counted] + rest)
    }
}

proof fn lemma_countdown(m: Map<u128, u64>, k: u128, nlinks: u64, remaining: nat)
    requires
        nlinks > 1,
        1 <= remaining < nlinks,
        m.contains_key(k),
        m[k] == remaining,
    ensures
        add_repeatedly(m, k, nlinks, remaining).0 == m.remove(k),
        add_repeatedly(m, k, nlinks, remaining).1 == Seq::new(remaining, |i: int| false),
    decreases remaining,
{
    let (m1, counted) = add_link(m, k, nlinks);
    if remaining == 1 {
        assert(m1 == m.remove(k));
        assert(add_repeatedly(m1, k, nlinks, 0).1 =~= Seq::<bool>::empty());
        assert(add_repeatedly(m, k, nlinks, 1).1 =~= Seq::new(1, |i: int| false));
    } else {
        assert(m1 == m.insert(k, (remaining - 1) as u64));
        lemma_countdown(m1, k, nlinks, (remaining - 1) as nat);
        assert(m1.remove(k) =~= m.remove(k));
        assert(add_repeatedly(m, k, nlinks, remaining).1 =~= Seq::new(remaining, |i: int| false));
    }
}

/// A file with `nlinks` hard links, all of which are visited, is counted exactly once: of
/// `nlinks` calls of [`InodeFilter::add_dev_inode`] on a filter that holds no count for it (whose
/// effect is [`add_link`]), the first returns `true` and the others `false`. Afterwards the filter
/// holds what it held before, counts of other files included, and so no count for this file:
/// the next visit counts again.
pub proof fn law_hard_links_counted_once(m: Map<u128, u64>, dev_inode: (u64, u64), nlinks: u64)
    requires
        nlinks > 1,
        !m.contains_key(pair_key(dev_inode)),
    ensures
        add_repeatedly(m, pair_key(dev_inode), nlinks, nlinks as nat).1 == seq![true] + Seq::new((nlinks - 1) as nat, |i: int| false),
        add_repeatedly(m, pair_key(dev_inode), nlinks, nlinks as nat).0 == m,
        add_link(add_repeatedly(m, pair_key(dev_inode), nlinks, nlinks as nat).0, pair_key(dev_inode), nlinks).1,
{
    let k = pair_key(dev_inode);
    let m1 = m.insert(k, (nlinks - 1) as u64);
    lemma_countdown(m1, k, nlinks, (nlinks - 1) as nat);
    assert(m1.remove(k) =~= m);
}

/// A file with a single link is counted at every visit and never remembered.
pub proof fn law_single_links_always_counted(m: Map<u128, u64>, k: u128, nlinks: u64)
    requires
        nlinks <= 1,
    ensures
        add_link(m, k, nlinks) == (m, true),
{
}

} // verus!
