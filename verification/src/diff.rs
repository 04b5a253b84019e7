//! Comparison of two traversal snapshots: the order of their entries, what changed between them,
//! how changes are laid out as a tree, and the summary of the largest changes.
use vstd::prelude::*;
use vstd::string::StringExecFns;
use crate::format::{ByteFormat, byte_display};
use crate::text::{directory_suffix, path_for_output, printable_path};
use crate::numfmt::{decimal, decimal_string};

verus! {

/// One level of an entry's position in a snapshot: its native name and its place among siblings
/// of the same name.
#[derive(Clone, Debug)]
pub struct KeyPart {
    /// The entry's name as the filesystem stores it.
    pub name: Vec<u8>,
    /// The position among siblings that share the name.
    pub sibling_ordinal: u64,
}

impl View for KeyPart {
    type V = (Seq<u8>, u64);

    open spec fn view(&self) -> (Seq<u8>, u64) {
        (self.name@, self.sibling_ordinal)
    }
}

/// The order of two values: less, equal or greater.
#[derive(Clone, Copy, Debug, PartialEq, Eq, Structural)]
pub enum KeyOrder {
    /// The first comes before the second.
    Less,
    /// Both are at the same place.
    Equal,
    /// The first comes after the second.
    Greater,
}

/// The lexicographic order of two byte strings.
pub open spec fn bytes_order(a: Seq<u8>, b: Seq<u8>) -> KeyOrder
    decreases a.len(),
{
    if a.len() == 0 {
        if b.len() == 0 { KeyOrder::Equal } else { KeyOrder::Less }
    } else if b.len() == 0 {
        KeyOrder::Greater
    } else if a[0] < b[0] {
        KeyOrder::Less
    } else if a[0] > b[0] {
        KeyOrder::Greater
    } else {
        bytes_order(a.drop_first(), b.drop_first())
    }
}

/// The order of two key parts: by name, then by sibling ordinal.
pub open spec fn part_order(a: (Seq<u8>, u64), b: (Seq<u8>, u64)) -> KeyOrder {
    match bytes_order(a.0, b.0) {
        KeyOrder::Equal => if a.1 < b.1 { KeyOrder::Less } else if a.1 > b.1 { KeyOrder::Greater } else { KeyOrder::Equal },
        other => other,
    }
}

/// The lexicographic order of two keys.
pub open spec fn key_order(a: Seq<(Seq<u8>, u64)>, b: Seq<(Seq<u8>, u64)>) -> KeyOrder
    decreases a.len(),
{
    if a.len() == 0 {
        if b.len() == 0 { KeyOrder::Equal } else { KeyOrder::Less }
    } else if b.len() == 0 {
        KeyOrder::Greater
    } else {
        match part_order(a[0], b[0]) {
            KeyOrder::Equal => key_order(a.drop_first(), b.drop_first()),
            other => other,
        }
    }
}

/// The order of two snapshot positions: by root, then by key.
pub open spec fn position_order(root_a: usize, key_a: Seq<(Seq<u8>, u64)>, root_b: usize, key_b: Seq<(Seq<u8>, u64)>) -> KeyOrder {
    if root_a < root_b {
        KeyOrder::Less
    } else if root_a > root_b {
        KeyOrder::Greater
    } else {
        key_order(key_a, key_b)
    }
}

fn compare_bytes(a: &Vec<u8>, b: &Vec<u8>) -> (r: KeyOrder)
    ensures
        r == bytes_order(a@, b@),
{
    let mut i: usize = 0;
    assert(a@.skip(0) =~= a@);
    assert(b@.skip(0) =~= b@);
    while i < a.len() && i < b.len() && a[i] == b[i]
        invariant
            i <= a@.len(),
            i <= b@.len(),
            bytes_order(a@, b@) == bytes_order(a@.skip(i as int), b@.skip(i as int)),
        decreases a@.len() - i,
    {
        assert(a@.skip(i as int).drop_first() =~= a@.skip(i + 1));
        assert(b@.skip(i as int).drop_first() =~= b@.skip(i + 1));
        i = i + 1;
    }
    if i == a.len() {
        if i == b.len() { KeyOrder::Equal } else { KeyOrder::Less }
    } else if i == b.len() {
        KeyOrder::Greater
    } else if a[i] < b[i] {
        KeyOrder::Less
    } else {
        KeyOrder::Greater
    }
}

fn compare_parts(a: &KeyPart, b: &KeyPart) -> (r: KeyOrder)
    ensures
        r == part_order(a@, b@),
{
    match compare_bytes(&a.name, &b.name) {
        KeyOrder::Equal => if a.sibling_ordinal < b.sibling_ordinal {
            KeyOrder::Less
        } else if a.sibling_ordinal > b.sibling_ordinal {
            KeyOrder::Greater
        } else {
            KeyOrder::Equal
        },
        other => other,
    }
}

/// The views of a key.
pub open spec fn key_view(key: Seq<KeyPart>) -> Seq<(Seq<u8>, u64)> {
    key.map_values(|p: KeyPart| p@)
}

fn compare_keys(a: &Vec<KeyPart>, b: &Vec<KeyPart>) -> (r: KeyOrder)
    ensures
        r == key_order(key_view(a@), key_view(b@)),
{
    let ghost ka = key_view(a@);
    let ghost kb = key_view(b@);
    let mut i: usize = 0;
    assert(ka.skip(0) =~= ka);
    assert(kb.skip(0) =~= kb);
    while i < a.len() && i < b.len()
        invariant
            i <= a@.len(),
            i <= b@.len(),
            ka == key_view(a@),
            kb == key_view(b@),
            key_order(ka, kb) == key_order(ka.skip(i as int), kb.skip(i as int)),
        decreases a@.len() - i,
    {
        assert(ka[i as int] == a@[i as int]@);
        assert(kb[i as int] == b@[i as int]@);
        assert(ka.skip(i as int)[0] == ka[i as int]);
        assert(kb.skip(i as int)[0] == kb[i as int]);
        match compare_parts(&a[i], &b[i]) {
            KeyOrder::Equal => {},
            other => return other,
        }
        assert(ka.skip(i as int).drop_first() =~= ka.skip(i + 1));
        assert(kb.skip(i as int).drop_first() =~= kb.skip(i + 1));
        i = i + 1;
    }
    if i == a.len() {
        if i == b.len() { KeyOrder::Equal } else { KeyOrder::Less }
    } else {
        KeyOrder::Greater
    }
}

/// The entry a snapshot cursor is at.
#[derive(Clone, Copy, Debug, PartialEq, Eq, Structural)]
pub struct Current {
    /// The depth below its root.
    pub depth: usize,
    /// Its size in bytes; a directory's includes its descendants.
    pub size: u128,
    /// Whether it is a directory.
    pub is_dir: bool,
}

/// An entry as a snapshot stores it.
#[derive(Clone, Debug)]
pub struct DecodedEntry {
    /// The depth below its root.
    pub depth: usize,
    /// Its name: the root's full path, or a child's file name.
    pub name: String,
    /// Its name as the filesystem stores it.
    pub native_name: Vec<u8>,
    /// The position among siblings that share the name.
    pub sibling_ordinal: u64,
    /// Its size in bytes.
    pub size: u128,
    /// Whether it is a directory.
    pub is_dir: bool,
}

/// A position in a snapshot read in order.
pub struct SnapshotCursor {
    /// The entry the cursor is at, if any is left.
    pub current: Option<Current>,
    /// The ordinal of the root the entry belongs to.
    pub root_ordinal: usize,
    /// How many roots have been seen.
    pub roots_seen: usize,
    /// The key of the entry: one part for each level from its root.
    pub key: Vec<KeyPart>,
    /// The path of the entry: the root's path, then one name per level.
    pub path: Vec<String>,
}

/// Where an entry is.
pub open spec fn cursor_position_valid(c: &SnapshotCursor) -> bool {
    match c.current {
        Some(e) => c.key@.len() == e.depth + 1 && c.path@.len() == e.depth + 1,
        None => true,
    }
}

impl SnapshotCursor {
    /// A cursor before the first entry.
    pub fn new() -> (r: SnapshotCursor)
        ensures
            r.current is None,
            r.root_ordinal == 0,
            r.roots_seen == 0,
            r.key@.len() == 0,
            r.path@.len() == 0,
    {
        SnapshotCursor { current: None, root_ordinal: 0, roots_seen: 0, key: Vec::new(), path: Vec::new() }
    }

    /// Move to `entry`, the next entry read, or past the end where there is none. A root starts a
    /// new key and path; any other entry replaces the levels at and below its depth. Counting more
    /// roots than a `usize` holds is an error.
    pub fn advance_to(&mut self, entry: Option<DecodedEntry>) -> (r: Result<(), String>)
        requires
            match entry {
                Some(e) => e.depth == 0 || e.depth <= old(self).key@.len() && e.depth <= old(self).path@.len(),
                None => true,
            },
        ensures
            match entry {
                None => r is Ok && final(self).current is None
                    && final(self).key@ == old(self).key@ && final(self).path@ == old(self).path@
                    && final(self).root_ordinal == old(self).root_ordinal && final(self).roots_seen == old(self).roots_seen,
                Some(e) => {
                    &&& (r is Err <==> (e.depth == 0 && old(self).roots_seen == usize::MAX))
                    &&& r is Ok ==> {
                        &&& final(self).current == Some(Current { depth: e.depth, size: e.size, is_dir: e.is_dir })
                        &&& key_view(final(self).key@) == (if e.depth == 0 { Seq::empty() } else { key_view(old(self).key@).take(e.depth as int) }).push((e.native_name@, e.sibling_ordinal))
                        &&& final(self).path@.map_values(|s: String| s@) == (if e.depth == 0 { Seq::empty() } else { old(self).path@.map_values(|s: String| s@).take(e.depth as int) }).push(e.name@)
                        &&& final(self).root_ordinal == if e.depth == 0 { old(self).roots_seen } else { old(self).root_ordinal }
                        &&& final(self).roots_seen == if e.depth == 0 { (old(self).roots_seen + 1) as usize } else { old(self).roots_seen }
                        &&& cursor_position_valid(final(self))
                    }
                },
            },
    {
        match entry {
            None => {
                self.current = None;
                Ok(())
            },
            Some(e) => {
                let ghost old_key = key_view(self.key@);
                let ghost old_path = self.path@.map_values(|s: String| s@);
                if e.depth == 0 {
                    if self.roots_seen == usize::MAX {
                        return Err(String::from_str("snapshot contains too many roots"));
                    }
                    self.root_ordinal = self.roots_seen;
                    self.roots_seen = self.roots_seen + 1;
                    self.key.clear();
                    self.path.clear();
                } else {
                    self.key.truncate(e.depth);
                    self.path.truncate(e.depth);
                }
                assert(key_view(self.key@) =~= if e.depth == 0 { Seq::empty() } else { old_key.take(e.depth as int) });
                assert(self.path@.map_values(|s: String| s@) =~= if e.depth == 0 { Seq::empty() } else { old_path.take(e.depth as int) });
                let ghost before_key = key_view(self.key@);
                let ghost before_path = self.path@.map_values(|s: String| s@);
                self.key.push(KeyPart { name: e.native_name, sibling_ordinal: e.sibling_ordinal });
                self.path.push(e.name);
                assert(key_view(self.key@) =~= before_key.push((e.native_name@, e.sibling_ordinal)));
                assert(self.path@.map_values(|s: String| s@) =~= before_path.push(e.name@));
                self.current = Some(Current { depth: e.depth, size: e.size, is_dir: e.is_dir });
                Ok(())
            },
        }
    }

    /// The order of this cursor's position and `other`'s: by root, then by key.
    pub fn cmp_key(&self, other: &SnapshotCursor) -> (r: KeyOrder)
        ensures
            r == position_order(self.root_ordinal, key_view(self.key@), other.root_ordinal, key_view(other.key@)),
    {
        if self.root_ordinal < other.root_ordinal {
            KeyOrder::Less
        } else if self.root_ordinal > other.root_ordinal {
            KeyOrder::Greater
        } else {
            compare_keys(&self.key, &other.key)
        }
    }
}

/// A difference between two snapshots.
#[derive(Clone, Copy, Debug, PartialEq, Eq, Structural)]
pub enum Change {
    /// An entry of this size exists only in the new snapshot.
    Added(u128),
    /// An entry of this size exists only in the old snapshot.
    Removed(u128),
    /// An entry grew (`grew`) or shrank by `magnitude` bytes.
    Modified { grew: bool, magnitude: u128 },
}

/// Which snapshot an entry is reported from.
#[derive(Clone, Copy, Debug, PartialEq, Eq, Structural)]
pub enum Side {
    /// The old snapshot.
    Old,
    /// The new snapshot.
    New,
}

/// How a cursor moves after a comparison.
#[derive(Clone, Copy, Debug, PartialEq, Eq, Structural)]
pub enum Advance {
    /// It stays where it is.
    Stay,
    /// It moves to the next entry.
    Next,
    /// It moves past the entry and, for a directory, all of its descendants.
    PastCurrent,
}

/// What one comparison of the two cursors decides.
#[derive(Clone, Debug)]
pub struct Step {
    /// The changes to report, in this order, with the cursor whose position they are reported at.
    pub changes: Vec<(Change, Side)>,
    /// How the old cursor moves.
    pub old_advance: Advance,
    /// How the new cursor moves.
    pub new_advance: Advance,
    /// Whether both snapshots are exhausted.
    pub done: bool,
}

/// Whether an entry is reported: all entries, or only directories.
pub open spec fn reported(directories_only: bool, e: Current) -> bool {
    !directories_only || e.is_dir
}

/// The changes reported for an entry present on one side only.
pub open spec fn one_sided(directories_only: bool, e: Current, change: Change, side: Side) -> Seq<(Change, Side)> {
    if reported(directories_only, e) { seq![(change, side)] } else { Seq::empty() }
}

/// What one comparison of the cursors decides, where `order` is the order of their positions
/// when both have an entry. Entries only in the old snapshot are removed, entries only in the
/// new one added, both with all their descendants; entries in both are compared by size, if
/// they are of the kind being reported; an entry that changed between file and directory is
/// removed and added.
pub open spec fn step_spec(old: Option<Current>, new: Option<Current>, order: KeyOrder, directories_only: bool) -> (Seq<(Change, Side)>, Advance, Advance, bool) {
    match (old, new) {
        (None, None) => (Seq::empty(), Advance::Stay, Advance::Stay, true),
        (Some(o), None) => (one_sided(directories_only, o, Change::Removed(o.size), Side::Old), Advance::PastCurrent, Advance::Stay, false),
        (None, Some(n)) => (one_sided(directories_only, n, Change::Added(n.size), Side::New), Advance::Stay, Advance::PastCurrent, false),
        (Some(o), Some(n)) => match order {
            KeyOrder::Less => (one_sided(directories_only, o, Change::Removed(o.size), Side::Old), Advance::PastCurrent, Advance::Stay, false),
            KeyOrder::Greater => (one_sided(directories_only, n, Change::Added(n.size), Side::New), Advance::Stay, Advance::PastCurrent, false),
            KeyOrder::Equal => if o.is_dir == n.is_dir {
                let changes = if o.is_dir == directories_only && o.size != n.size {
                    seq![(if n.size > o.size {
                        Change::Modified { grew: true, magnitude: (n.size - o.size) as u128 }
                    } else {
                        Change::Modified { grew: false, magnitude: (o.size - n.size) as u128 }
                    }, Side::New)]
                } else {
                    Seq::empty()
                };
                (changes, Advance::Next, Advance::Next, false)
            } else {
                (one_sided(directories_only, o, Change::Removed(o.size), Side::Old)
                    + one_sided(directories_only, n, Change::Added(n.size), Side::New), Advance::PastCurrent, Advance::PastCurrent, false)
            },
        },
    }
}

/// Compare the entries the two cursors are at; see [`step_spec`].
pub fn diff_step(old: &SnapshotCursor, new: &SnapshotCursor, directories_only: bool) -> (r: Step)
    ensures
        (r.changes@, r.old_advance, r.new_advance, r.done) == step_spec(old.current, new.current,
            position_order(old.root_ordinal, key_view(old.key@), new.root_ordinal, key_view(new.key@)), directories_only),
{
    let order = old.cmp_key(new);
    let mut changes: Vec<(Change, Side)> = Vec::new();
    match (old.current, new.current) {
        (None, None) => Step { changes, old_advance: Advance::Stay, new_advance: Advance::Stay, done: true },
        (Some(o), None) => {
            if !directories_only || o.is_dir {
                changes.push((Change::Removed(o.size), Side::Old));
            }
            assert(changes@ =~= one_sided(directories_only, o, Change::Removed(o.size), Side::Old));
            Step { changes, old_advance: Advance::PastCurrent, new_advance: Advance::Stay, done: false }
        },
        (None, Some(n)) => {
            if !directories_only || n.is_dir {
                changes.push((Change::Added(n.size), Side::New));
            }
            assert(changes@ =~= one_sided(directories_only, n, Change::Added(n.size), Side::New));
            Step { changes, old_advance: Advance::Stay, new_advance: Advance::PastCurrent, done: false }
        },
        (Some(o), Some(n)) => match order {
            KeyOrder::Less => {
                if !directories_only || o.is_dir {
                    changes.push((Change::Removed(o.size), Side::Old));
                }
                assert(changes@ =~= one_sided(directories_only, o, Change::Removed(o.size), Side::Old));
                Step { changes, old_advance: Advance::PastCurrent, new_advance: Advance::Stay, done: false }
            },
            KeyOrder::Greater => {
                if !directories_only || n.is_dir {
                    changes.push((Change::Added(n.size), Side::New));
                }
                assert(changes@ =~= one_sided(directories_only, n, Change::Added(n.size), Side::New));
                Step { changes, old_advance: Advance::Stay, new_advance: Advance::PastCurrent, done: false }
            },
            KeyOrder::Equal => {
                if o.is_dir == n.is_dir {
                    if o.is_dir == directories_only && o.size != n.size {
                        let change = if n.size > o.size {
                            Change::Modified { grew: true, magnitude: n.size - o.size }
                        } else {
                            Change::Modified { grew: false, magnitude: o.size - n.size }
                        };
                        changes.push((change, Side::New));
                    }
                    Step { changes, old_advance: Advance::Next, new_advance: Advance::Next, done: false }
                } else {
                    if !directories_only || o.is_dir {
                        changes.push((Change::Removed(o.size), Side::Old));
                    }
                    if !directories_only || n.is_dir {
                        changes.push((Change::Added(n.size), Side::New));
                    }
                    assert(changes@ =~= one_sided(directories_only, o, Change::Removed(o.size), Side::Old)
                        + one_sided(directories_only, n, Change::Added(n.size), Side::New));
                    Step { changes, old_advance: Advance::PastCurrent, new_advance: Advance::PastCurrent, done: false }
                }
            },
        },
    }
}

/// Every key is at the same place as itself.
pub proof fn law_key_order_reflexive(k: Seq<(Seq<u8>, u64)>)
    ensures
        key_order(k, k) == KeyOrder::Equal,
    decreases k.len(),
{
    if k.len() > 0 {
        lemma_bytes_order_reflexive(k[0].0);
        law_key_order_reflexive(k.drop_first());
    }
}

proof fn lemma_bytes_order_reflexive(a: Seq<u8>)
    ensures
        bytes_order(a, a) == KeyOrder::Equal,
    decreases a.len(),
{
    if a.len() > 0 {
        lemma_bytes_order_reflexive(a.drop_first());
    }
}

/// Comparing a snapshot with itself finds no change: two cursors at the same entry report
/// nothing and move on together.
pub proof fn law_identical_entries_report_nothing(e: Current, root: usize, key: Seq<(Seq<u8>, u64)>, directories_only: bool)
    ensures
        ({
            let r = step_spec(Some(e), Some(e), position_order(root, key, root, key), directories_only);
            r.0.len() == 0 && r.1 == Advance::Next && r.2 == Advance::Next && !r.3
        }),
{
    law_key_order_reflexive(key);
}


/// What the tree of reported changes has shown last: the root and key of the last line.
pub struct TreeState {
    /// The root of the last reported entry, if any was reported.
    pub root_ordinal: Option<usize>,
    /// The key of the deepest level shown for it.
    pub key: Vec<KeyPart>,
}

/// A line of the tree of changes: a context line names an ancestor directory, a change line the
/// changed entry itself.
#[derive(Clone, Copy, Debug, PartialEq, Eq, Structural)]
pub struct TreeLine {
    /// The level of the entry's path that the line shows, from the root at zero.
    pub level: usize,
    /// The indentation, in levels below the displayed base.
    pub indent: usize,
    /// Whether the line shows the change rather than an ancestor.
    pub is_change: bool,
    /// Whether changes below this line are hidden by the depth limit.
    pub hidden: bool,
}

/// The number of leading parts that two keys share.
pub open spec fn common_prefix_len(a: Seq<(Seq<u8>, u64)>, b: Seq<(Seq<u8>, u64)>) -> nat
    decreases a.len(),
{
    if a.len() == 0 || b.len() == 0 || a[0] != b[0] { 0 } else { 1 + common_prefix_len(a.drop_first(), b.drop_first()) }
}

/// The deepest level shown for a change at `depth` below `base`, limited to `max_depth` levels
/// below the base.
pub open spec fn visible_depth(depth: usize, base: usize, max_depth: Option<usize>) -> int {
    let limit = match max_depth { Some(m) => base + m, None => base + usize::MAX };
    let limit = if limit > usize::MAX { usize::MAX as int } else { limit };
    if depth < limit { depth as int } else { limit }
}

/// The lines that show a change at `depth` of the key `key` in root `root`, given what was
/// shown last: the ancestors not shown yet, from the base on, and the change itself where the
/// depth limit lets it be shown; otherwise the last visible ancestor is marked as hiding changes.
pub open spec fn tree_lines(last_root: Option<usize>, last_key: Seq<(Seq<u8>, u64)>, root: usize, key: Seq<(Seq<u8>, u64)>, depth: usize, is_dir: bool, change: Change, base: usize, max_depth: Option<usize>) -> Seq<TreeLine> {
    let common = if last_root == Some(root) { common_prefix_len(last_key, key) as int } else { 0 };
    let visible = visible_depth(depth, base, max_depth);
    let change_visible = visible == depth;
    let context_count = if change_visible { depth as int } else { visible + 1 };
    let start = if common > base { common } else { base as int };
    let context = Seq::new(if context_count > start { (context_count - start) as nat } else { 0 }, |i: int| TreeLine {
        level: (start + i) as usize,
        indent: (start + i - base) as usize,
        is_change: false,
        hidden: !change_visible && start + i == visible,
    });
    if change_visible {
        context.push(TreeLine {
            level: depth,
            indent: (depth - base) as usize,
            is_change: true,
            hidden: is_dir && change is Modified && max_depth is Some && depth - base == max_depth->0,
        })
    } else {
        context
    }
}

fn parts_equal(a: &KeyPart, b: &KeyPart) -> (r: bool)
    ensures
        r == (a@ == b@),
{
    if a.sibling_ordinal != b.sibling_ordinal || a.name.len() != b.name.len() {
        return false;
    }
    let mut i: usize = 0;
    while i < a.name.len()
        invariant
            i <= a.name@.len() == b.name@.len(),
            forall|j: int| 0 <= j < i ==> a.name@[j] == b.name@[j],
        decreases a.name@.len() - i,
    {
        if a.name[i] != b.name[i] {
            return false;
        }
        i = i + 1;
    }
    assert(a.name@ =~= b.name@);
    true
}

fn copy_part(p: &KeyPart) -> (r: KeyPart)
    ensures
        r@ == p@,
{
    let mut name: Vec<u8> = Vec::new();
    let mut i: usize = 0;
    while i < p.name.len()
        invariant
            i <= p.name@.len(),
            name@ == p.name@.subrange(0, i as int),
        decreases p.name@.len() - i,
    {
        name.push(p.name[i]);
        i = i + 1;
        assert(name@ =~= p.name@.subrange(0, i as int));
    }
    assert(p.name@.subrange(0, p.name@.len() as int) =~= p.name@);
    KeyPart { name, sibling_ordinal: p.sibling_ordinal }
}

fn common_prefix(a: &Vec<KeyPart>, b: &Vec<KeyPart>) -> (r: usize)
    ensures
        r == common_prefix_len(key_view(a@), key_view(b@)),
{
    let ghost ka = key_view(a@);
    let ghost kb = key_view(b@);
    let mut i: usize = 0;
    assert(ka.skip(0) =~= ka);
    assert(kb.skip(0) =~= kb);
    while i < a.len() && i < b.len() && parts_equal(&a[i], &b[i])
        invariant
            i <= a@.len(),
            i <= b@.len(),
            ka == key_view(a@),
            kb == key_view(b@),
            common_prefix_len(ka, kb) == i + common_prefix_len(ka.skip(i as int), kb.skip(i as int)),
        decreases a@.len() - i,
    {
        assert(ka.skip(i as int).drop_first() =~= ka.skip(i + 1));
        assert(kb.skip(i as int).drop_first() =~= kb.skip(i + 1));
        i = i + 1;
    }
    proof {
        if i < a@.len() && i < b@.len() {
            assert(ka.skip(i as int)[0] == a@[i as int]@);
            assert(kb.skip(i as int)[0] == b@[i as int]@);
        }
    }
    i
}

impl TreeState {
    /// Nothing shown yet.
    pub fn new() -> (r: TreeState)
        ensures
            r.root_ordinal is None,
            r.key@.len() == 0,
    {
        TreeState { root_ordinal: None, key: Vec::new() }
    }

    /// The lines that show `change` at the cursor's entry, with `base` the level of the selected
    /// prefix and `max_depth` the number of levels shown below it; see [`tree_lines`]. The state
    /// then remembers the entry's key down to the deepest level shown.
    pub fn lines_for(&mut self, change: Change, at: &SnapshotCursor, base: usize, max_depth: Option<usize>) -> (r: Vec<TreeLine>)
        requires
            at.current is Some,
            at.key@.len() == at.current->0.depth + 1,
            base <= at.current->0.depth,
        ensures
            r@ == tree_lines(old(self).root_ordinal, key_view(old(self).key@), at.root_ordinal, key_view(at.key@),
                at.current->0.depth, at.current->0.is_dir, change, base, max_depth),
            final(self).root_ordinal == Some(at.root_ordinal),
            key_view(final(self).key@) == key_view(at.key@).take(visible_depth(at.current->0.depth, base, max_depth) + 1),
    {
        let e = match at.current { Some(e) => e, None => Current { depth: 0, size: 0, is_dir: false } };
        let depth = e.depth;
        let common: usize = match self.root_ordinal {
            Some(root) => if root == at.root_ordinal { common_prefix(&self.key, &at.key) } else { 0 },
            None => 0,
        };
        let limit: usize = match max_depth {
            Some(m) => base.saturating_add(m),
            None => base.saturating_add(usize::MAX),
        };
        let visible: usize = if depth < limit { depth } else { limit };
        let change_visible = visible == depth;
        let context_count: usize = if change_visible { depth } else { visible + 1 };
        let start: usize = if common > base { common } else { base };
        let mut lines: Vec<TreeLine> = Vec::new();
        let mut level: usize = start;
        while level < context_count
            invariant
                start <= level,
                level <= if context_count > start { context_count } else { start },
                base <= start,
                lines@ == Seq::new((level - start) as nat, |i: int| TreeLine {
                    level: (start + i) as usize,
                    indent: (start + i - base) as usize,
                    is_change: false,
                    hidden: !change_visible && start + i == visible,
                }),
            decreases context_count - level,
        {
            lines.push(TreeLine { level, indent: level - base, is_change: false, hidden: !change_visible && level == visible });
            level = level + 1;
            assert(lines@ =~= Seq::new((level - start) as nat, |i: int| TreeLine {
                level: (start + i) as usize,
                indent: (start + i - base) as usize,
                is_change: false,
                hidden: !change_visible && start + i == visible,
            }));
        }
        if change_visible {
            let hidden = e.is_dir && match change { Change::Modified { .. } => true, _ => false } && match max_depth {
                Some(m) => depth - base == m,
                None => false,
            };
            lines.push(TreeLine { level: depth, indent: depth - base, is_change: true, hidden });
        }
        let ghost shown = key_view(at.key@).take(visible + 1);
        self.root_ordinal = Some(at.root_ordinal);
        self.key.clear();
        let mut i: usize = 0;
        while i <= visible
            invariant
                i <= visible + 1,
                visible < at.key.len(),
                self.root_ordinal == Some(at.root_ordinal),
                key_view(self.key@) == key_view(at.key@).take(i as int),
            decreases visible + 1 - i,
        {
            let ghost before = key_view(self.key@);
            self.key.push(copy_part(&at.key[i]));
            assert(key_view(self.key@) =~= before.push(at.key@[i as int]@));
            i = i + 1;
            assert(key_view(self.key@) =~= key_view(at.key@).take(i as int));
        }
        lines
    }
}


/// Two spaces for each level of indentation.
pub open spec fn indentation(levels: nat) -> Seq<char>
    decreases levels,
{
    if levels == 0 { Seq::empty() } else { indentation((levels - 1) as nat) + "  "@ }
}

/// The directory suffix of a shown path: none where it already ends in a separator.
pub open spec fn suffix_of(path: Seq<char>) -> Seq<char> {
    if path.len() > 0 && path.last() == '/' { Seq::empty() } else { "/"@ }
}

/// The marker of changes hidden below a line.
pub open spec fn hidden_marker(hidden: bool) -> Seq<char> {
    if hidden { " \u{2026}"@ } else { Seq::empty() }
}

/// The line of a change: indentation, `+`, `-` or `~`, the signed size, the path, a separator
/// after directories, and the hidden-changes marker.
pub open spec fn change_text(change: Change, path: Seq<char>, is_dir: bool, indent: nat, hidden: bool, format: ByteFormat) -> Seq<char> {
    let (kind, sign, magnitude) = match change {
        Change::Added(size) => ('+', Seq::<char>::empty(), size),
        Change::Removed(size) => ('-', Seq::<char>::empty(), size),
        Change::Modified { grew, magnitude } => ('~', if grew { "+"@ } else { "-"@ }, magnitude),
    };
    let shown = printable_path(path);
    indentation(indent) + seq![kind, ' '] + sign + byte_display(format, magnitude) + seq![' '] + shown
        + (if is_dir { suffix_of(shown) } else { Seq::empty() }) + hidden_marker(hidden)
}

/// The line of an ancestor directory: indentation, the path, a separator and the hidden-changes
/// marker.
pub open spec fn context_text(path: Seq<char>, indent: nat, hidden: bool) -> Seq<char> {
    let shown = printable_path(path);
    indentation(indent) + shown + suffix_of(shown) + hidden_marker(hidden)
}

/// The magnitude of a change.
pub open spec fn magnitude_of(change: Change) -> u128 {
    match change {
        Change::Added(size) => size,
        Change::Removed(size) => size,
        Change::Modified { grew, magnitude } => magnitude,
    }
}

proof fn lemma_indentation_len(levels: nat)
    ensures
        indentation(levels).len() == 2 * levels,
    decreases levels,
{
    reveal_strlit("  ");
    if levels > 0 {
        lemma_indentation_len((levels - 1) as nat);
    }
}

/// After its indentation, the line of a change starts with `+` for an addition, `-` for a
/// removal and `~` for a modification, then a space; a modification's size is signed, `+` where
/// the entry grew and `-` where it shrank. The line ends with the ellipsis where changes below it
/// are hidden, and otherwise, for a directory, with a separator.
pub proof fn law_change_lines_show_kind_and_sign(change: Change, path: Seq<char>, is_dir: bool, indent: nat, hidden: bool, format: ByteFormat)
    ensures
        ({
            let t = change_text(change, path, is_dir, indent, hidden, format);
            let k: int = 2 * indent as int;
            &&& t.len() >= k + 2
            &&& t[k] == match change {
                Change::Added(_) => '+',
                Change::Removed(_) => '-',
                Change::Modified { .. } => '~',
            }
            &&& t[k + 1] == ' '
            &&& change matches Change::Modified { grew, .. } ==> t.len() >= k + 3 && t[k + 2] == if grew { '+' } else { '-' }
            &&& hidden ==> t.last() == '\u{2026}'
            &&& !hidden && is_dir ==> t.last() == '/'
        }),
{
    lemma_indentation_len(indent);
    reveal_strlit("+");
    reveal_strlit("-");
    reveal_strlit("/");
    reveal_strlit(" \u{2026}");
}

fn push_indentation(out: &mut String, levels: usize)
    ensures
        final(out)@ == old(out)@ + indentation(levels as nat),
{
    let ghost start = out@;
    let mut i: usize = 0;
    while i < levels
        invariant
            i <= levels,
            out@ == start + indentation(i as nat),
        decreases levels - i,
    {
        out.append("  ");
        i = i + 1;
        assert(out@ =~= start + indentation(i as nat));
    }
}

fn append_suffix_and_marker(out: &mut String, shown: &String, with_suffix: bool, hidden: bool)
    ensures
        final(out)@ == old(out)@ + (if with_suffix { suffix_of(shown@) } else { Seq::empty() }) + hidden_marker(hidden),
{
    let ghost start = out@;
    if with_suffix {
        let suffix = directory_suffix(shown.as_str());
        proof {
            reveal_strlit("/");
            reveal_strlit("");
        }
        out.append(suffix);
    }
    if hidden {
        out.append(" \u{2026}");
    }
    assert(out@ =~= start + (if with_suffix { suffix_of(shown@) } else { Seq::empty() }) + hidden_marker(hidden));
}

/// The line that shows `change` at `path`; see [`change_text`].
pub fn change_line(change: Change, path: &str, is_dir: bool, indent: usize, hidden: bool, format: ByteFormat) -> (r: String)
    requires
        magnitude_of(change) <= u64::MAX,
    ensures
        r@ == change_text(change, path@, is_dir, indent as nat, hidden, format),
{
    let (kind, sign, magnitude) = match change {
        Change::Added(size) => ('+', "", size),
        Change::Removed(size) => ('-', "", size),
        Change::Modified { grew, magnitude } => ('~', if grew { "+" } else { "-" }, magnitude),
    };
    proof {
        reveal_strlit("");
        reveal_strlit("+");
        reveal_strlit("-");
    }
    let mut out = String::new();
    push_indentation(&mut out, indent);
    out.push(kind);
    out.push(' ');
    out.append(sign);
    let size = format.display(magnitude);
    out.append(size.as_str());
    out.push(' ');
    let shown = path_for_output(path);
    out.append(shown.as_str());
    append_suffix_and_marker(&mut out, &shown, is_dir, hidden);
    assert(out@ =~= change_text(change, path@, is_dir, indent as nat, hidden, format));
    out
}

/// The line that shows the ancestor directory `path`; see [`context_text`].
pub fn context_line(path: &str, indent: usize, hidden: bool) -> (r: String)
    ensures
        r@ == context_text(path@, indent as nat, hidden),
{
    let mut out = String::new();
    push_indentation(&mut out, indent);
    let shown = path_for_output(path);
    out.append(shown.as_str());
    append_suffix_and_marker(&mut out, &shown, true, hidden);
    assert(out@ =~= context_text(path@, indent as nat, hidden));
    out
}


/// The order of two texts by code point, which for UTF-8 is their byte order.
pub open spec fn text_order(a: Seq<char>, b: Seq<char>) -> KeyOrder
    decreases a.len(),
{
    if a.len() == 0 {
        if b.len() == 0 { KeyOrder::Equal } else { KeyOrder::Less }
    } else if b.len() == 0 {
        KeyOrder::Greater
    } else if a[0] < b[0] {
        KeyOrder::Less
    } else if a[0] > b[0] {
        KeyOrder::Greater
    } else {
        text_order(a.drop_first(), b.drop_first())
    }
}

/// The order of two paths, component by component.
pub open spec fn components_order(a: Seq<Seq<char>>, b: Seq<Seq<char>>) -> KeyOrder
    decreases a.len(),
{
    if a.len() == 0 {
        if b.len() == 0 { KeyOrder::Equal } else { KeyOrder::Less }
    } else if b.len() == 0 {
        KeyOrder::Greater
    } else {
        match text_order(a[0], b[0]) {
            KeyOrder::Equal => components_order(a.drop_first(), b.drop_first()),
            other => other,
        }
    }
}

fn compare_text(a: &String, b: &String) -> (r: KeyOrder)
    ensures
        r == text_order(a@, b@),
{
    let sa = a.as_str();
    let sb = b.as_str();
    let na = sa.unicode_len();
    let nb = sb.unicode_len();
    let mut i: usize = 0;
    assert(a@.skip(0) =~= a@);
    assert(b@.skip(0) =~= b@);
    while i < na && i < nb && sa.get_char(i) == sb.get_char(i)
        invariant
            i <= na == a@.len(),
            i <= nb == b@.len(),
            sa@ == a@,
            sb@ == b@,
            text_order(a@, b@) == text_order(a@.skip(i as int), b@.skip(i as int)),
        decreases na - i,
    {
        assert(a@.skip(i as int).drop_first() =~= a@.skip(i + 1));
        assert(b@.skip(i as int).drop_first() =~= b@.skip(i + 1));
        i = i + 1;
    }
    if i == na {
        if i == nb { KeyOrder::Equal } else { KeyOrder::Less }
    } else if i == nb {
        KeyOrder::Greater
    } else if sa.get_char(i) < sb.get_char(i) {
        KeyOrder::Less
    } else {
        KeyOrder::Greater
    }
}

/// The views of a list of path components.
pub open spec fn texts(v: Seq<String>) -> Seq<Seq<char>> {
    v.map_values(|s: String| s@)
}

pub(crate) fn compare_components(a: &Vec<String>, b: &Vec<String>) -> (r: KeyOrder)
    ensures
        r == components_order(texts(a@), texts(b@)),
{
    let ghost ta = texts(a@);
    let ghost tb = texts(b@);
    let mut i: usize = 0;
    assert(ta.skip(0) =~= ta);
    assert(tb.skip(0) =~= tb);
    while i < a.len() && i < b.len()
        invariant
            i <= a@.len(),
            i <= b@.len(),
            ta == texts(a@),
            tb == texts(b@),
            components_order(ta, tb) == components_order(ta.skip(i as int), tb.skip(i as int)),
        decreases a@.len() - i,
    {
        assert(ta.skip(i as int)[0] == a@[i as int]@);
        assert(tb.skip(i as int)[0] == b@[i as int]@);
        match compare_text(&a[i], &b[i]) {
            KeyOrder::Equal => {},
            other => return other,
        }
        assert(ta.skip(i as int).drop_first() =~= ta.skip(i + 1));
        assert(tb.skip(i as int).drop_first() =~= tb.skip(i + 1));
        i = i + 1;
    }
    if i == a.len() {
        if i == b.len() { KeyOrder::Equal } else { KeyOrder::Less }
    } else {
        KeyOrder::Greater
    }
}

/// An addition or removal kept for the summary.
pub struct SummaryEntry {
    /// The size added or removed.
    pub size: u128,
    /// The path as shown.
    pub path: String,
    /// The path's components, by which entries of equal size are ordered.
    pub components: Vec<String>,
    /// Whether it is a directory.
    pub is_dir: bool,
}

/// What the summary keeps of an entry: its size, path components, shown path, and whether it
/// is a directory.
pub type SummaryView = (u128, Seq<Seq<char>>, Seq<char>, bool);

/// Whether summary entry `a` is listed before `b`: larger first, then by path.
pub open spec fn listed_before(a: SummaryView, b: SummaryView) -> bool {
    a.0 > b.0 || (a.0 == b.0 && components_order(a.1, b.1) == KeyOrder::Less)
}

/// What the summary keeps of `e`.
pub open spec fn summary_view(e: SummaryEntry) -> SummaryView {
    (e.size, texts(e.components@), e.path@, e.is_dir)
}

/// What the summary keeps of each of `entries`.
pub open spec fn ranking(entries: Seq<SummaryEntry>) -> Seq<SummaryView> {
    entries.map_values(|e: SummaryEntry| summary_view(e))
}

/// Whether no entry is listed before one that precedes it.
pub open spec fn ranked(r: Seq<SummaryView>) -> bool {
    forall|i: int, j: int| 0 <= i < j < r.len() ==> !listed_before(#[trigger] r[j], #[trigger] r[i])
}

/// Where a new entry `e` is placed among ranked entries `r`: before the first entry that it is
/// listed before, and after all others.
pub open spec fn insert_position(r: Seq<SummaryView>, e: SummaryView) -> nat
    decreases r.len(),
{
    if r.len() == 0 || listed_before(e, r[0]) { 0 } else { 1 + insert_position(r.drop_first(), e) }
}

/// The changes seen, and the largest additions and removals kept to be listed.
pub struct Summary {
    /// The largest additions, largest first.
    pub additions: Vec<SummaryEntry>,
    /// The largest removals, largest first.
    pub removals: Vec<SummaryEntry>,
    /// The number of additions seen.
    pub additions_total: u64,
    /// The number of removals seen.
    pub removals_total: u64,
    /// The number of changes seen.
    pub changes_total: u64,
}

proof fn lemma_insert_position(r: Seq<SummaryView>, e: SummaryView, p: int)
    requires
        0 <= p <= r.len(),
        forall|i: int| 0 <= i < p ==> !listed_before(e, #[trigger] r[i]),
        p == r.len() || listed_before(e, r[p]),
    ensures
        insert_position(r, e) == p,
    decreases p,
{
    if p > 0 {
        assert(!listed_before(e, r[0]));
        assert forall|i: int| 0 <= i < p - 1 implies !listed_before(e, #[trigger] r.drop_first()[i]) by {
            assert(r.drop_first()[i] == r[i + 1]);
        }
        lemma_insert_position(r.drop_first(), e, p - 1);
    }
}

fn insert_ranked(entries: &mut Vec<SummaryEntry>, e: SummaryEntry)
    ensures
        ranking(final(entries)@) == ({
            let r = ranking(old(entries)@);
            let p = insert_position(r, summary_view(e)) as int;
            r.take(p).push(summary_view(e)) + r.skip(p)
        }),
{
    let ghost r = ranking(entries@);
    let ghost key = summary_view(e);
    let mut p: usize = 0;
    while p < entries.len()
        invariant
            p <= entries@.len(),
            r == ranking(entries@),
            key == summary_view(e),
            forall|i: int| 0 <= i < p ==> !listed_before(key, #[trigger] r[i]),
        ensures
            p <= entries@.len(),
            forall|i: int| 0 <= i < p ==> !listed_before(key, #[trigger] r[i]),
            p == entries@.len() || listed_before(key, r[p as int]),
        decreases entries@.len() - p,
    {
        assert(r[p as int] == summary_view(entries@[p as int]));
        let before = e.size > entries[p].size || (e.size == entries[p].size
            && compare_components(&e.components, &entries[p].components) == KeyOrder::Less);
        if before {
            break;
        }
        p = p + 1;
    }
    proof {
        lemma_insert_position(r, key, p as int);
    }
    entries.insert(p, e);
    assert(ranking(entries@) =~= r.take(p as int).push(key) + r.skip(p as int));
}

fn truncate_entries(entries: &mut Vec<SummaryEntry>, limit: usize)
    ensures
        ranking(final(entries)@) == ranking(old(entries)@).take(if limit < old(entries)@.len() { limit as int } else { old(entries)@.len() as int }),
{
    entries.truncate(limit);
    assert(ranking(entries@) =~= ranking(old(entries)@).take(if limit < old(entries)@.len() { limit as int } else { old(entries)@.len() as int }));
}

/// A new entry placed at its insert position keeps the entries ranked.
pub proof fn law_insertion_keeps_ranking(r: Seq<SummaryView>, e: SummaryView, limit: int)
    requires
        ranked(r),
        0 <= limit,
    ensures
        ranked(({
            let p = insert_position(r, e) as int;
            r.take(p).push(e) + r.skip(p)
        }).take(if limit < r.len() + 1 { limit } else { r.len() + 1int })),
{
    let p = insert_position(r, e) as int;
    lemma_insert_position_bounds(r, e);
    let s = r.take(p).push(e) + r.skip(p);
    let n = if limit < r.len() + 1 { limit } else { r.len() + 1int };
    assert forall|i: int, j: int| 0 <= i < j < s.take(n).len() implies !listed_before(#[trigger] s.take(n)[j], #[trigger] s.take(n)[i]) by {
        assert(s.take(n)[i] == s[i] && s.take(n)[j] == s[j]);
        if j < p {
            assert(s[i] == r[i] && s[j] == r[j]);
        } else if j == p {
            assert(s[i] == r[i]);
            assert(!listed_before(e, r[i]));
        } else if i == p {
            assert(s[j] == r[j - 1]);
            lemma_listed_after_position(r, e, j - 1);
        } else if i < p {
            assert(s[i] == r[i] && s[j] == r[j - 1]);
        } else {
            assert(s[i] == r[i - 1] && s[j] == r[j - 1]);
        }
    }
}

proof fn lemma_insert_position_bounds(r: Seq<SummaryView>, e: SummaryView)
    ensures
        insert_position(r, e) <= r.len(),
        forall|i: int| 0 <= i < insert_position(r, e) ==> !listed_before(e, #[trigger] r[i]),
    decreases r.len(),
{
    if r.len() > 0 && !listed_before(e, r[0]) {
        lemma_insert_position_bounds(r.drop_first(), e);
        assert forall|i: int| 0 <= i < insert_position(r, e) implies !listed_before(e, #[trigger] r[i]) by {
            if i > 0 {
                assert(r[i] == r.drop_first()[i - 1]);
            }
        }
    }
}

proof fn lemma_listed_after_position(r: Seq<SummaryView>, e: SummaryView, k: int)
    requires
        ranked(r),
        insert_position(r, e) <= k < r.len(),
    ensures
        !listed_before(r[k], e),
{
    let p = insert_position(r, e) as int;
    lemma_insert_position_bounds(r, e);
    lemma_insert_position_stops(r, e);
    if listed_before(r[k], e) {
        lemma_listed_before_transitive(r[k], e, r[p]);
        if k == p {
            lemma_listed_before_irreflexive(r[p]);
        }
    }
}

proof fn lemma_insert_position_stops(r: Seq<SummaryView>, e: SummaryView)
    ensures
        insert_position(r, e) < r.len() ==> listed_before(e, r[insert_position(r, e) as int]),
    decreases r.len(),
{
    if r.len() > 0 && !listed_before(e, r[0]) {
        lemma_insert_position_stops(r.drop_first(), e);
    }
}

pub(crate) proof fn lemma_text_order_reflexive(a: Seq<char>)
    ensures
        text_order(a, a) == KeyOrder::Equal,
    decreases a.len(),
{
    if a.len() > 0 {
        lemma_text_order_reflexive(a.drop_first());
    }
}

pub(crate) proof fn lemma_text_order_transitive(a: Seq<char>, b: Seq<char>, c: Seq<char>)
    requires
        text_order(a, b) != KeyOrder::Greater,
        text_order(b, c) != KeyOrder::Greater,
    ensures
        text_order(a, c) != KeyOrder::Greater,
        text_order(a, b) == KeyOrder::Less || text_order(b, c) == KeyOrder::Less ==> text_order(a, c) == KeyOrder::Less,
    decreases a.len(),
{
    if a.len() > 0 && b.len() > 0 && c.len() > 0 && a[0] == b[0] && b[0] == c[0] {
        lemma_text_order_transitive(a.drop_first(), b.drop_first(), c.drop_first());
    }
}

pub(crate) proof fn lemma_components_order_reflexive(a: Seq<Seq<char>>)
    ensures
        components_order(a, a) == KeyOrder::Equal,
    decreases a.len(),
{
    if a.len() > 0 {
        lemma_text_order_reflexive(a[0]);
        lemma_components_order_reflexive(a.drop_first());
    }
}

pub(crate) proof fn lemma_text_equal(a: Seq<char>, b: Seq<char>)
    requires
        text_order(a, b) == KeyOrder::Equal,
    ensures
        a == b,
    decreases a.len(),
{
    if a.len() > 0 {
        lemma_text_equal(a.drop_first(), b.drop_first());
        assert(a =~= seq![a[0]] + a.drop_first());
        assert(b =~= seq![b[0]] + b.drop_first());
    } else {
        assert(a =~= b);
    }
}

pub(crate) proof fn lemma_components_order_transitive(a: Seq<Seq<char>>, b: Seq<Seq<char>>, c: Seq<Seq<char>>)
    requires
        components_order(a, b) == KeyOrder::Less,
        components_order(b, c) == KeyOrder::Less,
    ensures
        components_order(a, c) == KeyOrder::Less,
    decreases a.len(),
{
    if a.len() > 0 && b.len() > 0 && c.len() > 0 {
        let ab = text_order(a[0], b[0]);
        let bc = text_order(b[0], c[0]);
        lemma_text_order_transitive(a[0], b[0], c[0]);
        if ab == KeyOrder::Equal && bc == KeyOrder::Equal {
            lemma_text_equal(a[0], b[0]);
            lemma_text_equal(b[0], c[0]);
            lemma_text_order_reflexive(a[0]);
            lemma_components_order_transitive(a.drop_first(), b.drop_first(), c.drop_first());
        }
    }
}

proof fn lemma_listed_before_transitive(a: SummaryView, b: SummaryView, c: SummaryView)
    requires
        listed_before(a, b),
        listed_before(b, c),
    ensures
        listed_before(a, c),
{
    if a.0 == b.0 && b.0 == c.0 {
        lemma_components_order_transitive(a.1, b.1, c.1);
    }
}

proof fn lemma_listed_before_irreflexive(a: SummaryView)
    ensures
        !listed_before(a, a),
{
    lemma_components_order_reflexive(a.1);
}


/// The entries kept after `e` is recorded among ranked entries `r`, at most `limit` of them.
pub open spec fn recorded(r: Seq<SummaryView>, e: SummaryView, limit: usize) -> Seq<SummaryView> {
    let p = insert_position(r, e) as int;
    let s = r.take(p).push(e) + r.skip(p);
    s.take(if limit < s.len() { limit as int } else { s.len() as int })
}

impl Summary {
    /// No change seen.
    pub fn new() -> (r: Summary)
        ensures
            r.additions@.len() == 0,
            r.removals@.len() == 0,
            r.additions_total == 0,
            r.removals_total == 0,
            r.changes_total == 0,
            summary_model(r) == after_records(Seq::empty(), 0),
    {
        let r = Summary { additions: Vec::new(), removals: Vec::new(), additions_total: 0, removals_total: 0, changes_total: 0 };
        assert(ranking(r.additions@) =~= Seq::<SummaryView>::empty());
        assert(ranking(r.removals@) =~= Seq::<SummaryView>::empty());
        r
    }

    /// Count `change`, and keep an addition or removal, `entry`, among the `limit` largest of its
    /// kind. Counts saturate; a limit of zero keeps no entry.
    pub fn record(&mut self, change: Change, entry: Option<SummaryEntry>, limit: usize)
        requires
            limit > 0 && !(change is Modified) ==> entry is Some,
        ensures
            final(self).changes_total == if old(self).changes_total == u64::MAX { u64::MAX } else { (old(self).changes_total + 1) as u64 },
            summary_model(*final(self)) == record_effect(summary_model(*old(self)), change,
                match entry { Some(e) => summary_view(e), None => arbitrary() }, limit),
            match change {
                Change::Modified { .. } => {
                    &&& ranking(final(self).additions@) == ranking(old(self).additions@)
                    &&& ranking(final(self).removals@) == ranking(old(self).removals@)
                    &&& final(self).additions_total == old(self).additions_total
                    &&& final(self).removals_total == old(self).removals_total
                },
                Change::Added(_) => {
                    &&& ranking(final(self).additions@) == if limit == 0 { ranking(old(self).additions@) } else {
                            recorded(ranking(old(self).additions@), summary_view(entry->0), limit) }
                    &&& ranking(final(self).removals@) == ranking(old(self).removals@)
                    &&& final(self).additions_total == if old(self).additions_total == u64::MAX { u64::MAX } else { (old(self).additions_total + 1) as u64 }
                    &&& final(self).removals_total == old(self).removals_total
                },
                Change::Removed(_) => {
                    &&& ranking(final(self).removals@) == if limit == 0 { ranking(old(self).removals@) } else {
                            recorded(ranking(old(self).removals@), summary_view(entry->0), limit) }
                    &&& ranking(final(self).additions@) == ranking(old(self).additions@)
                    &&& final(self).removals_total == if old(self).removals_total == u64::MAX { u64::MAX } else { (old(self).removals_total + 1) as u64 }
                    &&& final(self).additions_total == old(self).additions_total
                },
            },
    {
        self.changes_total = self.changes_total.saturating_add(1);
        match change {
            Change::Modified { .. } => {},
            Change::Added(_) => {
                self.additions_total = self.additions_total.saturating_add(1);
                if limit > 0 {
                    if let Some(e) = entry {
                        insert_ranked(&mut self.additions, e);
                        truncate_entries(&mut self.additions, limit);
                    }
                }
            },
            Change::Removed(_) => {
                self.removals_total = self.removals_total.saturating_add(1);
                if limit > 0 {
                    if let Some(e) = entry {
                        insert_ranked(&mut self.removals, e);
                        truncate_entries(&mut self.removals, limit);
                    }
                }
            },
        }
    }
}


/// What a summary holds: the ranked additions and removals it keeps, and its three counts.
pub type SummaryModel = (Seq<SummaryView>, Seq<SummaryView>, u64, u64, u64);

/// What `s` holds.
pub open spec fn summary_model(s: Summary) -> SummaryModel {
    (ranking(s.additions@), ranking(s.removals@), s.additions_total, s.removals_total, s.changes_total)
}

/// `n` plus one, saturating at the largest `u64`.
pub open spec fn saturating_increment(n: u64) -> u64 {
    if n == u64::MAX { u64::MAX } else { (n + 1) as u64 }
}

/// What recording `change`, whose entry has the view `e` where it is an addition or removal,
/// does to a summary holding `m`, keeping at most `limit` entries of each kind.
pub open spec fn record_effect(m: SummaryModel, change: Change, e: SummaryView, limit: usize) -> SummaryModel {
    let changes = saturating_increment(m.4);
    match change {
        Change::Modified { .. } => (m.0, m.1, m.2, m.3, changes),
        Change::Added(_) => (if limit == 0 { m.0 } else { recorded(m.0, e, limit) }, m.1, saturating_increment(m.2), m.3, changes),
        Change::Removed(_) => (m.0, if limit == 0 { m.1 } else { recorded(m.1, e, limit) }, m.2, saturating_increment(m.3), changes),
    }
}

/// What a summary holds after `calls`, in order, were recorded into an empty one with `limit`.
pub open spec fn after_records(calls: Seq<(Change, SummaryView)>, limit: usize) -> SummaryModel
    decreases calls.len(),
{
    if calls.len() == 0 {
        (Seq::empty(), Seq::empty(), 0, 0, 0)
    } else {
        let last = calls.last();
        record_effect(after_records(calls.drop_last(), limit), last.0, last.1, limit)
    }
}

/// The entries of the calls of `calls` that record a change of kind `added` (else removals).
pub open spec fn entries_of(calls: Seq<(Change, SummaryView)>, added: bool) -> Seq<SummaryView>
    decreases calls.len(),
{
    if calls.len() == 0 {
        Seq::empty()
    } else {
        let last = calls.last();
        let matches = if added { last.0 is Added } else { last.0 is Removed };
        if matches { entries_of(calls.drop_last(), added).push(last.1) } else { entries_of(calls.drop_last(), added) }
    }
}

/// `r` with `e` placed at its insert position.
pub open spec fn inserted(r: Seq<SummaryView>, e: SummaryView) -> Seq<SummaryView> {
    let p = insert_position(r, e) as int;
    r.take(p).push(e) + r.skip(p)
}

/// `entries` ranked stably: larger first, then by path, entries that are neither listed before
/// the other keeping their order.
pub open spec fn ranked_all(entries: Seq<SummaryView>) -> Seq<SummaryView>
    decreases entries.len(),
{
    if entries.len() == 0 { Seq::empty() } else { inserted(ranked_all(entries.drop_last()), entries.last()) }
}

/// The first `n` of `r`, or all of them where there are fewer.
pub open spec fn first_of(r: Seq<SummaryView>, n: int) -> Seq<SummaryView> {
    r.take(if n < r.len() { n } else { r.len() as int })
}

/// The number `n`, saturating at the largest `u64`.
pub open spec fn saturated(n: nat) -> u64 {
    if n >= u64::MAX { u64::MAX } else { n as u64 }
}

/// The number of calls of `calls` that record a change of kind `added` (else removals).
pub open spec fn count_of(calls: Seq<(Change, SummaryView)>, added: bool) -> nat {
    entries_of(calls, added).len()
}

proof fn lemma_insert_position_in_prefix(r: Seq<SummaryView>, e: SummaryView, n: int)
    requires
        0 <= n <= r.len(),
    ensures
        insert_position(r.take(n), e) == if insert_position(r, e) < n { insert_position(r, e) as int } else { n },
    decreases n,
{
    lemma_insert_position_bounds(r, e);
    lemma_insert_position_stops(r, e);
    let p = insert_position(r, e) as int;
    if p < n {
        assert forall|i: int| 0 <= i < p implies !listed_before(e, #[trigger] r.take(n)[i]) by {
            assert(r.take(n)[i] == r[i]);
        }
        assert(r.take(n)[p] == r[p]);
        lemma_insert_position(r.take(n), e, p);
    } else {
        assert forall|i: int| 0 <= i < n implies !listed_before(e, #[trigger] r.take(n)[i]) by {
            assert(r.take(n)[i] == r[i]);
        }
        lemma_insert_position(r.take(n), e, n);
    }
}

/// Keeping only the first `limit` entries before an insertion and after it keeps the same
/// entries as keeping them only after it.
proof fn lemma_truncate_before_insert(r: Seq<SummaryView>, e: SummaryView, limit: int)
    requires
        0 <= limit,
    ensures
        first_of(inserted(first_of(r, limit), e), limit) == first_of(inserted(r, e), limit),
{
    lemma_insert_position_bounds(r, e);
    let n = if limit < r.len() { limit } else { r.len() as int };
    let t = r.take(n);
    lemma_insert_position_in_prefix(r, e, n);
    lemma_insert_position_bounds(t, e);
    let p = insert_position(r, e) as int;
    let q = insert_position(t, e) as int;
    let a = inserted(t, e);
    let b = inserted(r, e);
    assert(a.len() == n + 1);
    assert(b.len() == r.len() + 1);
    let m = if limit < a.len() { limit } else { a.len() as int };
    let m2 = if limit < b.len() { limit } else { b.len() as int };
    if n < r.len() {
        assert(m == limit && m2 == limit);
    } else {
        assert(m == m2);
    }
    assert forall|i: int| 0 <= i < m implies #[trigger] a[i] == b[i] by {
        if i < q {
            assert(a[i] == t[i]);
            assert(b[i] == r[i]);
        } else if i == q {
            if q == p {
                assert(a[i] == e && b[i] == e);
            } else {
                assert(q == n);
                assert(i < m);
            }
        } else {
            assert(a[i] == t[i - 1]);
            assert(b[i] == r[i - 1]);
        }
    }
    assert(first_of(a, limit) =~= first_of(b, limit));
}

proof fn lemma_recorded_is_inserted(r: Seq<SummaryView>, e: SummaryView, limit: usize)
    ensures
        recorded(r, e, limit) == first_of(inserted(r, e), limit as int),
{
}

proof fn lemma_kept_entries(calls: Seq<(Change, SummaryView)>, limit: usize, added: bool)
    requires
        limit > 0,
    ensures
        (if added { after_records(calls, limit).0 } else { after_records(calls, limit).1 })
            == first_of(ranked_all(entries_of(calls, added)), limit as int),
    decreases calls.len(),
{
    if calls.len() == 0 {
        assert(first_of(ranked_all(entries_of(calls, added)), limit as int) =~= Seq::<SummaryView>::empty());
    } else {
        let prior = calls.drop_last();
        let last = calls.last();
        lemma_kept_entries(prior, limit, added);
        let matches = if added { last.0 is Added } else { last.0 is Removed };
        if matches {
            let es = entries_of(calls, added);
            assert(es.drop_last() =~= entries_of(prior, added));
            lemma_truncate_before_insert(ranked_all(entries_of(prior, added)), last.1, limit as int);
        }
    }
}

proof fn lemma_counts(calls: Seq<(Change, SummaryView)>, limit: usize)
    ensures
        after_records(calls, limit).2 == saturated(count_of(calls, true)),
        after_records(calls, limit).3 == saturated(count_of(calls, false)),
        after_records(calls, limit).4 == saturated(calls.len()),
        limit == 0 ==> after_records(calls, limit).0.len() == 0 && after_records(calls, limit).1.len() == 0,
    decreases calls.len(),
{
    if calls.len() > 0 {
        lemma_counts(calls.drop_last(), limit);
    }
}

/// From an empty summary, recording `calls` in order with one `limit` counts every call, every
/// addition and every removal (saturating), leaves additions and removals alone on calls of
/// the other kinds, and keeps exactly the first `limit` of all additions (and of all removals)
/// ranked largest first, then by path, entries that compare equal in the order they came: the
/// same as keeping every entry and cutting the ranking to `limit` at the end.
pub proof fn law_recorded_summary(calls: Seq<(Change, SummaryView)>, limit: usize)
    ensures
        after_records(calls, limit) == (
            first_of(ranked_all(entries_of(calls, true)), limit as int),
            first_of(ranked_all(entries_of(calls, false)), limit as int),
            saturated(count_of(calls, true)),
            saturated(count_of(calls, false)),
            saturated(calls.len()),
        ),
        ranked(ranked_all(entries_of(calls, true))),
        ranked(ranked_all(entries_of(calls, false))),
        ranked_all(entries_of(calls, true)).to_multiset() == entries_of(calls, true).to_multiset(),
        ranked_all(entries_of(calls, false)).to_multiset() == entries_of(calls, false).to_multiset(),
{
    lemma_counts(calls, limit);
    if limit > 0 {
        lemma_kept_entries(calls, limit, true);
        lemma_kept_entries(calls, limit, false);
    } else {
        assert(first_of(ranked_all(entries_of(calls, true)), 0) =~= Seq::<SummaryView>::empty());
        assert(first_of(ranked_all(entries_of(calls, false)), 0) =~= Seq::<SummaryView>::empty());
        assert(after_records(calls, limit).0 =~= Seq::<SummaryView>::empty());
        assert(after_records(calls, limit).1 =~= Seq::<SummaryView>::empty());
    }
    lemma_ranked_all(entries_of(calls, true));
    lemma_ranked_all(entries_of(calls, false));
}

proof fn lemma_ranked_all(entries: Seq<SummaryView>)
    ensures
        ranked(ranked_all(entries)),
        ranked_all(entries).to_multiset() == entries.to_multiset(),
        ranked_all(entries).len() == entries.len(),
    decreases entries.len(),
{
    broadcast use vstd::multiset::group_multiset_axioms, vstd::seq_lib::group_to_multiset_ensures;
    if entries.len() > 0 {
        let prior = entries.drop_last();
        let e = entries.last();
        lemma_ranked_all(prior);
        let r = ranked_all(prior);
        lemma_insert_position_bounds(r, e);
        law_insertion_keeps_ranking(r, e, r.len() + 1int);
        let p = insert_position(r, e) as int;
        let s = inserted(r, e);
        assert(s.take(r.len() + 1int) =~= s);
        assert(r =~= r.take(p) + r.skip(p));
        assert(s =~= r.take(p) + (seq![e] + r.skip(p)));
        vstd::seq_lib::lemma_multiset_commutative(r.take(p), r.skip(p));
        vstd::seq_lib::lemma_multiset_commutative(r.take(p), seq![e] + r.skip(p));
        vstd::seq_lib::lemma_multiset_commutative(seq![e], r.skip(p));
        assert(entries =~= prior.push(e));
    }
}

/// A line of output, and the change whose colour it takes on a terminal, if any.
pub struct OutputLine {
    /// The text of the line.
    pub text: String,
    /// The change it shows.
    pub change: Option<Change>,
}

/// The lines of one list of the summary: its heading, then each kept entry as a change of kind
/// `removal` or addition.
pub open spec fn section_lines(title: Seq<char>, entries: Seq<SummaryView>, total: u64, removal: bool, format: ByteFormat) -> Seq<(Seq<char>, Option<Change>)> {
    seq![("Largest "@ + title + " (showing "@ + decimal(entries.len()) + " of "@ + decimal(total as nat) + "):"@, None::<Change>)]
        + entries.map_values(|e: SummaryView| summary_line(e, removal, format))
}

/// The line of a kept summary entry, as a removal or an addition.
pub open spec fn summary_line(e: SummaryView, removal: bool, format: ByteFormat) -> (Seq<char>, Option<Change>) {
    let change = if removal { Change::Removed(e.0) } else { Change::Added(e.0) };
    (change_text(change, e.2, e.3, 0, false, format), Some(change))
}

/// The lines of the summary: the largest removals, then the largest additions, each list
/// only if it has entries and separated by an empty line, an empty line after them, and the
/// number of changes.
pub open spec fn summary_text(removals: Seq<SummaryView>, removals_total: u64, additions: Seq<SummaryView>, additions_total: u64, changes_total: u64, format: ByteFormat) -> Seq<(Seq<char>, Option<Change>)> {
    let first = if removals.len() > 0 { section_lines("removals"@, removals, removals_total, true, format) } else { Seq::empty() };
    let gap = if removals.len() > 0 && additions.len() > 0 { seq![(Seq::<char>::empty(), None::<Change>)] } else { Seq::empty() };
    let second = if additions.len() > 0 { section_lines("additions"@, additions, additions_total, false, format) } else { Seq::empty() };
    let end = if removals.len() > 0 || additions.len() > 0 { seq![(Seq::<char>::empty(), None::<Change>)] } else { Seq::empty() };
    first + gap + second + end + seq![("Changes: "@ + decimal(changes_total as nat), None::<Change>)]
}

/// The text and change of output lines.
pub open spec fn lines_view(lines: Seq<OutputLine>) -> Seq<(Seq<char>, Option<Change>)> {
    lines.map_values(|l: OutputLine| (l.text@, l.change))
}

fn push_section(out: &mut Vec<OutputLine>, title: &str, entries: &Vec<SummaryEntry>, total: u64, removal: bool, format: ByteFormat)
    requires
        forall|i: int| 0 <= i < entries@.len() ==> #[trigger] entries@[i].size <= u64::MAX,
    ensures
        lines_view(final(out)@) == lines_view(old(out)@) + section_lines(title@, ranking(entries@), total, removal, format),
{
    let ghost start = lines_view(out@);
    let mut heading = String::from_str("Largest ");
    heading.append(title);
    heading.append(" (showing ");
    let shown = decimal_string(entries.len() as u128);
    heading.append(shown.as_str());
    heading.append(" of ");
    let count = decimal_string(total as u128);
    heading.append(count.as_str());
    heading.append("):");
    out.push(OutputLine { text: heading, change: None });
    let ghost r = ranking(entries@);
    let ghost head = seq![("Largest "@ + title@ + " (showing "@ + decimal(entries@.len()) + " of "@ + decimal(total as nat) + "):"@, None::<Change>)];
    assert(lines_view(out@) =~= start + head);
    let mut i: usize = 0;
    while i < entries.len()
        invariant
            i <= entries@.len(),
            r == ranking(entries@),
            forall|j: int| 0 <= j < entries@.len() ==> #[trigger] entries@[j].size <= u64::MAX,
            lines_view(out@) == start + head + r.subrange(0, i as int).map_values(|e: SummaryView| summary_line(e, removal, format)),
        decreases entries@.len() - i,
    {
        let e = &entries[i];
        let change = if removal { Change::Removed(e.size) } else { Change::Added(e.size) };
        let text = change_line(change, e.path.as_str(), e.is_dir, 0, false, format);
        let ghost before = lines_view(out@);
        out.push(OutputLine { text, change: Some(change) });
        assert(r[i as int] == summary_view(entries@[i as int]));
        assert(r[i as int].0 == e.size);
        assert(r[i as int].2 == e.path@);
        assert(r[i as int].3 == e.is_dir);
        assert(text@ == change_text(change, r[i as int].2, r[i as int].3, 0, false, format));
        assert(summary_line(r[i as int], removal, format) == (text@, Some(change)));
        assert(lines_view(out@) =~= before.push(summary_line(r[i as int], removal, format)));
        assert(r.subrange(0, i + 1).map_values(|e: SummaryView| summary_line(e, removal, format)) =~= r.subrange(0, i as int).map_values(|e: SummaryView| summary_line(e, removal, format)).push(summary_line(r[i as int], removal, format)));
        i = i + 1;
    }
    assert(r.subrange(0, entries@.len() as int) =~= r);
}

impl Summary {
    /// The lines that show the summary; see [`summary_text`].
    pub fn lines(&self, format: ByteFormat) -> (r: Vec<OutputLine>)
        requires
            forall|i: int| 0 <= i < self.removals@.len() ==> #[trigger] self.removals@[i].size <= u64::MAX,
            forall|i: int| 0 <= i < self.additions@.len() ==> #[trigger] self.additions@[i].size <= u64::MAX,
        ensures
            lines_view(r@) == summary_text(ranking(self.removals@), self.removals_total, ranking(self.additions@),
                self.additions_total, self.changes_total, format),
    {
        let ghost removals = ranking(self.removals@);
        let ghost additions = ranking(self.additions@);
        let ghost first = if removals.len() > 0 { section_lines("removals"@, removals, self.removals_total, true, format) } else { Seq::empty() };
        let ghost gap = if removals.len() > 0 && additions.len() > 0 { seq![(Seq::<char>::empty(), None::<Change>)] } else { Seq::empty() };
        let ghost second = if additions.len() > 0 { section_lines("additions"@, additions, self.additions_total, false, format) } else { Seq::empty() };
        let ghost end = if removals.len() > 0 || additions.len() > 0 { seq![(Seq::<char>::empty(), None::<Change>)] } else { Seq::empty() };
        let mut out: Vec<OutputLine> = Vec::new();
        assert(lines_view(out@) =~= Seq::<(Seq<char>, Option<Change>)>::empty());
        if self.removals.len() > 0 {
            push_section(&mut out, "removals", &self.removals, self.removals_total, true, format);
        }
        assert(lines_view(out@) =~= first);
        if self.additions.len() > 0 {
            if self.removals.len() > 0 {
                let ghost before = lines_view(out@);
                out.push(OutputLine { text: String::new(), change: None });
                assert(lines_view(out@) =~= before.push((Seq::<char>::empty(), None::<Change>)));
            }
            assert(lines_view(out@) =~= first + gap);
            push_section(&mut out, "additions", &self.additions, self.additions_total, false, format);
        }
        assert(lines_view(out@) =~= first + gap + second);
        if self.removals.len() > 0 || self.additions.len() > 0 {
            let ghost before = lines_view(out@);
            out.push(OutputLine { text: String::new(), change: None });
            assert(lines_view(out@) =~= before.push((Seq::<char>::empty(), None::<Change>)));
        }
        assert(lines_view(out@) =~= first + gap + second + end);
        let mut last = String::from_str("Changes: ");
        let count = decimal_string(self.changes_total as u128);
        last.append(count.as_str());
        let ghost before = lines_view(out@);
        out.push(OutputLine { text: last, change: None });
        assert(lines_view(out@) =~= before.push(("Changes: "@ + decimal(self.changes_total as nat), None::<Change>)));
        out
    }
}


/// The order of two values read the other way round.
pub open spec fn flipped(o: KeyOrder) -> KeyOrder {
    match o {
        KeyOrder::Less => KeyOrder::Greater,
        KeyOrder::Equal => KeyOrder::Equal,
        KeyOrder::Greater => KeyOrder::Less,
    }
}

pub(crate) proof fn lemma_text_order_flips(a: Seq<char>, b: Seq<char>)
    ensures
        text_order(b, a) == flipped(text_order(a, b)),
    decreases a.len(),
{
    if a.len() > 0 && b.len() > 0 && a[0] == b[0] {
        lemma_text_order_flips(a.drop_first(), b.drop_first());
    }
}

pub(crate) proof fn lemma_components_order_flips(a: Seq<Seq<char>>, b: Seq<Seq<char>>)
    ensures
        components_order(b, a) == flipped(components_order(a, b)),
    decreases a.len(),
{
    if a.len() > 0 && b.len() > 0 {
        lemma_text_order_flips(a[0], b[0]);
        if text_order(a[0], b[0]) == KeyOrder::Equal {
            lemma_components_order_flips(a.drop_first(), b.drop_first());
        }
    }
}

pub(crate) proof fn lemma_components_equal(a: Seq<Seq<char>>, b: Seq<Seq<char>>)
    requires
        components_order(a, b) == KeyOrder::Equal,
    ensures
        a == b,
    decreases a.len(),
{
    if a.len() > 0 {
        lemma_text_equal(a[0], b[0]);
        lemma_components_equal(a.drop_first(), b.drop_first());
        assert(a =~= seq![a[0]] + a.drop_first());
        assert(b =~= seq![b[0]] + b.drop_first());
    } else {
        assert(a =~= b);
    }
}

} // verus!
