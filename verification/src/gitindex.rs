//! Whether a Git index tracks anything at or below a path, which keeps a directory from being a
//! cleanup candidate.
//!
//! Paths are repository-relative bytes with `/` between components. Sparse directory entries
//! end in `/`. A gitlink (submodule) or sparse directory entry claims everything below it.
use vstd::prelude::*;

verus! {

/// An entry of a Git index, as the check for tracked paths reads it.
pub struct IndexEntry {
    /// Its repository-relative path.
    pub path: Vec<u8>,
    /// Whether it stands for a sparse directory.
    pub sparse: bool,
    /// Whether it is a gitlink, the commit of a submodule.
    pub submodule: bool,
}

/// The byte `/`.
pub const SLASH: u8 = 47u8;

/// `b` with ASCII capitals turned into small letters.
pub open spec fn ascii_lower(b: u8) -> u8 {
    if 65 <= b <= 90 { (b + 32) as u8 } else { b }
}

/// Whether two bytes are equal, in any ASCII case where `ignore_case` holds.
pub open spec fn same_byte(a: u8, b: u8, ignore_case: bool) -> bool {
    if ignore_case { ascii_lower(a) == ascii_lower(b) } else { a == b }
}

/// Whether path `entry` is path `directory` or lies within it.
pub open spec fn contains_path(entry: Seq<u8>, directory: Seq<u8>, ignore_case: bool) -> bool {
    &&& directory.len() <= entry.len()
    &&& forall|j: int| 0 <= j < directory.len() ==> same_byte(#[trigger] entry[j], directory[j], ignore_case)
    &&& (entry.len() == directory.len() || entry[directory.len() as int] == SLASH)
}

/// `path` without the slashes it ends with.
pub open spec fn trim_slashes(path: Seq<u8>) -> Seq<u8>
    decreases path.len(),
{
    if path.len() > 0 && path.last() == SLASH { trim_slashes(path.drop_last()) } else { path }
}

/// Whether `entry` claims everything below its path.
pub open spec fn claims_below(entry: IndexEntry) -> bool {
    entry.sparse || entry.submodule
}

/// Whether an entry of `index` at exactly `path` is a gitlink or sparse directory.
pub open spec fn claimed_at(index: Seq<IndexEntry>, path: Seq<u8>) -> bool {
    exists|k: int| 0 <= k < index.len() && #[trigger] index[k].path@ == path && claims_below(index[k])
}

/// Whether `index`, whose paths are compared in any ASCII case, tracks `path`: an entry, its
/// trailing slashes dropped, lies at or below `path`, or a gitlink or sparse directory entry
/// contains `path`.
pub open spec fn tracked_ignoring_case(index: Seq<IndexEntry>, path: Seq<u8>) -> bool {
    exists|k: int| 0 <= k < index.len() && {
        let entry = trim_slashes(#[trigger] index[k].path@);
        contains_path(entry, path, true) || (claims_below(index[k]) && contains_path(path, entry, true))
    }
}

/// Whether `index`, whose paths are compared exactly, tracks `path`: an entry lies at or below
/// `path`, or at a proper ancestor of it, written with or without its trailing slash, there is a
/// gitlink or sparse directory entry.
pub open spec fn tracked_exactly(index: Seq<IndexEntry>, path: Seq<u8>) -> bool {
    ||| exists|k: int| 0 <= k < index.len() && contains_path(#[trigger] index[k].path@, path, false)
    ||| exists|end: int| 0 <= end < path.len() && #[trigger] path[end] == SLASH
        && (claimed_at(index, path.take(end)) || claimed_at(index, path.take(end + 1)))
}

/// Whether `index` tracks anything at or below `path`, or claims `path` through a gitlink or
/// sparse directory above it.
pub open spec fn tracks(index: Seq<IndexEntry>, path: Seq<u8>, ignore_case: bool) -> bool {
    if ignore_case { tracked_ignoring_case(index, path) } else { tracked_exactly(index, path) }
}

fn same_byte_exec(a: u8, b: u8, ignore_case: bool) -> (r: bool)
    ensures
        r == same_byte(a, b, ignore_case),
{
    if ignore_case {
        let la: u8 = if 65 <= a && a <= 90 { a + 32 } else { a };
        let lb: u8 = if 65 <= b && b <= 90 { b + 32 } else { b };
        la == lb
    } else {
        a == b
    }
}

/// Whether the first `entry_len` bytes of `entry` are, as a path, the first `directory_len`
/// bytes of `directory` or lie within them.
fn contains_prefix(entry: &Vec<u8>, entry_len: usize, directory: &Vec<u8>, directory_len: usize, ignore_case: bool) -> (r: bool)
    requires
        entry_len <= entry@.len(),
        directory_len <= directory@.len(),
    ensures
        r == contains_path(entry@.take(entry_len as int), directory@.take(directory_len as int), ignore_case),
{
    let ghost e = entry@.take(entry_len as int);
    let ghost d = directory@.take(directory_len as int);
    if directory_len > entry_len {
        return false;
    }
    let mut i: usize = 0;
    while i < directory_len
        invariant
            i <= directory_len <= entry_len <= entry@.len(),
            directory_len <= directory@.len(),
            e == entry@.take(entry_len as int),
            d == directory@.take(directory_len as int),
            forall|j: int| 0 <= j < i ==> same_byte(#[trigger] e[j], d[j], ignore_case),
        decreases directory_len - i,
    {
        if !same_byte_exec(entry[i], directory[i], ignore_case) {
            assert(!same_byte(e[i as int], d[i as int], ignore_case));
            return false;
        }
        i = i + 1;
    }
    entry_len == directory_len || entry[directory_len] == SLASH
}

proof fn lemma_trim_prefix(path: Seq<u8>, n: int)
    requires
        0 < n <= path.len(),
        path[n - 1] == SLASH,
    ensures
        trim_slashes(path.take(n)) == trim_slashes(path.take(n - 1)),
{
    assert(path.take(n).drop_last() =~= path.take(n - 1));
}

/// How many bytes of `path` remain once the slashes it ends with are dropped.
fn trimmed_len(path: &Vec<u8>) -> (n: usize)
    ensures
        n <= path@.len(),
        path@.take(n as int) == trim_slashes(path@),
{
    let mut n = path.len();
    assert(path@.take(n as int) =~= path@);
    while n > 0 && path[n - 1] == SLASH
        invariant
            n <= path@.len(),
            trim_slashes(path@.take(n as int)) == trim_slashes(path@),
        decreases n,
    {
        proof {
            lemma_trim_prefix(path@, n as int);
        }
        n = n - 1;
    }
    n
}

/// Whether an entry of `index` at exactly the first `len` bytes of `path` is a gitlink or sparse
/// directory.
fn claimed_at_prefix(index: &Vec<IndexEntry>, path: &Vec<u8>, len: usize) -> (r: bool)
    requires
        len <= path@.len(),
    ensures
        r == claimed_at(index@, path@.take(len as int)),
{
    let ghost p = path@.take(len as int);
    let mut k: usize = 0;
    while k < index.len()
        invariant
            k <= index@.len(),
            len <= path@.len(),
            p == path@.take(len as int),
            forall|j: int| 0 <= j < k ==> !(#[trigger] index@[j].path@ == p && claims_below(index@[j])),
        decreases index@.len() - k,
    {
        let entry = &index[k];
        if (entry.sparse || entry.submodule) && entry.path.len() == len
            && contains_prefix(&entry.path, len, path, len, false) {
            assert(entry.path@.take(len as int) =~= entry.path@);
            assert(entry.path@ =~= p);
            return true;
        }
        proof {
            if index@[k as int].path@ == p && claims_below(index@[k as int]) {
                assert(entry.path@.take(len as int) =~= entry.path@);
                assert(contains_path(entry.path@.take(len as int), p, false));
            }
        }
        k = k + 1;
    }
    false
}

fn tracked_ignoring_case_exec(index: &Vec<IndexEntry>, path: &Vec<u8>) -> (r: bool)
    ensures
        r == tracked_ignoring_case(index@, path@),
{
    let n = path.len();
    assert(path@.take(n as int) =~= path@);
    let mut k: usize = 0;
    while k < index.len()
        invariant
            k <= index@.len(),
            n == path@.len(),
            path@.take(n as int) == path@,
            forall|j: int| 0 <= j < k ==> {
                let entry = trim_slashes(#[trigger] index@[j].path@);
                !(contains_path(entry, path@, true) || (claims_below(index@[j]) && contains_path(path@, entry, true)))
            },
        decreases index@.len() - k,
    {
        let entry = &index[k];
        let len = trimmed_len(&entry.path);
        let below = contains_prefix(&entry.path, len, path, n, true);
        let above = (entry.sparse || entry.submodule) && contains_prefix(path, n, &entry.path, len, true);
        if below || above {
            return true;
        }
        k = k + 1;
    }
    false
}

fn tracked_exactly_exec(index: &Vec<IndexEntry>, path: &Vec<u8>) -> (r: bool)
    ensures
        r == tracked_exactly(index@, path@),
{
    let n = path.len();
    assert(path@.take(n as int) =~= path@);
    let mut k: usize = 0;
    while k < index.len()
        invariant
            k <= index@.len(),
            n == path@.len(),
            path@.take(n as int) == path@,
            forall|j: int| 0 <= j < k ==> !contains_path(#[trigger] index@[j].path@, path@, false),
        decreases index@.len() - k,
    {
        let entry = &index[k];
        let len = entry.path.len();
        assert(entry.path@.take(len as int) =~= entry.path@);
        if contains_prefix(&entry.path, len, path, n, false) {
            return true;
        }
        k = k + 1;
    }
    let mut end: usize = 0;
    while end < n
        invariant
            end <= n == path@.len(),
            forall|j: int| 0 <= j < k ==> !contains_path(#[trigger] index@[j].path@, path@, false),
            k == index@.len(),
            forall|e: int| 0 <= e < end && #[trigger] path@[e] == SLASH
                ==> !(claimed_at(index@, path@.take(e)) || claimed_at(index@, path@.take(e + 1))),
        decreases n - end,
    {
        if path[end] == SLASH {
            if claimed_at_prefix(index, path, end) || claimed_at_prefix(index, path, end + 1) {
                return true;
            }
        }
        end = end + 1;
    }
    false
}

/// Whether `index` tracks anything at or below `path`, or claims it through a gitlink or sparse
/// directory above it; with `ignore_case`, paths are compared in any ASCII case and entries are
/// taken without their trailing slashes.
pub fn has_tracked_paths(index: &Vec<IndexEntry>, path: &Vec<u8>, ignore_case: bool) -> (r: bool)
    ensures
        r == tracks(index@, path@, ignore_case),
{
    if ignore_case {
        tracked_ignoring_case_exec(index, path)
    } else {
        tracked_exactly_exec(index, path)
    }
}

} // verus!
