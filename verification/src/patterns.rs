//! Ignore patterns in the syntax of `.gitignore` files, read from one or more files, the later
//! files taking precedence, and what they exclude.
use vstd::prelude::*;
use bstr::ByteSlice;
use crate::diff::texts;
use crate::hub::starts_with_path;
use crate::clean::{pattern_relative, pattern_relative_path, within_candidate};

verus! {

/// The search for ignore patterns of `gix-ignore`.
#[verifier::external_type_specification]
#[verifier::external_body]
pub struct ExSearch(gix_ignore::Search);

/// The contents of the pattern files that `search` holds, in the order they were added.
pub uninterp spec fn search_buffers(search: gix_ignore::Search) -> Seq<Seq<u8>>;

/// How many patterns the pattern file with contents `buffer` holds: comments and blank lines hold
/// none.
pub uninterp spec fn patterns_in(buffer: Seq<u8>) -> nat;

/// What the pattern files `buffers` say of the relative path made of `components`, a directory
/// where `is_dir` holds: `None` where no pattern matches it, else whether the pattern that decides,
/// the last matching one of the last file with one, negates.
pub uninterp spec fn pattern_verdict(buffers: Seq<Seq<u8>>, components: Seq<Seq<char>>, is_dir: bool) -> Option<bool>;

/// A search without patterns: `gix_ignore::Search::default`.
#[verifier::external_body]
fn empty_search() -> (r: gix_ignore::Search)
    ensures
        search_buffers(r) == Seq::<Seq<u8>>::empty(),
{
    gix_ignore::Search::default()
}

/// `gix_ignore::Search::add_patterns_buffer` with `bytes`, no source and no root: the file's
/// patterns are added after the others. Without a root the call does not fail.
#[verifier::external_body]
fn add_buffer(search: &mut gix_ignore::Search, bytes: &Vec<u8>) -> (r: bool)
    ensures
        r,
        search_buffers(*final(search)) == search_buffers(*old(search)).push(bytes@),
{
    search.add_patterns_buffer(bytes.as_slice(), std::path::PathBuf::new(), None, gix_ignore::search::Ignore::default()).is_ok()
}

/// The number of patterns of each list of `search`, in order: the lengths of the lists of
/// `Search::patterns`, one list for each file added.
#[verifier::external_body]
fn list_lengths(search: &gix_ignore::Search) -> (r: Vec<usize>)
    ensures
        r@.len() == search_buffers(*search).len(),
        forall|k: int| 0 <= k < r@.len() ==> r@[k] == patterns_in(#[trigger] search_buffers(*search)[k]),
{
    search.patterns.iter().map(|list| list.patterns.len()).collect()
}

/// Whether one of the pattern files `buffers` holds a pattern.
pub open spec fn has_patterns(buffers: Seq<Seq<u8>>) -> bool {
    exists|k: int| 0 <= k < buffers.len() && patterns_in(#[trigger] buffers[k]) != 0
}

/// `Search::pattern_matching_relative_path` on the components joined by `/`, case-sensitively,
/// reporting whether the matching pattern negates.
#[verifier::external_body]
fn matching_pattern(search: &gix_ignore::Search, components: &Vec<String>, is_dir: bool) -> (r: Option<bool>)
    ensures
        r == pattern_verdict(search_buffers(*search), texts(components@), is_dir),
{
    let path = components.join("/");
    search
        .pattern_matching_relative_path(path.as_bytes().as_bstr(), Some(is_dir), gix_ignore::glob::pattern::Case::Sensitive)
        .map(|found| found.pattern.is_negative())
}

/// The contents of `buffers`, in order.
pub open spec fn contents(buffers: Seq<Vec<u8>>) -> Seq<Seq<u8>> {
    buffers.map_values(|b: Vec<u8>| b@)
}

/// Ignore patterns read from files.
pub struct IgnorePatterns {
    /// The patterns, in the order of their files.
    search: gix_ignore::Search,
}

impl IgnorePatterns {
    /// The contents of the pattern files, in order.
    pub closed spec fn buffers(&self) -> Seq<Seq<u8>> {
        search_buffers(self.search)
    }

    /// Whether the patterns exclude `relative`, a path made of components relative to where the
    /// patterns apply, a directory where `is_dir` holds: the empty path never is excluded; another
    /// is where the pattern that decides does not negate.
    pub open spec fn excludes(&self, relative: Seq<Seq<char>>, is_dir: bool) -> bool {
        relative.len() != 0 && pattern_verdict(self.buffers(), relative, is_dir) == Some(false)
    }

    /// The patterns of the pattern files with the contents `buffers`, in order, or `None` where
    /// they hold no pattern at all.
    pub fn from_buffers(buffers: &Vec<Vec<u8>>) -> (r: Option<IgnorePatterns>)
        ensures
            r is Some <==> has_patterns(contents(buffers@)),
            r matches Some(p) ==> p.buffers() == contents(buffers@),
    {
        let mut search = empty_search();
        let mut i: usize = 0;
        while i < buffers.len()
            invariant
                i <= buffers@.len(),
                search_buffers(search) == contents(buffers@).take(i as int),
            decreases buffers@.len() - i,
        {
            add_buffer(&mut search, &buffers[i]);
            i = i + 1;
            assert(contents(buffers@).take(i as int) =~= contents(buffers@).take(i - 1).push(buffers@[i - 1]@));
        }
        assert(contents(buffers@).take(buffers@.len() as int) =~= contents(buffers@));
        let lengths = list_lengths(&search);
        let mut k: usize = 0;
        while k < lengths.len()
            invariant
                k <= lengths@.len() == search_buffers(search).len(),
                search_buffers(search) == contents(buffers@),
                forall|j: int| 0 <= j < lengths@.len() ==> lengths@[j] == patterns_in(#[trigger] search_buffers(search)[j]),
                forall|j: int| 0 <= j < k ==> patterns_in(#[trigger] search_buffers(search)[j]) == 0,
            decreases lengths@.len() - k,
        {
            if lengths[k] != 0 {
                assert(patterns_in(contents(buffers@)[k as int]) != 0);
                return Some(IgnorePatterns { search });
            }
            k = k + 1;
        }
        None
    }

    /// Whether the patterns exclude `relative`; see [`IgnorePatterns::excludes`].
    pub fn is_excluded(&self, relative: &Vec<String>, is_dir: bool) -> (r: bool)
        ensures
            r == self.excludes(texts(relative@), is_dir),
    {
        if relative.len() == 0 {
            return false;
        }
        matching_pattern(&self.search, relative, is_dir) == Some(false)
    }

    /// Whether the patterns exclude the input path `path`, a directory where `is_dir` holds, as
    /// the walk resolves it: relative paths as they are, other paths below the current directory
    /// `cwd`; an input path outside of it is seen as the empty path, which is not excluded.
    pub fn excludes_input_path(&self, path: &Vec<String>, relative: bool, cwd: &Vec<String>, is_dir: bool) -> (r: bool)
        ensures
            r == match pattern_relative(texts(path@), relative, texts(cwd@), texts(path@)) {
                Some(p) => self.excludes(p, is_dir),
                None => false,
            },
    {
        match pattern_relative_path(path, relative, cwd, path) {
            Some(p) => self.is_excluded(&p, is_dir),
            None => false,
        }
    }
}

/// Whether the walk leaves out the entry at `path` (a relative path where `relative` holds), a
/// directory where `is_dir` holds: there are `patterns` and a `pattern_root` for the entry's
/// walk root, and the patterns exclude the path seen relative to `cwd` or else to the pattern
/// root.
pub fn excludes_entry(patterns: &Option<IgnorePatterns>, pattern_root: &Option<Vec<String>>, path: &Vec<String>, relative: bool, cwd: &Vec<String>, is_dir: bool) -> (r: bool)
    ensures
        r == match (patterns, pattern_root) {
            (Some(p), Some(root)) => match pattern_relative(texts(path@), relative, texts(cwd@), texts(root@)) {
                Some(seen) => p.excludes(seen, is_dir),
                None => false,
            },
            _ => false,
        },
{
    match (patterns, pattern_root) {
        (Some(p), Some(root)) => match pattern_relative_path(path, relative, cwd, root) {
            Some(seen) => p.is_excluded(&seen, is_dir),
            None => false,
        },
        _ => false,
    }
}

/// Whether discovery leaves out `path`, a canonical path searched from `root` with the current
/// directory `cwd`: it lies within one of the directories `ignore_dirs`, or `patterns` exclude
/// it as a directory, seen relative to `cwd` or else to `root`.
pub fn is_excluded(path: &Vec<String>, root: &Vec<String>, cwd: &Vec<String>, ignore_dirs: &Vec<Vec<String>>, patterns: &Option<IgnorePatterns>) -> (r: bool)
    ensures
        r == ((exists|k: int| 0 <= k < ignore_dirs@.len() && starts_with_path(texts(path@), texts(#[trigger] ignore_dirs@[k]@)))
            || match patterns {
                Some(p) => match pattern_relative(texts(path@), false, texts(cwd@), texts(root@)) {
                    Some(relative) => p.excludes(relative, true),
                    None => false,
                },
                None => false,
            }),
{
    if within_candidate(path, ignore_dirs) {
        return true;
    }
    match patterns {
        Some(p) => match pattern_relative_path(path, false, cwd, root) {
            Some(relative) => p.is_excluded(&relative, true),
            None => false,
        },
        None => false,
    }
}

} // verus!
