//! Heuristics for cleaning up common project directories: whether a directory's entries match
//! a heuristic's rules.
use vstd::prelude::*;
use vstd::string::StringExecFns;
use gix_glob::{wildmatch, Pattern};
use crate::keys::{chars_of, split_by, split_on, trimmed, trimmed_of, views};
use crate::clean::lower;

verus! {

/// A heuristic for cleaning up directories.
#[derive(Clone, Debug)]
pub struct Heuristic {
    /// Name of the heuristic.
    pub name: String,
    /// Description of the heuristic.
    pub description: String,
    /// Whether the heuristic is enabled.
    pub enabled: bool,
    /// Rules to match the heuristic: every group must match, and a group matches where one of
    /// its `|`-separated rules does. `-f name` asks for a file, where `*` and `?` make the name
    /// a glob pattern, and `-d name` for a directory.
    pub match_rules: Vec<String>,
    /// Patterns to clean up.
    pub patterns: Vec<String>,
}

/// Configuration for heuristics.
#[derive(Clone, Debug)]
pub struct HeuristicConfig {
    /// List of heuristics.
    pub heuristics: Vec<Heuristic>,
}

/// An entry of the directory a heuristic looks at.
#[derive(Clone, Debug)]
pub struct NamedEntry {
    /// Whether it is a directory.
    pub is_dir: bool,
    /// Its file name.
    pub name: String,
}

/// Whether `pattern` parses as a `gix-glob` pattern, and if so whether it matches `name`:
/// `Pattern::from_bytes(pattern)` and `Pattern::matches(name, mode)`, where `mode` is
/// `wildmatch::Mode::IGNORE_CASE` if `ignore_case` and `wildmatch::Mode::empty()` otherwise.
/// Named, not restated.
pub uninterp spec fn glob_match(pattern: Seq<char>, name: Seq<char>, ignore_case: bool) -> Option<bool>;

/// Parse `pattern` with `gix_glob::Pattern::from_bytes` and match `name` against it with
/// `Pattern::matches`, ignoring case if `ignore_case`; `None` where the pattern does not parse.
#[verifier::external_body]
fn glob_matches(pattern: &str, name: &str, ignore_case: bool) -> (r: Option<bool>)
    ensures
        r == glob_match(pattern@, name@, ignore_case),
{
    let mode = if ignore_case { wildmatch::Mode::IGNORE_CASE } else { wildmatch::Mode::empty() };
    match Pattern::from_bytes(pattern.as_bytes()) {
        Some(parsed) => Some(parsed.matches(bstr::BStr::new(name.as_bytes()), mode)),
        None => None,
    }
}

/// Whether `s` begins with `prefix`.
pub open spec fn starts_with(s: Seq<char>, prefix: Seq<char>) -> bool {
    s.len() >= prefix.len() && s.subrange(0, prefix.len() as int) == prefix
}

/// Whether two names are equal, or, if `ignore_case`, equal but for the case of ASCII letters.
pub open spec fn same_name(a: Seq<char>, b: Seq<char>, ignore_case: bool) -> bool {
    if ignore_case {
        a.len() == b.len() && forall|i: int| 0 <= i < a.len() ==> lower(a[i]) == lower(b[i])
    } else {
        a == b
    }
}

/// Whether some entry is a file, or a directory, whose name is `name`.
pub open spec fn any_entry(entries: Seq<(bool, Seq<char>)>, directory: bool, name: Seq<char>, ignore_case: bool) -> bool {
    exists|i: int| 0 <= i < entries.len() && #[trigger] entries[i].0 == directory && same_name(entries[i].1, name, ignore_case)
}

/// Whether some file's name matches the glob `pattern`, where it parses.
pub open spec fn any_file_globbed(entries: Seq<(bool, Seq<char>)>, pattern: Seq<char>, ignore_case: bool) -> bool {
    exists|i: int| 0 <= i < entries.len() && !#[trigger] entries[i].0 && glob_match(pattern, entries[i].1, ignore_case) == Some(true)
}

/// Whether a single rule matches: `-f name` a file of that name, or of a name matching it where
/// it holds `*` or `?`; `-d name` a directory of that name; any other rule nothing. Names are
/// compared ignoring the case of ASCII letters if `ignore_case`, as on case-insensitive
/// filesystems.
pub open spec fn rule_matches(rule: Seq<char>, entries: Seq<(bool, Seq<char>)>, ignore_case: bool) -> bool {
    if starts_with(rule, "-f "@) {
        let file_name = rule.skip(3);
        if file_name.contains('*') || file_name.contains('?') {
            any_file_globbed(entries, file_name, ignore_case)
        } else {
            any_entry(entries, false, file_name, ignore_case)
        }
    } else if starts_with(rule, "-d "@) {
        any_entry(entries, true, rule.skip(3), ignore_case)
    } else {
        false
    }
}

/// Whether one of the `|`-separated, trimmed rules of `group` matches.
pub open spec fn group_matches(group: Seq<char>, entries: Seq<(bool, Seq<char>)>, ignore_case: bool) -> bool {
    exists|i: int| 0 <= i < split_by(group, '|').len() && #[trigger] rule_matches(trimmed(split_by(group, '|')[i]), entries, ignore_case)
}

/// Whether an enabled heuristic's every rule group matches `entries`.
pub open spec fn heuristic_matches(enabled: bool, groups: Seq<Seq<char>>, entries: Seq<(bool, Seq<char>)>, ignore_case: bool) -> bool {
    enabled && forall|i: int| 0 <= i < groups.len() ==> #[trigger] group_matches(groups[i], entries, ignore_case)
}

/// The kind and name of each entry.
pub open spec fn entries_view(entries: Seq<NamedEntry>) -> Seq<(bool, Seq<char>)> {
    entries.map_values(|e: NamedEntry| (e.is_dir, e.name@))
}

fn lower_char(c: char) -> (r: char)
    ensures
        r == lower(c),
{
    if 'A' <= c && c <= 'Z' { ((c as u8) + 32) as char } else { c }
}

fn names_equal(a: &[char], b: &str, ignore_case: bool) -> (r: bool)
    ensures
        r == same_name(b@, a@, ignore_case),
{
    let n = b.unicode_len();
    if a.len() != n {
        return false;
    }
    let mut i: usize = 0;
    while i < n
        invariant
            i <= n == b@.len() == a@.len(),
            forall|j: int| 0 <= j < i ==> if ignore_case { lower(b@[j]) == lower(a@[j]) } else { a@[j] == b@[j] },
        decreases n - i,
    {
        let x = a[i];
        let y = b.get_char(i);
        let same = if ignore_case { lower_char(y) == lower_char(x) } else { x == y };
        if !same {
            return false;
        }
        i = i + 1;
    }
    if !ignore_case {
        assert(a@ =~= b@);
    }
    true
}

fn find_entry(entries: &Vec<NamedEntry>, directory: bool, name: &[char], ignore_case: bool) -> (r: bool)
    ensures
        r == any_entry(entries_view(entries@), directory, name@, ignore_case),
{
    let ghost v = entries_view(entries@);
    let mut i: usize = 0;
    while i < entries.len()
        invariant
            i <= entries@.len(),
            v == entries_view(entries@),
            forall|j: int| 0 <= j < i ==> !(#[trigger] v[j].0 == directory && same_name(v[j].1, name@, ignore_case)),
        decreases entries@.len() - i,
    {
        assert(v[i as int] == (entries@[i as int].is_dir, entries@[i as int].name@));
        if entries[i].is_dir == directory && names_equal(name, entries[i].name.as_str(), ignore_case) {
            assert(v[i as int].0 == directory && same_name(v[i as int].1, name@, ignore_case));
            return true;
        }
        i = i + 1;
    }
    false
}

fn find_globbed_file(entries: &Vec<NamedEntry>, pattern: &str, ignore_case: bool) -> (r: bool)
    ensures
        r == any_file_globbed(entries_view(entries@), pattern@, ignore_case),
{
    let ghost v = entries_view(entries@);
    let mut i: usize = 0;
    while i < entries.len()
        invariant
            i <= entries@.len(),
            v == entries_view(entries@),
            forall|j: int| 0 <= j < i ==> !(!#[trigger] v[j].0 && glob_match(pattern@, v[j].1, ignore_case) == Some(true)),
        decreases entries@.len() - i,
    {
        assert(v[i as int] == (entries@[i as int].is_dir, entries@[i as int].name@));
        if !entries[i].is_dir {
            match glob_matches(pattern, entries[i].name.as_str(), ignore_case) {
                Some(true) => {
                    assert(!v[i as int].0 && glob_match(pattern@, v[i as int].1, ignore_case) == Some(true));
                    return true;
                },
                _ => {},
            }
        }
        i = i + 1;
    }
    false
}

fn has_wildcard(s: &[char]) -> (r: bool)
    ensures
        r == (s@.contains('*') || s@.contains('?')),
{
    let mut i: usize = 0;
    while i < s.len()
        invariant
            i <= s@.len(),
            forall|j: int| 0 <= j < i ==> s@[j] != '*' && s@[j] != '?',
        decreases s@.len() - i,
    {
        if s[i] == '*' || s[i] == '?' {
            assert(s@[i as int] == s[i as int]);
            return true;
        }
        i = i + 1;
    }
    false
}

fn starts_with_tag(rule: &[char], tag: char) -> (r: bool)
    ensures
        r == starts_with(rule@, seq!['-', tag, ' ']),
{
    let r = rule.len() >= 3 && rule[0] == '-' && rule[1] == tag && rule[2] == ' ';
    proof {
        if rule@.len() >= 3 {
            if r {
                assert(rule@.subrange(0, 3) =~= seq!['-', tag, ' ']);
            } else {
                assert(rule@.subrange(0, 3)[0] == rule@[0]);
                assert(rule@.subrange(0, 3)[1] == rule@[1]);
                assert(rule@.subrange(0, 3)[2] == rule@[2]);
            }
        }
    }
    r
}

fn rule_matches_of(rule: &[char], entries: &Vec<NamedEntry>, ignore_case: bool) -> (r: bool)
    ensures
        r == rule_matches(rule@, entries_view(entries@), ignore_case),
{
    proof {
        reveal_strlit("-f ");
        reveal_strlit("-d ");
        assert("-f "@ =~= seq!['-', 'f', ' ']);
        assert("-d "@ =~= seq!['-', 'd', ' ']);
    }
    if starts_with_tag(rule, 'f') {
        let rest = vstd::slice::slice_subrange(rule, 3, rule.len());
        assert(rest@ =~= rule@.skip(3));
        if has_wildcard(rest) {
            let pattern = crate::keys::string_of(rest);
            find_globbed_file(entries, pattern.as_str(), ignore_case)
        } else {
            find_entry(entries, false, rest, ignore_case)
        }
    } else if starts_with_tag(rule, 'd') {
        let rest = vstd::slice::slice_subrange(rule, 3, rule.len());
        assert(rest@ =~= rule@.skip(3));
        find_entry(entries, true, rest, ignore_case)
    } else {
        false
    }
}

fn group_matches_of(group: &String, entries: &Vec<NamedEntry>, ignore_case: bool) -> (r: bool)
    ensures
        r == group_matches(group@, entries_view(entries@), ignore_case),
{
    let chars = chars_of(group.as_str());
    let rules = split_on(chars.as_slice(), '|');
    let ghost pieces = split_by(group@, '|');
    let mut i: usize = 0;
    while i < rules.len()
        invariant
            i <= rules@.len(),
            views(rules@) == pieces,
            pieces == split_by(group@, '|'),
            forall|j: int| 0 <= j < i ==> !#[trigger] rule_matches(trimmed(pieces[j]), entries_view(entries@), ignore_case),
        decreases rules@.len() - i,
    {
        assert(pieces[i as int] == rules@[i as int]@);
        let rule = trimmed_of(rules[i].as_slice());
        if rule_matches_of(rule.as_slice(), entries, ignore_case) {
            return true;
        }
        i = i + 1;
    }
    false
}

impl Heuristic {
    /// Whether the heuristic matches a directory with `entries`, comparing names without
    /// regard to the case of ASCII letters if `ignore_case`, as Windows and macOS do; see
    /// [`heuristic_matches`].
    pub fn matches(&self, entries: &Vec<NamedEntry>, ignore_case: bool) -> (r: bool)
        ensures
            r == heuristic_matches(self.enabled, self.match_rules@.map_values(|g: String| g@), entries_view(entries@), ignore_case),
    {
        if !self.enabled {
            return false;
        }
        let ghost groups = self.match_rules@.map_values(|g: String| g@);
        let mut i: usize = 0;
        while i < self.match_rules.len()
            invariant
                i <= self.match_rules@.len(),
                groups == self.match_rules@.map_values(|g: String| g@),
                forall|j: int| 0 <= j < i ==> #[trigger] group_matches(groups[j], entries_view(entries@), ignore_case),
            decreases self.match_rules@.len() - i,
        {
            assert(groups[i as int] == self.match_rules@[i as int]@);
            if !group_matches_of(&self.match_rules[i], entries, ignore_case) {
                return false;
            }
            i = i + 1;
        }
        true
    }
}

} // verus!
