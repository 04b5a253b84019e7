//! Decisions of cleanup discovery: which directory names are cleanup candidates, which entries a
//! directory listing keeps, and where the search descends.
use vstd::prelude::*;
use vstd::string::StringExecFns;
use crate::diff::{
    compare_components, components_order, lemma_components_equal, lemma_components_order_flips,
    lemma_components_order_reflexive,
    lemma_components_order_transitive, texts, KeyOrder,
};
use crate::hub::starts_with_path;

verus! {

/// The directory names that are cleanup candidates.
pub open spec fn cleanup_dir_names() -> Seq<Seq<char>> {
    seq![".mypy_cache"@, ".pytest_cache"@, ".ruff_cache"@, ".tox"@, ".venv"@, ".zig-cache"@,
        "__pycache__"@, "node_modules"@, "target"@, "venv"@, "zig-cache"@, "zig-out"@]
}

/// `c` with ASCII capitals turned into small letters.
pub open spec fn lower(c: char) -> char {
    if 'A' <= c && c <= 'Z' { ((c as u32) + 32) as char } else { c }
}

/// Whether `name` is `.git` in any ASCII case.
pub open spec fn git_dir_name(name: Seq<char>) -> bool {
    name.len() == 4 && lower(name[0]) == '.' && lower(name[1]) == 'g' && lower(name[2]) == 'i' && lower(name[3]) == 't'
}

/// Whether two texts are equal, character by character.
pub(crate) fn text_equals(a: &str, b: &str) -> (r: bool)
    ensures
        r == (a@ == b@),
{
    let n = a.unicode_len();
    if n != b.unicode_len() {
        return false;
    }
    let mut i: usize = 0;
    while i < n
        invariant
            i <= n == a@.len() == b@.len(),
            forall|j: int| 0 <= j < i ==> a@[j] == b@[j],
        decreases n - i,
    {
        if a.get_char(i) != b.get_char(i) {
            return false;
        }
        i = i + 1;
    }
    assert(a@ =~= b@);
    true
}

fn lower_char(c: char) -> (r: char)
    ensures
        r == lower(c),
{
    if 'A' <= c && c <= 'Z' { ((c as u8) + 32) as char } else { c }
}

/// The cleanup directory names are exactly these twelve.
pub proof fn law_cleanup_names_are_the_known_ones(name: Seq<char>)
    ensures
        cleanup_dir_names().contains(name) <==> (name == ".mypy_cache"@ || name == ".pytest_cache"@
            || name == ".ruff_cache"@ || name == ".tox"@ || name == ".venv"@ || name == ".zig-cache"@
            || name == "__pycache__"@ || name == "node_modules"@ || name == "target"@ || name == "venv"@
            || name == "zig-cache"@ || name == "zig-out"@),
{
    let names = cleanup_dir_names();
    if names.contains(name) {
        let k = choose|k: int| 0 <= k < names.len() && names[k] == name;
        assert(names[k] == name);
    }
    assert(names[0] == ".mypy_cache"@);
    assert(names[1] == ".pytest_cache"@);
    assert(names[2] == ".ruff_cache"@);
    assert(names[3] == ".tox"@);
    assert(names[4] == ".venv"@);
    assert(names[5] == ".zig-cache"@);
    assert(names[6] == "__pycache__"@);
    assert(names[7] == "node_modules"@);
    assert(names[8] == "target"@);
    assert(names[9] == "venv"@);
    assert(names[10] == "zig-cache"@);
    assert(names[11] == "zig-out"@);
}

/// Whether `name` is a Git administrative directory, `.git` in any ASCII case, which cleanup
/// never enters, also on case-sensitive disks.
pub fn is_git_dir_name(name: &str) -> (r: bool)
    ensures
        r == git_dir_name(name@),
{
    name.unicode_len() == 4 && lower_char(name.get_char(0)) == '.' && lower_char(name.get_char(1)) == 'g'
        && lower_char(name.get_char(2)) == 'i' && lower_char(name.get_char(3)) == 't'
}

/// Whether a directory name is a known cleanup candidate.
pub fn is_cleanup_dir_name(name: &str) -> (r: bool)
    ensures
        r == cleanup_dir_names().contains(name@),
        r <==> (name@ == ".mypy_cache"@ || name@ == ".pytest_cache"@ || name@ == ".ruff_cache"@
            || name@ == ".tox"@ || name@ == ".venv"@ || name@ == ".zig-cache"@ || name@ == "__pycache__"@
            || name@ == "node_modules"@ || name@ == "target"@ || name@ == "venv"@ || name@ == "zig-cache"@
            || name@ == "zig-out"@),
{
    proof {
        law_cleanup_names_are_the_known_ones(name@);
    }
    let candidates: [&str; 12] = [".mypy_cache", ".pytest_cache", ".ruff_cache", ".tox", ".venv", ".zig-cache",
        "__pycache__", "node_modules", "target", "venv", "zig-cache", "zig-out"];
    let ghost names = cleanup_dir_names();
    assert(candidates@.map_values(|s: &str| s@) =~= names);
    let mut i: usize = 0;
    while i < 12
        invariant
            i <= 12,
            names == cleanup_dir_names(),
            candidates@.map_values(|s: &str| s@) == names,
            forall|j: int| 0 <= j < i ==> names[j] != name@,
        decreases 12 - i,
    {
        assert(candidates@[i as int]@ == names[i as int]);
        if text_equals(candidates[i], name) {
            assert(names[i as int] == name@);
            return true;
        }
        i = i + 1;
    }
    assert(!names.contains(name@)) by {
        if names.contains(name@) {
            let k = choose|k: int| 0 <= k < names.len() && names[k] == name@;
            assert(names[k] != name@);
        }
    }
    false
}

/// What decides whether a directory found by discovery qualifies as a cleanup candidate.
#[derive(Clone, Copy, Debug, PartialEq, Eq, Structural)]
pub enum Qualification {
    /// It qualifies.
    Qualifies,
    /// It does not qualify.
    Rejected,
    /// It qualifies if its parent directory holds a regular file `Cargo.toml`.
    IfParentHasCargoManifest,
    /// It qualifies if it holds a regular file `pyvenv.cfg`.
    IfVirtualEnvironment,
}

/// Whether a directory named `name` qualifies: a cleanup name, where `target` needs a Cargo
/// manifest beside it (known from the parent's listing where that was read), and `.venv` and
/// `venv` need a virtual environment's configuration inside.
pub open spec fn qualification_of(name: Seq<char>, parent_has_cargo: Option<bool>) -> Qualification {
    if !cleanup_dir_names().contains(name) {
        Qualification::Rejected
    } else if name == "target"@ {
        match parent_has_cargo {
            Some(true) => Qualification::Qualifies,
            Some(false) => Qualification::Rejected,
            None => Qualification::IfParentHasCargoManifest,
        }
    } else if name == ".venv"@ || name == "venv"@ {
        Qualification::IfVirtualEnvironment
    } else {
        Qualification::Qualifies
    }
}

/// Whether a directory named `name` qualifies; see [`qualification_of`].
pub fn qualification(name: &str, parent_has_cargo: Option<bool>) -> (r: Qualification)
    ensures
        r == qualification_of(name@, parent_has_cargo),
{
    if !is_cleanup_dir_name(name) {
        Qualification::Rejected
    } else if text_equals(name, "target") {
        match parent_has_cargo {
            Some(true) => Qualification::Qualifies,
            Some(false) => Qualification::Rejected,
            None => Qualification::IfParentHasCargoManifest,
        }
    } else if text_equals(name, ".venv") || text_equals(name, "venv") {
        Qualification::IfVirtualEnvironment
    } else {
        Qualification::Qualifies
    }
}

/// An entry of a directory listing read during discovery.
#[derive(Clone, Debug)]
pub struct ListedEntry {
    /// The entry's file name.
    pub name: String,
    /// Whether it is a directory.
    pub is_dir: bool,
    /// Whether it is a regular file.
    pub is_file: bool,
}

/// Whether discovery keeps a listed entry: directories, and the files that mark projects and
/// repositories.
pub open spec fn kept_in_listing(name: Seq<char>, is_dir: bool) -> bool {
    is_dir || name == "Cargo.toml"@ || name == "pyvenv.cfg"@ || name == "HEAD"@ || name == ".git"@
}

/// Whether discovery keeps a listed entry; see [`kept_in_listing`].
pub fn keeps_listed_entry(name: &str, is_dir: bool) -> (r: bool)
    ensures
        r == kept_in_listing(name@, is_dir),
{
    is_dir || text_equals(name, "Cargo.toml") || text_equals(name, "pyvenv.cfg") || text_equals(name, "HEAD")
        || text_equals(name, ".git")
}

/// Whether `entries` has an entry `name` that is a directory, or a regular file.
pub open spec fn listing_has(entries: Seq<ListedEntry>, name: Seq<char>, directory: bool) -> bool {
    exists|i: int| 0 <= i < entries.len() && #[trigger] entries[i].name@ == name
        && (if directory { entries[i].is_dir } else { entries[i].is_file })
}

/// Whether `entries` has an entry `name` that is a directory, or a regular file.
pub fn has_listed(entries: &Vec<ListedEntry>, name: &str, directory: bool) -> (r: bool)
    ensures
        r == listing_has(entries@, name@, directory),
{
    let mut i: usize = 0;
    while i < entries.len()
        invariant
            i <= entries@.len(),
            forall|j: int| 0 <= j < i ==> !(#[trigger] entries@[j].name@ == name@
                && (if directory { entries@[j].is_dir } else { entries@[j].is_file })),
        decreases entries@.len() - i,
    {
        let e = &entries[i];
        if text_equals(e.name.as_str(), name) && (if directory { e.is_dir } else { e.is_file }) {
            return true;
        }
        i = i + 1;
    }
    false
}

/// Whether a listing is that of a bare repository, whose contents are administrative: it has a
/// `HEAD` file and `objects` and `refs` directories.
pub open spec fn bare_repository(entries: Seq<ListedEntry>) -> bool {
    listing_has(entries, "HEAD"@, false) && listing_has(entries, "objects"@, true) && listing_has(entries, "refs"@, true)
}

/// Whether a listing is that of a bare repository; see [`bare_repository`].
pub fn is_bare_repository(entries: &Vec<ListedEntry>) -> (r: bool)
    ensures
        r == bare_repository(entries@),
{
    has_listed(entries, "HEAD", false) && has_listed(entries, "objects", true) && has_listed(entries, "refs", true)
}

/// The subdirectories that discovery visits next: every listed directory except Git's own.
pub open spec fn visited_subdirectories(entries: Seq<ListedEntry>) -> Seq<Seq<char>>
    decreases entries.len(),
{
    if entries.len() == 0 {
        Seq::empty()
    } else {
        let before = visited_subdirectories(entries.drop_last());
        let e = entries.last();
        if e.is_dir && !git_dir_name(e.name@) { before.push(e.name@) } else { before }
    }
}

/// The names of the subdirectories to visit next, in listing order; see
/// [`visited_subdirectories`].
pub fn subdirectories_to_visit(entries: &Vec<ListedEntry>) -> (r: Vec<String>)
    ensures
        r@.map_values(|s: String| s@) == visited_subdirectories(entries@),
{
    let mut out: Vec<String> = Vec::new();
    let mut i: usize = 0;
    while i < entries.len()
        invariant
            i <= entries@.len(),
            out@.map_values(|s: String| s@) == visited_subdirectories(entries@.subrange(0, i as int)),
        decreases entries@.len() - i,
    {
        let e = &entries[i];
        let ghost prefix = entries@.subrange(0, i + 1);
        assert(prefix.drop_last() =~= entries@.subrange(0, i as int));
        if e.is_dir && !is_git_dir_name(e.name.as_str()) {
            let ghost before = out@.map_values(|s: String| s@);
            let name = copy_string(&e.name);
            out.push(name);
            assert(out@.map_values(|s: String| s@) =~= before.push(e.name@));
        }
        i = i + 1;
    }
    assert(entries@.subrange(0, entries@.len() as int) =~= entries@);
    out
}

pub(crate) fn copy_string(s: &String) -> (r: String)
    ensures
        r@ == s@,
{
    let text = s.as_str();
    let mut out = String::new();
    let n = text.unicode_len();
    let mut i: usize = 0;
    while i < n
        invariant
            i <= n == text@.len(),
            text@ == s@,
            out@ == text@.subrange(0, i as int),
        decreases n - i,
    {
        out.push(text.get_char(i));
        i = i + 1;
        assert(out@ =~= text@.subrange(0, i as int));
    }
    assert(text@.subrange(0, n as int) =~= text@);
    out
}

/// The components of each root path.
pub open spec fn root_paths(roots: Seq<Vec<String>>) -> Seq<Seq<Seq<char>>> {
    roots.map_values(|p: Vec<String>| texts(p@))
}

/// Discovery searches shallower roots first, and roots of equal depth in path order.
pub open spec fn searched_before(a: Seq<Seq<char>>, b: Seq<Seq<char>>) -> bool {
    a.len() < b.len() || (a.len() == b.len() && components_order(a, b) == KeyOrder::Less)
}

/// Whether a component of `path` is a Git administrative directory.
pub open spec fn within_git_dir(path: Seq<Seq<char>>) -> bool {
    exists|k: int| 0 <= k < path.len() && git_dir_name(#[trigger] path[k])
}

/// Whether discovery searches from root `path`: it leads through no Git administrative
/// directory and, unless the search depth is limited, lies in no other searchable root, whose
/// search covers it.
pub open spec fn searched_root(roots: Seq<Seq<Seq<char>>>, depth_limited: bool, path: Seq<Seq<char>>) -> bool {
    &&& roots.contains(path)
    &&& !within_git_dir(path)
    &&& (depth_limited || !exists|q: Seq<Seq<char>>| #[trigger] roots.contains(q) && !within_git_dir(q) && q != path
        && starts_with_path(path, q))
}

proof fn lemma_searched_before_transitive(a: Seq<Seq<char>>, b: Seq<Seq<char>>, c: Seq<Seq<char>>)
    requires
        searched_before(a, b),
        searched_before(b, c),
    ensures
        searched_before(a, c),
{
    if a.len() == b.len() && b.len() == c.len() {
        lemma_components_order_transitive(a, b, c);
    }
}

proof fn lemma_searched_before_total(a: Seq<Seq<char>>, b: Seq<Seq<char>>)
    requires
        !searched_before(a, b),
        a != b,
    ensures
        searched_before(b, a),
{
    lemma_components_order_flips(a, b);
    if a.len() == b.len() && components_order(a, b) == KeyOrder::Equal {
        lemma_components_equal(a, b);
    }
}

fn leads_through_git_dir(path: &Vec<String>) -> (r: bool)
    ensures
        r == within_git_dir(texts(path@)),
{
    let mut k: usize = 0;
    while k < path.len()
        invariant
            k <= path@.len(),
            forall|j: int| 0 <= j < k ==> !git_dir_name(#[trigger] texts(path@)[j]),
        decreases path@.len() - k,
    {
        if is_git_dir_name(path[k].as_str()) {
            assert(git_dir_name(texts(path@)[k as int]));
            return true;
        }
        k = k + 1;
    }
    false
}

fn is_searched_before(a: &Vec<String>, b: &Vec<String>) -> (r: bool)
    ensures
        r == searched_before(texts(a@), texts(b@)),
{
    if a.len() < b.len() {
        return true;
    }
    if a.len() > b.len() {
        return false;
    }
    match compare_components(a, b) {
        KeyOrder::Less => true,
        _ => false,
    }
}

/// Whether the roots at positions `order` follow each other in search order.
pub open spec fn in_search_order(paths: Seq<Seq<Seq<char>>>, order: Seq<usize>) -> bool {
    forall|x: int, y: int| 0 <= x < y < order.len()
        ==> searched_before(paths[#[trigger] order[x] as int], paths[#[trigger] order[y] as int])
}

/// Whether the roots at positions `order` include the root at position `i`.
pub open spec fn lists_root(paths: Seq<Seq<Seq<char>>>, order: Seq<usize>, i: int) -> bool {
    exists|k: int| 0 <= k < order.len() && paths[#[trigger] order[k] as int] == paths[i]
}

/// Whether every position of `order` is one of the `n` roots.
pub open spec fn positions_within(order: Seq<usize>, n: nat) -> bool {
    forall|k: int| 0 <= k < order.len() ==> #[trigger] order[k] < n
}

/// Each distinct root once, in the order discovery searches them.
fn root_search_order(roots: &Vec<Vec<String>>) -> (r: Vec<usize>)
    ensures
        positions_within(r@, roots@.len()),
        in_search_order(root_paths(roots@), r@),
        forall|i: int| 0 <= i < roots@.len() ==> #[trigger] lists_root(root_paths(roots@), r@, i),
{
    let ghost paths = root_paths(roots@);
    assert(forall|x: int| 0 <= x < roots@.len() ==> #[trigger] paths[x] == texts(roots@[x]@));
    let mut out: Vec<usize> = Vec::new();
    let mut i: usize = 0;
    while i < roots.len()
        invariant
            paths == root_paths(roots@),
            forall|x: int| 0 <= x < roots@.len() ==> #[trigger] paths[x] == texts(roots@[x]@),
            i <= roots@.len(),
            positions_within(out@, roots@.len()),
            in_search_order(paths, out@),
            forall|m: int| 0 <= m < i ==> #[trigger] lists_root(paths, out@, m),
        decreases roots@.len() - i,
    {
        let mut j: usize = 0;
        while j < out.len() && is_searched_before(&roots[out[j]], &roots[i])
            invariant
                paths == root_paths(roots@),
                forall|x: int| 0 <= x < roots@.len() ==> #[trigger] paths[x] == texts(roots@[x]@),
                i < roots@.len(),
                j <= out@.len(),
                positions_within(out@, roots@.len()),
                forall|k: int| 0 <= k < j ==> searched_before(paths[#[trigger] out@[k] as int], paths[i as int]),
            decreases out@.len() - j,
        {
            j = j + 1;
        }
        let duplicate = j < out.len() && match compare_components(&roots[out[j]], &roots[i]) {
            KeyOrder::Equal => true,
            _ => false,
        };
        if duplicate {
            proof {
                lemma_components_equal(paths[out@[j as int] as int], paths[i as int]);
                assert(lists_root(paths, out@, i as int));
            }
        } else {
            let ghost before = out@;
            proof {
                if j < before.len() {
                    if paths[before[j as int] as int] == paths[i as int] {
                        lemma_components_order_reflexive(paths[i as int]);
                    }
                    lemma_searched_before_total(paths[before[j as int] as int], paths[i as int]);
                }
            }
            out.insert(j, i);
            proof {
                lemma_insert_keeps_search_order(paths, before, j as int, i);
                assert forall|m: int| 0 <= m <= i implies #[trigger] lists_root(paths, out@, m) by {
                    if m == i {
                        assert(out@[j as int] == i);
                    } else {
                        assert(lists_root(paths, before, m));
                        let k = choose|k: int| 0 <= k < before.len() && paths[#[trigger] before[k] as int] == paths[m];
                        if k < j {
                            assert(out@[k] == before[k]);
                        } else {
                            assert(out@[k + 1] == before[k]);
                        }
                    }
                }
            }
        }
        i = i + 1;
    }
    out
}

proof fn lemma_insert_keeps_search_order(paths: Seq<Seq<Seq<char>>>, before: Seq<usize>, j: int, i: usize)
    requires
        0 <= j <= before.len(),
        in_search_order(paths, before),
        forall|k: int| 0 <= k < j ==> searched_before(paths[#[trigger] before[k] as int], paths[i as int]),
        j < before.len() ==> searched_before(paths[i as int], paths[before[j] as int]),
    ensures
        in_search_order(paths, before.insert(j, i)),
{
    let out = before.insert(j, i);
    assert forall|x: int, y: int| 0 <= x < y < out.len()
        implies searched_before(paths[#[trigger] out[x] as int], paths[#[trigger] out[y] as int]) by {
        if y < j {
            assert(out[x] == before[x] && out[y] == before[y]);
        } else if y == j {
            assert(out[x] == before[x]);
        } else if x < j {
            assert(out[x] == before[x] && out[y] == before[y - 1]);
            lemma_searched_before_transitive(paths[before[x] as int], paths[i as int], paths[before[j] as int]);
            if y - 1 > j {
                lemma_searched_before_transitive(paths[before[x] as int], paths[before[j] as int], paths[before[y - 1] as int]);
            }
        } else if x == j {
            assert(out[y] == before[y - 1]);
            if y - 1 > j {
                lemma_searched_before_transitive(paths[i as int], paths[before[j] as int], paths[before[y - 1] as int]);
            }
        } else {
            assert(out[x] == before[x - 1] && out[y] == before[y - 1]);
        }
    }
}

/// Whether each root of the first `n` in search order is searched, or, without a depth limit,
/// lies within a searched one; roots leading through a Git directory excepted.
pub open spec fn covered_up_to(paths: Seq<Seq<Seq<char>>>, order: Seq<usize>, searched: Seq<usize>, n: int, depth_limited: bool) -> bool {
    forall|m: int| 0 <= m < n && !within_git_dir(paths[#[trigger] order[m] as int]) ==> (
        (exists|k: int| 0 <= k < searched.len() && paths[#[trigger] searched[k] as int] == paths[order[m] as int])
        || (!depth_limited && exists|k: int| 0 <= k < searched.len()
            && starts_with_path(paths[order[m] as int], paths[#[trigger] searched[k] as int])))
}

proof fn lemma_starts_with_transitive(a: Seq<Seq<char>>, b: Seq<Seq<char>>, c: Seq<Seq<char>>)
    requires
        starts_with_path(a, b),
        starts_with_path(b, c),
    ensures
        starts_with_path(a, c),
{
    assert(a.take(c.len() as int) =~= b.take(c.len() as int));
}

/// Whether every position of `searched` is one of the first `n` of `order`.
pub open spec fn drawn_from(order: Seq<usize>, searched: Seq<usize>, n: int) -> bool {
    forall|k: int| 0 <= k < searched.len() ==> exists|m: int| 0 <= m < n && #[trigger] searched[k] == order[m]
}

/// A root that no earlier searched root covers is searched.
proof fn lemma_uncovered_root_is_searched(
    paths: Seq<Seq<Seq<char>>>,
    order: Seq<usize>,
    searched: Seq<usize>,
    n: int,
    depth_limited: bool,
)
    requires
        0 <= n < order.len(),
        positions_within(order, paths.len()),
        in_search_order(paths, order),
        forall|i: int| 0 <= i < paths.len() ==> #[trigger] lists_root(paths, order, i),
        positions_within(searched, paths.len()),
        covered_up_to(paths, order, searched, n, depth_limited),
        !within_git_dir(paths[order[n] as int]),
        !depth_limited ==> forall|k: int| 0 <= k < searched.len() ==> !starts_with_path(paths[order[n] as int], paths[#[trigger] searched[k] as int]),
    ensures
        searched_root(paths, depth_limited, paths[order[n] as int]),
{
    let p = paths[order[n] as int];
    assert(paths.contains(p));
    if !depth_limited {
        assert forall|q: Seq<Seq<char>>| #[trigger] paths.contains(q) && !within_git_dir(q) && q != p
            implies !starts_with_path(p, q) by {
            if starts_with_path(p, q) {
                let i = choose|i: int| 0 <= i < paths.len() && paths[i] == q;
                assert(lists_root(paths, order, i));
                let m = choose|m: int| 0 <= m < order.len() && paths[#[trigger] order[m] as int] == paths[i];
                assert(q.len() < p.len()) by {
                    if q.len() == p.len() {
                        assert(p.take(q.len() as int) =~= p);
                    }
                }
                if m >= n {
                    if m > n {
                        assert(searched_before(paths[order[n] as int], paths[order[m] as int]));
                    }
                    assert(false);
                }
                if exists|k: int| 0 <= k < searched.len() && paths[#[trigger] searched[k] as int] == paths[order[m] as int] {
                    let k = choose|k: int| 0 <= k < searched.len() && paths[#[trigger] searched[k] as int] == paths[order[m] as int];
                    assert(!starts_with_path(p, paths[searched[k] as int]));
                } else {
                    let k = choose|k: int| 0 <= k < searched.len()
                        && starts_with_path(paths[order[m] as int], paths[#[trigger] searched[k] as int]);
                    lemma_starts_with_transitive(p, q, paths[searched[k] as int]);
                    assert(!starts_with_path(p, paths[searched[k] as int]));
                }
            }
        }
    }
}

/// Whether `root` is covered by one of the searched roots, which it starts with.
fn covered_by(roots: &Vec<Vec<String>>, searched: &Vec<usize>, root: usize) -> (r: bool)
    requires
        root < roots@.len(),
        positions_within(searched@, roots@.len()),
    ensures
        r == exists|k: int| 0 <= k < searched@.len()
            && starts_with_path(root_paths(roots@)[root as int], root_paths(roots@)[#[trigger] searched@[k] as int]),
{
    let ghost paths = root_paths(roots@);
    let mut k: usize = 0;
    while k < searched.len()
        invariant
            paths == root_paths(roots@),
            root < roots@.len(),
            k <= searched@.len(),
            positions_within(searched@, roots@.len()),
            forall|j: int| 0 <= j < k ==> !starts_with_path(paths[root as int], paths[#[trigger] searched@[j] as int]),
        decreases searched@.len() - k,
    {
        if crate::hub::path_starts_with(&roots[root], &roots[searched[k]]) {
            assert(paths[root as int] == texts(roots@[root as int]@));
            assert(paths[searched@[k as int] as int] == texts(roots@[searched@[k as int] as int]@));
            return true;
        }
        assert(paths[root as int] == texts(roots@[root as int]@));
        assert(paths[searched@[k as int] as int] == texts(roots@[searched@[k as int] as int]@));
        k = k + 1;
    }
    false
}

/// The roots discovery searches, as positions in `roots`, in the order it searches them: each
/// distinct root once, shallower roots first and roots of equal depth in path order. Roots that
/// lead through a Git administrative directory are left out, and so, unless `depth_limited`,
/// are roots within another searched root, whose search covers them.
pub fn search_roots(roots: &Vec<Vec<String>>, depth_limited: bool) -> (r: Vec<usize>)
    ensures
        positions_within(r@, roots@.len()),
        in_search_order(root_paths(roots@), r@),
        forall|k: int| 0 <= k < r@.len() ==> searched_root(root_paths(roots@), depth_limited, root_paths(roots@)[#[trigger] r@[k] as int]),
        forall|i: int| 0 <= i < roots@.len() && searched_root(root_paths(roots@), depth_limited, root_paths(roots@)[i])
            ==> #[trigger] lists_root(root_paths(roots@), r@, i),
{
    let ghost paths = root_paths(roots@);
    let order = root_search_order(roots);
    let mut searched: Vec<usize> = Vec::new();
    let mut n: usize = 0;
    while n < order.len()
        invariant
            paths == root_paths(roots@),
            paths.len() == roots@.len(),
            n <= order@.len(),
            positions_within(order@, roots@.len()),
            in_search_order(paths, order@),
            forall|i: int| 0 <= i < paths.len() ==> #[trigger] lists_root(paths, order@, i),
            positions_within(searched@, roots@.len()),
            drawn_from(order@, searched@, n as int),
            in_search_order(paths, searched@),
            forall|k: int| 0 <= k < searched@.len() ==> searched_root(paths, depth_limited, paths[#[trigger] searched@[k] as int]),
            covered_up_to(paths, order@, searched@, n as int, depth_limited),
        decreases order@.len() - n,
    {
        let candidate = order[n];
        let covered = !depth_limited && covered_by(roots, &searched, candidate);
        if !leads_through_git_dir(&roots[candidate]) && !covered {
            proof {
                assert(paths[candidate as int] == texts(roots@[candidate as int]@));
                lemma_uncovered_root_is_searched(paths, order@, searched@, n as int, depth_limited);
            }
            let ghost before = searched@;
            searched.push(candidate);
            proof {
                lemma_push_keeps_coverage(paths, order@, before, n as int, depth_limited);
            }
        } else {
            proof {
                assert(paths[candidate as int] == texts(roots@[candidate as int]@));
                assert(covered_up_to(paths, order@, searched@, n + 1, depth_limited));
            }
        }
        n = n + 1;
    }
    proof {
        assert forall|i: int| 0 <= i < roots@.len() && searched_root(paths, depth_limited, paths[i])
            implies #[trigger] lists_root(paths, searched@, i) by {
            assert(lists_root(paths, order@, i));
            let m = choose|m: int| 0 <= m < order@.len() && paths[#[trigger] order@[m] as int] == paths[i];
            if !(exists|k: int| 0 <= k < searched@.len() && paths[#[trigger] searched@[k] as int] == paths[order@[m] as int]) {
                let k = choose|k: int| 0 <= k < searched@.len()
                    && starts_with_path(paths[order@[m] as int], paths[#[trigger] searched@[k] as int]);
                let q = paths[searched@[k] as int];
                assert(paths.contains(q));
                assert(q != paths[i]);
            }
        }
    }
    searched
}

proof fn lemma_push_keeps_coverage(paths: Seq<Seq<Seq<char>>>, order: Seq<usize>, before: Seq<usize>, n: int, depth_limited: bool)
    requires
        0 <= n < order.len(),
        drawn_from(order, before, n),
        in_search_order(paths, order),
        in_search_order(paths, before),
        covered_up_to(paths, order, before, n, depth_limited),
    ensures
        drawn_from(order, before.push(order[n]), n + 1),
        in_search_order(paths, before.push(order[n])),
        covered_up_to(paths, order, before.push(order[n]), n + 1, depth_limited),
{
    let after = before.push(order[n]);
    assert forall|x: int, y: int| 0 <= x < y < after.len()
        implies searched_before(paths[#[trigger] after[x] as int], paths[#[trigger] after[y] as int]) by {
        assert(after[x] == before[x]);
        if y == before.len() {
            let m = choose|m: int| 0 <= m < n && #[trigger] before[x] == order[m];
            assert(searched_before(paths[order[m] as int], paths[order[n] as int]));
        } else {
            assert(after[y] == before[y]);
        }
    }
    assert forall|k: int| 0 <= k < after.len() implies exists|m: int| 0 <= m < n + 1 && #[trigger] after[k] == order[m] by {
        if k == before.len() {
            assert(after[k] == order[n]);
        } else {
            assert(after[k] == before[k]);
            let m = choose|m: int| 0 <= m < n && #[trigger] before[k] == order[m];
            assert(after[k] == order[m]);
        }
    }
    assert forall|m: int| 0 <= m < n + 1 && !within_git_dir(paths[#[trigger] order[m] as int]) implies (
        (exists|k: int| 0 <= k < after.len() && paths[#[trigger] after[k] as int] == paths[order[m] as int])
        || (!depth_limited && exists|k: int| 0 <= k < after.len()
            && starts_with_path(paths[order[m] as int], paths[#[trigger] after[k] as int]))) by {
        if m == n {
            assert(after[before.len() as int] == order[m]);
        } else if exists|k: int| 0 <= k < before.len() && paths[#[trigger] before[k] as int] == paths[order[m] as int] {
            let k = choose|k: int| 0 <= k < before.len() && paths[#[trigger] before[k] as int] == paths[order[m] as int];
            assert(after[k] == before[k]);
        } else {
            let k = choose|k: int| 0 <= k < before.len()
                && starts_with_path(paths[order[m] as int], paths[#[trigger] before[k] as int]);
            assert(after[k] == before[k]);
        }
    }
}

/// Whether discovery descends below a directory `level` levels beneath its root.
pub fn descends_from(depth: Option<usize>, level: usize) -> (r: bool)
    ensures
        r == match depth {
            Some(limit) => level < limit,
            None => true,
        },
{
    match depth {
        Some(limit) => level < limit,
        None => true,
    }
}

/// Whether `path` is a candidate already found or lies within one, which discovery does not
/// enter again.
pub fn within_candidate(path: &Vec<String>, candidates: &Vec<Vec<String>>) -> (r: bool)
    ensures
        r == exists|k: int| 0 <= k < candidates@.len() && starts_with_path(texts(path@), texts(#[trigger] candidates@[k]@)),
{
    let mut k: usize = 0;
    while k < candidates.len()
        invariant
            k <= candidates@.len(),
            forall|j: int| 0 <= j < k ==> !starts_with_path(texts(path@), texts(#[trigger] candidates@[j]@)),
        decreases candidates@.len() - k,
    {
        if crate::hub::path_starts_with(path, &candidates[k]) {
            return true;
        }
        k = k + 1;
    }
    false
}

/// The path that ignore patterns see for `path`: the path itself where it is `relative`, else
/// its part below the current directory `cwd`, or else below the search root `root`; none where
/// it lies below neither.
pub open spec fn pattern_relative(path: Seq<Seq<char>>, relative: bool, cwd: Seq<Seq<char>>, root: Seq<Seq<char>>) -> Option<Seq<Seq<char>>> {
    if relative {
        Some(path)
    } else if starts_with_path(path, cwd) {
        Some(path.skip(cwd.len() as int))
    } else if starts_with_path(path, root) {
        Some(path.skip(root.len() as int))
    } else {
        None
    }
}

fn components_after(path: &Vec<String>, start: usize) -> (r: Vec<String>)
    requires
        start <= path@.len(),
    ensures
        texts(r@) == texts(path@).skip(start as int),
{
    let mut out: Vec<String> = Vec::new();
    let mut i: usize = start;
    while i < path.len()
        invariant
            start <= i <= path@.len(),
            texts(out@) == texts(path@).subrange(start as int, i as int),
        decreases path@.len() - i,
    {
        let ghost prior = out@;
        let component = copy_string(&path[i]);
        out.push(component);
        proof {
            assert(out@ == prior.push(component));
            assert(texts(prior).len() == i - start);
            assert forall|j: int| 0 <= j <= i - start implies #[trigger] texts(out@)[j] == texts(path@).subrange(start as int, i + 1)[j] by {
                if j < i - start {
                    assert(out@[j] == prior[j]);
                    assert(texts(prior)[j] == texts(path@).subrange(start as int, i as int)[j]);
                }
            }
        }
        i = i + 1;
        assert(texts(out@) =~= texts(path@).subrange(start as int, i as int));
    }
    assert(texts(path@).subrange(start as int, path@.len() as int) =~= texts(path@).skip(start as int));
    out
}

/// The path that ignore patterns see for `path`; see [`pattern_relative`].
pub fn pattern_relative_path(path: &Vec<String>, relative: bool, cwd: &Vec<String>, root: &Vec<String>) -> (r: Option<Vec<String>>)
    ensures
        match r {
            Some(p) => pattern_relative(texts(path@), relative, texts(cwd@), texts(root@)) == Some(texts(p@)),
            None => pattern_relative(texts(path@), relative, texts(cwd@), texts(root@)) is None,
        },
{
    if relative {
        Some(components_after(path, 0))
    } else if crate::hub::path_starts_with(path, cwd) {
        Some(components_after(path, cwd.len()))
    } else if crate::hub::path_starts_with(path, root) {
        Some(components_after(path, root.len()))
    } else {
        None
    }
}

} // verus!
