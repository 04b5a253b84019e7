//! The search for cleanup candidates, as a machine that asks for what only the filesystem and
//! Git can tell and decides everything else.
//!
//! Roots are searched one after another, each breadth first. A directory is passed over when it
//! is a Git administrative directory, lies within a candidate already found, is excluded by the
//! ignore settings or, unless filesystems may be crossed, lies on another device than its root.
//! A directory whose name qualifies, and which Git does not track, is a candidate and is not
//! entered; any other directory is listed, unless the depth limit is reached, and its
//! subdirectories are searched next, except in bare repositories.
use std::collections::VecDeque;
use vstd::prelude::*;
use crate::clean::{
    bare_repository, copy_string, git_dir_name, is_bare_repository, is_git_dir_name, has_listed, listing_has,
    lists_root, positions_within, qualification, qualification_of, root_paths, search_roots, searched_before,
    searched_root, subdirectories_to_visit, visited_subdirectories, within_candidate, ListedEntry, Qualification,
};
use crate::diff::texts;
use crate::hub::starts_with_path;

verus! {

broadcast use vstd::std_specs::vecdeque::group_vec_dequeue_axioms;

/// A directory waiting to be examined.
#[derive(Debug)]
pub struct Pending {
    /// Its path, component by component.
    pub path: Vec<String>,
    /// How many levels below its root it lies.
    pub level: usize,
    /// Whether its parent holds a regular file `Cargo.toml`, where the parent's listing told.
    pub parent_has_cargo: Option<bool>,
}

/// A directory waiting to be examined, as values.
#[verifier::ext_equal]
pub struct PendingView {
    /// Its path, component by component.
    pub path: Seq<Seq<char>>,
    /// How many levels below its root it lies.
    pub level: usize,
    /// Whether its parent holds a regular file `Cargo.toml`, where known.
    pub parent_has_cargo: Option<bool>,
}

impl Pending {
    /// This directory as values.
    pub open spec fn pview(&self) -> PendingView {
        PendingView { path: texts(self.path@), level: self.level, parent_has_cargo: self.parent_has_cargo }
    }
}

/// What the search waits for.
#[derive(Clone, Copy, Debug, PartialEq, Eq, Structural)]
pub enum Phase {
    /// Nothing has been asked yet.
    Start,
    /// The device of the root just started.
    AwaitRootDevice,
    /// Whether the current directory is excluded.
    AwaitExclusion,
    /// The device of the current directory.
    AwaitDevice,
    /// Whether the parent of the current directory holds a regular file `Cargo.toml`.
    AwaitManifest,
    /// Whether the current directory holds a regular file `pyvenv.cfg`.
    AwaitVirtualEnvironment,
    /// Whether Git lets the current directory be a candidate.
    AwaitGit,
    /// That the current directory was reported as a candidate.
    AwaitReported,
    /// The listing of the current directory.
    AwaitListing,
    /// Nothing: the search is over.
    Done,
}

/// What the search asks for next.
#[derive(Clone, Copy, Debug, PartialEq, Eq, Structural)]
pub enum Request {
    /// The device of the root just started.
    RootDevice,
    /// Whether the current directory is excluded by the ignore settings.
    Exclusion,
    /// The device of the current directory.
    Device,
    /// Whether the parent of the current directory holds a regular file `Cargo.toml`; a root
    /// without a parent holds none.
    ParentManifest,
    /// Whether the current directory holds a regular file `pyvenv.cfg`.
    VirtualEnvironment,
    /// Whether Git lets the current directory be a candidate.
    GitCheck,
    /// The listing of the current directory.
    Listing,
    /// Report the current directory as a candidate.
    Candidate,
    /// The search is over.
    Finished,
}

/// What the filesystem, Git or the consumer answered.
#[derive(Debug)]
pub enum Answer {
    /// Begin the search.
    Start,
    /// A device number, or `None` where it could not be read.
    Device(Option<u64>),
    /// Whether the directory is excluded.
    Excluded(bool),
    /// Whether the file asked for is there as a regular file.
    HasFile(bool),
    /// Whether Git lets the directory be a candidate, or `None` where Git failed.
    Git(Option<bool>),
    /// The directory's entries, or `None` where it could not be listed.
    Listing(Option<Vec<ListedEntry>>),
    /// The candidate was reported.
    Reported,
}

/// The search for cleanup candidates.
pub struct Discovery {
    /// The roots to search, in order.
    pub roots: Vec<Vec<String>>,
    /// How many roots were started.
    pub next_root: usize,
    /// How many levels below a root the search may list directories, if limited.
    pub depth: Option<usize>,
    /// Whether directories on other devices than their root are searched too.
    pub cross_filesystems: bool,
    /// The device of the root being searched.
    pub device: u64,
    /// The directories waiting to be examined, first to last.
    pub queue: VecDeque<Pending>,
    /// The directory being examined.
    pub current: Pending,
    /// What the search waits for.
    pub phase: Phase,
    /// The candidates found so far.
    pub candidates: Vec<Vec<String>>,
}

/// The search, as values.
#[verifier::ext_equal]
pub struct DiscoveryView {
    /// The roots to search, in order.
    pub roots: Seq<Seq<Seq<char>>>,
    /// How many roots were started.
    pub next_root: int,
    /// The depth limit, if any.
    pub depth: Option<usize>,
    /// Whether other devices are searched too.
    pub cross_filesystems: bool,
    /// The device of the root being searched.
    pub device: u64,
    /// The directories waiting to be examined.
    pub queue: Seq<PendingView>,
    /// The directory being examined.
    pub current: PendingView,
    /// What the search waits for.
    pub phase: Phase,
    /// The candidates found so far.
    pub candidates: Seq<Seq<Seq<char>>>,
}

impl Discovery {
    /// The search as values.
    pub open spec fn dview(&self) -> DiscoveryView {
        DiscoveryView {
            roots: root_paths(self.roots@),
            next_root: self.next_root as int,
            depth: self.depth,
            cross_filesystems: self.cross_filesystems,
            device: self.device,
            queue: self.queue@.map_values(|p: Pending| p.pview()),
            current: self.current.pview(),
            phase: self.phase,
            candidates: root_paths(self.candidates@),
        }
    }

    /// At most every root was started, and no directory lies more levels below its root than
    /// its path has components.
    pub open spec fn wf(&self) -> bool {
        &&& self.next_root <= self.roots@.len()
        &&& self.current.level <= self.current.path@.len()
        &&& forall|k: int| 0 <= k < self.queue@.len() ==> #[trigger] self.queue@[k].level <= self.queue@[k].path@.len()
    }
}

/// The last component of `path`, which names the directory.
pub open spec fn last_component(path: Seq<Seq<char>>) -> Seq<char> {
    if path.len() > 0 { path.last() } else { Seq::empty() }
}

/// Whether `path` is a candidate found or lies within one.
pub open spec fn within_found(path: Seq<Seq<char>>, candidates: Seq<Seq<Seq<char>>>) -> bool {
    exists|k: int| 0 <= k < candidates.len() && starts_with_path(path, #[trigger] candidates[k])
}

/// Examine the next directory: the first waiting one that is neither a Git administrative
/// directory nor within a candidate found, asking whether it is excluded; where none waits, start
/// the next root, asking for its device unless filesystems may be crossed; where no root is
/// left, finish.
pub open spec fn advance(v: DiscoveryView) -> (DiscoveryView, Request)
    decreases v.roots.len() - v.next_root, v.queue.len(),
{
    if v.queue.len() > 0 {
        let p = v.queue[0];
        let popped = DiscoveryView { queue: v.queue.drop_first(), current: p, ..v };
        if git_dir_name(last_component(p.path)) || within_found(p.path, v.candidates) {
            advance(popped)
        } else {
            (DiscoveryView { phase: Phase::AwaitExclusion, ..popped }, Request::Exclusion)
        }
    } else if 0 <= v.next_root < v.roots.len() {
        let started = DiscoveryView {
            queue: seq![PendingView { path: v.roots[v.next_root], level: 0, parent_has_cargo: None }],
            next_root: v.next_root + 1,
            ..v
        };
        if v.cross_filesystems {
            advance(DiscoveryView { device: 0, ..started })
        } else {
            (DiscoveryView { phase: Phase::AwaitRootDevice, ..started }, Request::RootDevice)
        }
    } else {
        (DiscoveryView { phase: Phase::Done, ..v }, Request::Finished)
    }
}

/// A directory that may be examined: its name decides whether it qualifies, which for some names
/// needs a marker file first; one that does not qualify is listed instead.
pub open spec fn qualify(v: DiscoveryView) -> (DiscoveryView, Request) {
    match qualification_of(last_component(v.current.path), v.current.parent_has_cargo) {
        Qualification::Qualifies => (DiscoveryView { phase: Phase::AwaitGit, ..v }, Request::GitCheck),
        Qualification::Rejected => descend(v),
        Qualification::IfParentHasCargoManifest => (DiscoveryView { phase: Phase::AwaitManifest, ..v }, Request::ParentManifest),
        Qualification::IfVirtualEnvironment => (DiscoveryView { phase: Phase::AwaitVirtualEnvironment, ..v }, Request::VirtualEnvironment),
    }
}

/// A directory that is no candidate is listed, unless it lies as deep as the depth limit.
pub open spec fn descend(v: DiscoveryView) -> (DiscoveryView, Request) {
    if match v.depth { Some(limit) => v.current.level < limit, None => true } {
        (DiscoveryView { phase: Phase::AwaitListing, ..v }, Request::Listing)
    } else {
        advance(v)
    }
}

/// The subdirectories of `current` that `entries` lists, waiting to be examined, each knowing
/// whether `current` holds a regular file `Cargo.toml`.
pub open spec fn children(current: PendingView, entries: Seq<ListedEntry>) -> Seq<PendingView> {
    let names = visited_subdirectories(entries);
    let has_cargo = listing_has(entries, "Cargo.toml"@, false);
    Seq::new(names.len(), |i: int| PendingView {
        path: current.path.push(names[i]),
        level: (current.level + 1) as usize,
        parent_has_cargo: Some(has_cargo),
    })
}

/// Whether `answer` is what the search waits for in `phase`.
pub open spec fn expects(phase: Phase, answer: Answer) -> bool {
    match phase {
        Phase::Start => answer is Start,
        Phase::AwaitRootDevice | Phase::AwaitDevice => answer is Device,
        Phase::AwaitExclusion => answer is Excluded,
        Phase::AwaitManifest | Phase::AwaitVirtualEnvironment => answer is HasFile,
        Phase::AwaitGit => answer is Git,
        Phase::AwaitReported => answer is Reported,
        Phase::AwaitListing => answer is Listing,
        Phase::Done => true,
    }
}

/// What the search does with `answer`: a root whose device cannot be read is passed over; an
/// excluded directory, one on another device or one whose device cannot be read is passed over;
/// a qualifying directory that Git lets be a candidate is reported and not entered, and one
/// where Git fails is passed over; a listed directory's subdirectories wait after the others,
/// except in bare repositories; an unreadable directory is passed over.
pub open spec fn transition(v: DiscoveryView, answer: Answer) -> (DiscoveryView, Request) {
    match v.phase {
        Phase::Done => (v, Request::Finished),
        Phase::Start => advance(v),
        Phase::AwaitRootDevice => match answer {
            Answer::Device(Some(d)) => advance(DiscoveryView { device: d, ..v }),
            _ => advance(DiscoveryView { queue: Seq::empty(), ..v }),
        },
        Phase::AwaitExclusion => match answer {
            Answer::Excluded(false) => if v.cross_filesystems {
                qualify(v)
            } else {
                (DiscoveryView { phase: Phase::AwaitDevice, ..v }, Request::Device)
            },
            _ => advance(v),
        },
        Phase::AwaitDevice => match answer {
            Answer::Device(Some(d)) => if d == v.device { qualify(v) } else { advance(v) },
            _ => advance(v),
        },
        Phase::AwaitManifest | Phase::AwaitVirtualEnvironment => match answer {
            Answer::HasFile(true) => (DiscoveryView { phase: Phase::AwaitGit, ..v }, Request::GitCheck),
            _ => descend(v),
        },
        Phase::AwaitGit => match answer {
            Answer::Git(Some(true)) => (
                DiscoveryView { candidates: v.candidates.push(v.current.path), phase: Phase::AwaitReported, ..v },
                Request::Candidate,
            ),
            Answer::Git(Some(false)) => descend(v),
            _ => advance(v),
        },
        Phase::AwaitReported => advance(v),
        Phase::AwaitListing => match answer {
            Answer::Listing(Some(entries)) => if bare_repository(entries@) {
                advance(v)
            } else {
                advance(DiscoveryView { queue: v.queue + children(v.current, entries@), ..v })
            },
            _ => advance(v),
        },
    }
}

/// Whether the search waits for an answer about the directory being examined.
pub open spec fn examining(phase: Phase) -> bool {
    ||| phase is AwaitExclusion
    ||| phase is AwaitDevice
    ||| phase is AwaitManifest
    ||| phase is AwaitVirtualEnvironment
    ||| phase is AwaitGit
}

/// Whether no path of `found` lies within, or equals, one found before it.
pub open spec fn unnested(found: Seq<Seq<Seq<char>>>) -> bool {
    forall|i: int, j: int| 0 <= i < j < found.len() ==> !starts_with_path(#[trigger] found[j], #[trigger] found[i])
}

/// Whether the directory being examined lies above the depth limit, where there is one.
pub open spec fn above_limit(v: DiscoveryView) -> bool {
    match v.depth {
        Some(limit) => v.current.level < limit,
        None => true,
    }
}

/// What every state of a search keeps: no candidate lies within one found before it; while a
/// directory is examined, it is neither a Git administrative directory nor within a candidate
/// found; and a directory is listed only above the depth limit.
pub open spec fn consistent(v: DiscoveryView) -> bool {
    &&& unnested(v.candidates)
    &&& examining(v.phase) ==> !within_found(v.current.path, v.candidates) && !git_dir_name(last_component(v.current.path))
    &&& v.phase is AwaitListing ==> above_limit(v)
}

proof fn lemma_advance_consistent(v: DiscoveryView)
    requires
        unnested(v.candidates),
    ensures
        consistent(advance(v).0),
        advance(v).0.candidates == v.candidates,
        !(advance(v).1 is Listing),
        !(advance(v).1 is Candidate),
    decreases v.roots.len() - v.next_root, v.queue.len(),
{
    if v.queue.len() > 0 {
        let p = v.queue[0];
        let popped = DiscoveryView { queue: v.queue.drop_first(), current: p, ..v };
        if git_dir_name(last_component(p.path)) || within_found(p.path, v.candidates) {
            lemma_advance_consistent(popped);
        }
    } else if 0 <= v.next_root < v.roots.len() {
        let started = DiscoveryView {
            queue: seq![PendingView { path: v.roots[v.next_root], level: 0, parent_has_cargo: None }],
            next_root: v.next_root + 1,
            ..v
        };
        if v.cross_filesystems {
            lemma_advance_consistent(DiscoveryView { device: 0, ..started });
        }
    }
}

proof fn lemma_descend_consistent(v: DiscoveryView)
    requires
        unnested(v.candidates),
    ensures
        consistent(descend(v).0),
        descend(v).0.candidates == v.candidates,
        descend(v).1 is Listing ==> descend(v).0.phase is AwaitListing,
        !(descend(v).1 is Candidate),
{
    if !above_limit(v) {
        lemma_advance_consistent(v);
    }
}

proof fn lemma_qualify_consistent(v: DiscoveryView)
    requires
        unnested(v.candidates),
        !within_found(v.current.path, v.candidates),
        !git_dir_name(last_component(v.current.path)),
    ensures
        consistent(qualify(v).0),
        qualify(v).0.candidates == v.candidates,
        qualify(v).1 is Listing ==> qualify(v).0.phase is AwaitListing,
        !(qualify(v).1 is Candidate),
{
    lemma_descend_consistent(v);
}

/// Each step of a search keeps it [`consistent`], as a fresh search is (see
/// [`Discovery::new`]): a candidate is reported only where it lies within none found before,
/// so no candidate is reported twice or within another reported earlier, and a directory is
/// listed only above the depth limit.
pub proof fn law_steps_keep_the_search_consistent(v: DiscoveryView, answer: Answer)
    requires
        consistent(v),
        expects(v.phase, answer),
    ensures
        consistent(transition(v, answer).0),
        transition(v, answer).1 is Listing ==> above_limit(transition(v, answer).0),
        transition(v, answer).1 is Candidate ==> transition(v, answer).0.candidates == v.candidates.push(v.current.path)
            && !within_found(v.current.path, v.candidates),
{
    match v.phase {
        Phase::Done => {},
        Phase::Start | Phase::AwaitReported => lemma_advance_consistent(v),
        Phase::AwaitRootDevice => match answer {
            Answer::Device(Some(d)) => lemma_advance_consistent(DiscoveryView { device: d, ..v }),
            _ => lemma_advance_consistent(DiscoveryView { queue: Seq::empty(), ..v }),
        },
        Phase::AwaitExclusion => {
            lemma_advance_consistent(v);
            lemma_qualify_consistent(v);
        },
        Phase::AwaitDevice => {
            lemma_advance_consistent(v);
            lemma_qualify_consistent(v);
        },
        Phase::AwaitManifest | Phase::AwaitVirtualEnvironment => lemma_descend_consistent(v),
        Phase::AwaitGit => match answer {
            Answer::Git(Some(true)) => {
                let found = v.candidates.push(v.current.path);
                assert forall|i: int, j: int| 0 <= i < j < found.len() implies !starts_with_path(#[trigger] found[j], #[trigger] found[i]) by {
                    if j == v.candidates.len() {
                        assert(found[i] == v.candidates[i]);
                    } else {
                        assert(found[i] == v.candidates[i] && found[j] == v.candidates[j]);
                    }
                }
            },
            Answer::Git(Some(false)) => lemma_descend_consistent(v),
            _ => lemma_advance_consistent(v),
        },
        Phase::AwaitListing => match answer {
            Answer::Listing(Some(entries)) => {
                lemma_advance_consistent(v);
                lemma_advance_consistent(DiscoveryView { queue: v.queue + children(v.current, entries@), ..v });
            },
            _ => lemma_advance_consistent(v),
        },
    }
}

/// Whether `searched` lists the roots that discovery searches among `roots`, each once, in the
/// order it searches them; see [`searched_root`].
pub open spec fn searches_roots_of(searched: Seq<Seq<Seq<char>>>, roots: Seq<Seq<Seq<char>>>, depth_limited: bool) -> bool {
    &&& forall|x: int| 0 <= x < searched.len() ==> #[trigger] roots.contains(searched[x])
        && searched_root(roots, depth_limited, searched[x])
    &&& forall|x: int, y: int| 0 <= x < y < searched.len() ==> searched_before(#[trigger] searched[x], #[trigger] searched[y])
    &&& forall|p: Seq<Seq<char>>| #[trigger] roots.contains(p) && searched_root(roots, depth_limited, p) ==> searched.contains(p)
}

fn copy_path(path: &Vec<String>) -> (r: Vec<String>)
    ensures
        texts(r@) == texts(path@),
{
    let mut out: Vec<String> = Vec::new();
    let mut i: usize = 0;
    while i < path.len()
        invariant
            i <= path@.len(),
            texts(out@) == texts(path@).take(i as int),
        decreases path@.len() - i,
    {
        let ghost prior = out@;
        let component = copy_string(&path[i]);
        out.push(component);
        proof {
            assert(out@ == prior.push(component));
            assert(texts(prior).len() == i);
            assert forall|j: int| 0 <= j <= i implies #[trigger] texts(out@)[j] == texts(path@).take(i + 1)[j] by {
                if j < i {
                    assert(out@[j] == prior[j]);
                    assert(texts(prior)[j] == texts(path@).take(i as int)[j]);
                }
            }
        }
        i = i + 1;
        assert(texts(out@) =~= texts(path@).take(i as int));
    }
    assert(texts(path@).take(path@.len() as int) =~= texts(path@));
    out
}

fn is_within_found(path: &Vec<String>, candidates: &Vec<Vec<String>>) -> (r: bool)
    ensures
        r == within_found(texts(path@), root_paths(candidates@)),
{
    let r = within_candidate(path, candidates);
    proof {
        let found = root_paths(candidates@);
        if r {
            let k = choose|k: int| 0 <= k < candidates@.len() && starts_with_path(texts(path@), texts(#[trigger] candidates@[k]@));
            assert(found[k] == texts(candidates@[k]@));
        } else {
            assert forall|k: int| 0 <= k < found.len() implies !starts_with_path(texts(path@), #[trigger] found[k]) by {
                assert(found[k] == texts(candidates@[k]@));
            }
        }
    }
    r
}

fn names_git_dir(path: &Vec<String>) -> (r: bool)
    ensures
        r == git_dir_name(last_component(texts(path@))),
{
    if path.len() == 0 {
        return false;
    }
    is_git_dir_name(path[path.len() - 1].as_str())
}

impl Discovery {
    /// Examine the next directory; see [`advance`].
    fn advance(&mut self) -> (r: Request)
        requires
            old(self).wf(),
        ensures
            final(self).wf(),
            (final(self).dview(), r) == advance(old(self).dview()),
            final(self).roots@ == old(self).roots@,
            final(self).candidates@ == old(self).candidates@,
    {
        loop
            invariant
                self.wf(),
                advance(self.dview()) == advance(old(self).dview()),
                self.roots@ == old(self).roots@,
                self.candidates@ == old(self).candidates@,
            decreases self.roots@.len() - self.next_root, self.queue@.len(),
        {
            let ghost before = self.dview();
            match self.queue.pop_front() {
                Some(p) => {
                    let skip = names_git_dir(&p.path) || is_within_found(&p.path, &self.candidates);
                    self.current = p;
                    proof {
                        assert(self.dview().queue =~= before.queue.drop_first());
                        assert(self.dview() == DiscoveryView { queue: before.queue.drop_first(), current: before.queue[0], ..before });
                    }
                    if !skip {
                        self.phase = Phase::AwaitExclusion;
                        return Request::Exclusion;
                    }
                },
                None => {
                    if self.next_root < self.roots.len() {
                        let root = copy_path(&self.roots[self.next_root]);
                        self.queue.push_back(Pending { path: root, level: 0, parent_has_cargo: None });
                        self.next_root = self.next_root + 1;
                        proof {
                            assert(before.roots[before.next_root] == texts(self.roots@[self.next_root - 1]@));
                            assert(self.dview().queue =~= seq![PendingView { path: before.roots[before.next_root], level: 0, parent_has_cargo: None }]);
                        }
                        if self.cross_filesystems {
                            self.device = 0;
                        } else {
                            self.phase = Phase::AwaitRootDevice;
                            return Request::RootDevice;
                        }
                    } else {
                        self.phase = Phase::Done;
                        return Request::Finished;
                    }
                },
            }
        }
    }
}

impl Discovery {
    /// A search of the directories `roots`, which are canonical paths, in the order and with
    /// the rules of [`search_roots`]: each distinct root once, none that leads through a Git
    /// administrative directory, and roots within another searched root separately only where
    /// the depth is limited.
    pub fn new(roots: &Vec<Vec<String>>, depth: Option<usize>, cross_filesystems: bool) -> (d: Discovery)
        ensures
            d.wf(),
            d.phase == Phase::Start,
            d.next_root == 0,
            d.depth == depth,
            d.cross_filesystems == cross_filesystems,
            d.queue@.len() == 0,
            d.candidates@.len() == 0,
            consistent(d.dview()),
            searches_roots_of(root_paths(d.roots@), root_paths(roots@), depth is Some),
    {
        let order = search_roots(roots, depth.is_some());
        let ghost paths = root_paths(roots@);
        let mut searched: Vec<Vec<String>> = Vec::new();
        let mut k: usize = 0;
        while k < order.len()
            invariant
                k <= order@.len(),
                paths == root_paths(roots@),
                positions_within(order@, roots@.len()),
                searched@.len() == k,
                forall|j: int| 0 <= j < k ==> #[trigger] root_paths(searched@)[j] == paths[order@[j] as int],
            decreases order@.len() - k,
        {
            let root = copy_path(&roots[order[k]]);
            let ghost prior = searched@;
            searched.push(root);
            proof {
                assert(paths[order@[k as int] as int] == texts(roots@[order@[k as int] as int]@));
                assert forall|j: int| 0 <= j < k + 1 implies #[trigger] root_paths(searched@)[j] == paths[order@[j] as int] by {
                    if j < k {
                        assert(searched@[j] == prior[j]);
                        assert(root_paths(prior)[j] == paths[order@[j] as int]);
                    }
                }
            }
            k = k + 1;
        }
        proof {
            let found = root_paths(searched@);
            assert forall|x: int| 0 <= x < found.len() implies #[trigger] paths.contains(found[x])
                && searched_root(paths, depth is Some, found[x]) by {
                assert(found[x] == paths[order@[x] as int]);
            }
            assert forall|x: int, y: int| 0 <= x < y < found.len() implies searched_before(#[trigger] found[x], #[trigger] found[y]) by {
                assert(found[x] == paths[order@[x] as int]);
                assert(found[y] == paths[order@[y] as int]);
            }
            assert forall|p: Seq<Seq<char>>| #[trigger] paths.contains(p) && searched_root(paths, depth is Some, p) implies found.contains(p) by {
                let i = choose|i: int| 0 <= i < paths.len() && paths[i] == p;
                assert(lists_root(paths, order@, i));
                let k = choose|k: int| 0 <= k < order@.len() && paths[#[trigger] order@[k] as int] == paths[i];
                assert(found[k] == p);
            }
        }
        Discovery {
            roots: searched,
            next_root: 0,
            depth,
            cross_filesystems,
            device: 0,
            queue: VecDeque::new(),
            current: Pending { path: Vec::new(), level: 0, parent_has_cargo: None },
            phase: Phase::Start,
            candidates: Vec::new(),
        }
    }

    /// The directory being examined.
    pub fn current_path(&self) -> (r: &Vec<String>)
        ensures
            r == &self.current.path,
    {
        &self.current.path
    }

    /// The root being searched, once one was started.
    pub fn current_root(&self) -> (r: Option<&Vec<String>>)
        ensures
            r == (if 0 < self.next_root <= self.roots@.len() { Some(&self.roots@[self.next_root - 1]) } else { None::<&Vec<String>> }),
    {
        if 0 < self.next_root && self.next_root <= self.roots.len() {
            Some(&self.roots[self.next_root - 1])
        } else {
            None
        }
    }

    /// A directory that may be examined; see [`qualify`].
    fn qualify(&mut self) -> (r: Request)
        requires
            old(self).wf(),
        ensures
            final(self).wf(),
            (final(self).dview(), r) == qualify(old(self).dview()),
            final(self).roots@ == old(self).roots@,
            final(self).candidates@ == old(self).candidates@,
    {
        let n = self.current.path.len();
        let verdict = if n > 0 {
            qualification(self.current.path[n - 1].as_str(), self.current.parent_has_cargo)
        } else {
            proof {
                reveal_strlit("");
            }
            qualification("", self.current.parent_has_cargo)
        };
        proof {
            if n > 0 {
                assert(last_component(self.dview().current.path) == self.current.path@[n - 1]@);
            } else {
                assert(last_component(self.dview().current.path) =~= ""@);
            }
        }
        match verdict {
            Qualification::Qualifies => {
                self.phase = Phase::AwaitGit;
                Request::GitCheck
            },
            Qualification::Rejected => self.descend(),
            Qualification::IfParentHasCargoManifest => {
                self.phase = Phase::AwaitManifest;
                Request::ParentManifest
            },
            Qualification::IfVirtualEnvironment => {
                self.phase = Phase::AwaitVirtualEnvironment;
                Request::VirtualEnvironment
            },
        }
    }

    /// A directory that is no candidate; see [`descend`].
    fn descend(&mut self) -> (r: Request)
        requires
            old(self).wf(),
        ensures
            final(self).wf(),
            (final(self).dview(), r) == descend(old(self).dview()),
            final(self).roots@ == old(self).roots@,
            final(self).candidates@ == old(self).candidates@,
    {
        if crate::clean::descends_from(self.depth, self.current.level) {
            self.phase = Phase::AwaitListing;
            Request::Listing
        } else {
            self.advance()
        }
    }

    /// Queue the subdirectories of the current directory that `entries` lists.
    fn queue_children(&mut self, entries: &Vec<ListedEntry>)
        requires
            old(self).wf(),
        ensures
            final(self).wf(),
            final(self).dview() == (DiscoveryView {
                queue: old(self).dview().queue + children(old(self).dview().current, entries@),
                ..old(self).dview()
            }),
            final(self).roots@ == old(self).roots@,
            final(self).candidates@ == old(self).candidates@,
    {
        let has_cargo = has_listed(entries, "Cargo.toml", false);
        let names = subdirectories_to_visit(entries);
        let ghost start = self.dview();
        let ghost kids = children(start.current, entries@);
        proof {
            reveal_strlit("Cargo.toml");
        }
        let mut i: usize = 0;
        while i < names.len()
            invariant
                self.wf(),
                i <= names@.len(),
                names@.map_values(|s: String| s@) == visited_subdirectories(entries@),
                kids == children(start.current, entries@),
                has_cargo == listing_has(entries@, "Cargo.toml"@, false),
                self.dview() == (DiscoveryView { queue: start.queue + kids.take(i as int), ..start }),
                self.roots@ == old(self).roots@,
                self.candidates@ == old(self).candidates@,
            decreases names@.len() - i,
        {
            let mut child = copy_path(&self.current.path);
            let name = copy_string(&names[i]);
            let ghost parent_path = child@;
            child.push(name);
            let length = child.len();
            proof {
                assert(texts(child@) =~= texts(parent_path).push(name@));
                assert(names@.map_values(|s: String| s@)[i as int] == names@[i as int]@);
            }
            let level = self.current.level + 1;
            let ghost prior = self.queue@;
            let ghost pre_view = self.dview().queue;
            let pending = Pending { path: child, level, parent_has_cargo: Some(has_cargo) };
            let ghost added = pending.pview();
            self.queue.push_back(pending);
            i = i + 1;
            proof {
                assert(kids[i - 1] == added);
                assert(self.queue@ == prior.push(pending));
                assert(pre_view == start.queue + kids.take(i - 1));
                assert(kids.take(i as int) =~= kids.take(i - 1).push(added));
                assert forall|j: int| 0 <= j < self.queue@.len() implies #[trigger] self.dview().queue[j] == pre_view.push(added)[j] by {
                    if j < prior.len() {
                        assert(self.queue@[j] == prior[j]);
                    }
                }
                assert(self.dview().queue =~= pre_view.push(added));
                assert(self.dview().queue =~= start.queue + kids.take(i as int));
                assert forall|k: int| 0 <= k < self.queue@.len() implies #[trigger] self.queue@[k].level <= self.queue@[k].path@.len() by {
                    if k < prior.len() {
                        assert(self.queue@[k] == prior[k]);
                    }
                }
            }
        }
        proof {
            assert(kids.take(names@.len() as int) =~= kids);
        }
    }

    /// Take `answer` and say what the search needs next; see [`transition`].
    pub fn step(&mut self, answer: Answer) -> (r: Request)
        requires
            old(self).wf(),
            expects(old(self).phase, answer),
        ensures
            final(self).wf(),
            (final(self).dview(), r) == transition(old(self).dview(), answer),
    {
        match self.phase {
            Phase::Done => Request::Finished,
            Phase::Start => self.advance(),
            Phase::AwaitRootDevice => {
                match answer {
                    Answer::Device(Some(d)) => {
                        self.device = d;
                    },
                    _ => {
                        self.queue.clear();
                    },
                }
                self.advance()
            },
            Phase::AwaitExclusion => {
                match answer {
                    Answer::Excluded(false) => {
                        if self.cross_filesystems {
                            self.qualify()
                        } else {
                            self.phase = Phase::AwaitDevice;
                            Request::Device
                        }
                    },
                    _ => self.advance(),
                }
            },
            Phase::AwaitDevice => {
                match answer {
                    Answer::Device(Some(d)) => if d == self.device { self.qualify() } else { self.advance() },
                    _ => self.advance(),
                }
            },
            Phase::AwaitManifest | Phase::AwaitVirtualEnvironment => {
                match answer {
                    Answer::HasFile(true) => {
                        self.phase = Phase::AwaitGit;
                        Request::GitCheck
                    },
                    _ => self.descend(),
                }
            },
            Phase::AwaitGit => {
                match answer {
                    Answer::Git(Some(true)) => {
                        let found = copy_path(&self.current.path);
                        let ghost prior = self.candidates@;
                        self.candidates.push(found);
                        self.phase = Phase::AwaitReported;
                        proof {
                            assert(self.dview().candidates =~= old(self).dview().candidates.push(old(self).dview().current.path));
                        }
                        Request::Candidate
                    },
                    Answer::Git(Some(false)) => self.descend(),
                    _ => self.advance(),
                }
            },
            Phase::AwaitReported => self.advance(),
            Phase::AwaitListing => {
                match answer {
                    Answer::Listing(Some(entries)) => {
                        if !is_bare_repository(&entries) {
                            self.queue_children(&entries);
                        }
                        self.advance()
                    },
                    _ => self.advance(),
                }
            },
        }
    }
}

} // verus!
