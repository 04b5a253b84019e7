//! Options of a filesystem walk, and the dense identifiers of the directories it visits.
use vstd::prelude::*;
use std::collections::HashMap;

verus! {

/// Controls when entries are yielded relative to their descendants.
#[derive(Clone, Copy, Debug, PartialEq, Eq, Structural)]
pub enum Order {
    /// Yield entries as their parent-directory reads complete.
    Completion,
    /// Yield every parent before its descendants.
    ParentFirst,
}

/// Filesystem metadata requested during traversal.
#[derive(Clone, Copy, Debug, PartialEq, Eq, Structural)]
pub struct Options {
    /// Collect only entry types, leaving metadata unread. This also disables APFS clone
    /// metadata collection.
    pub skip_metadata: bool,
    /// Collect APFS clone identity and data-fork allocation metadata.
    pub apfs_clone_metadata: bool,
}

impl Default for Options {
    fn default() -> (r: Options)
        ensures
            !r.skip_metadata,
            !r.apfs_clone_metadata,
    {
        Options { skip_metadata: false, apfs_clone_metadata: false }
    }
}

impl Options {
    /// The same options, collecting only entry types.
    pub fn skip_metadata(self) -> (r: Options)
        ensures
            r == (Options { skip_metadata: true, ..self }),
    {
        Options { skip_metadata: true, ..self }
    }
}

/// Dense identifier of a directory within one filesystem walk, stored as its index plus one so
/// that it is never zero.
#[derive(Clone, Copy, Debug, PartialEq, Eq, Structural)]
pub struct DirectoryId {
    stored: u32,
}

impl DirectoryId {
    /// The stored value is never zero.
    #[verifier::type_invariant]
    spec fn stored_nonzero(self) -> bool {
        self.stored >= 1
    }

    /// The identifier's zero-based index.
    pub closed spec fn spec_index(self) -> nat {
        (self.stored - 1) as nat
    }

    /// The identifier of the directory with zero-based index `index`, which must be below
    /// `u32::MAX`.
    pub fn new(index: usize) -> (r: DirectoryId)
        requires
            index < u32::MAX,
        ensures
            r.spec_index() == index,
    {
        DirectoryId { stored: (index + 1) as u32 }
    }

    /// The zero-based index, for indexing compact side tables.
    pub fn index(self) -> (r: usize)
        ensures
            r == self.spec_index(),
    {
        proof {
            use_type_invariant(&self);
        }
        (self.stored - 1) as usize
    }
}


/// What is known of a walk root before it is walked.
#[derive(Clone, Copy, Debug, PartialEq, Eq, Structural)]
pub struct RootStart {
    /// The root's index among the inputs.
    pub root_idx: usize,
    /// Whether reading the root's entry succeeded.
    pub readable: bool,
    /// Whether its metadata was read or not requested, rather than failed.
    pub metadata_ok: bool,
    /// Whether it is a directory.
    pub is_dir: bool,
    /// Whether the walk may descend into it.
    pub descend: bool,
}

/// An event that starting the walks yields before any directory is read.
#[derive(Clone, Copy, Debug, PartialEq, Eq, Structural)]
pub enum StartEvent {
    /// The root's own entry, with its directory identifier if it is a readable directory.
    Entry { root_idx: usize, directory_id: Option<usize> },
    /// The root has nothing to walk.
    Finished { root_idx: usize },
}

/// The first directory read of a root.
#[derive(Clone, Copy, Debug, PartialEq, Eq, Structural)]
pub struct RootJob {
    /// The root's index.
    pub root_idx: usize,
    /// The identifier of the root directory.
    pub directory_id: usize,
}

/// The events, jobs and number of directory identifiers that starting `roots` yields: every
/// readable directory root takes the next identifier; a root whose directory may be entered gets
/// a job, any other is finished at once, right after its entry.
pub open spec fn begin_spec(roots: Seq<RootStart>) -> (Seq<StartEvent>, Seq<RootJob>, nat)
    decreases roots.len(),
{
    if roots.len() == 0 {
        (Seq::empty(), Seq::empty(), 0)
    } else {
        let (events, jobs, next_id) = begin_spec(roots.drop_last());
        let r = roots.last();
        let id: Option<usize> = if r.readable && r.is_dir { Some(next_id as usize) } else { None };
        let has_job = r.readable && r.metadata_ok && r.is_dir && r.descend;
        let events = events.push(StartEvent::Entry { root_idx: r.root_idx, directory_id: id });
        let events = if has_job { events } else { events.push(StartEvent::Finished { root_idx: r.root_idx }) };
        let jobs = if has_job { jobs.push(RootJob { root_idx: r.root_idx, directory_id: next_id as usize }) } else { jobs };
        (events, jobs, if r.readable && r.is_dir { next_id + 1 } else { next_id })
    }
}

proof fn lemma_begin_ids_bounded(roots: Seq<RootStart>)
    ensures
        begin_spec(roots).2 <= roots.len(),
    decreases roots.len(),
{
    if roots.len() > 0 {
        lemma_begin_ids_bounded(roots.drop_last());
    }
}

/// Start walking `roots`, in order; see [`begin_spec`]. The events are in the order they are
/// delivered.
pub fn begin_walks(roots: &Vec<RootStart>) -> (r: (Vec<StartEvent>, Vec<RootJob>, usize))
    requires
        roots@.len() < u32::MAX,
    ensures
        (r.0@, r.1@, r.2 as nat) == begin_spec(roots@),
{
    let mut events: Vec<StartEvent> = Vec::new();
    let mut jobs: Vec<RootJob> = Vec::new();
    let mut next_id: usize = 0;
    let mut i: usize = 0;
    while i < roots.len()
        invariant
            i <= roots@.len() < u32::MAX,
            (events@, jobs@, next_id as nat) == begin_spec(roots@.subrange(0, i as int)),
        decreases roots@.len() - i,
    {
        let r = roots[i];
        proof {
            lemma_begin_ids_bounded(roots@.subrange(0, i as int));
            assert(roots@.subrange(0, i + 1).drop_last() =~= roots@.subrange(0, i as int));
        }
        let id = if r.readable && r.is_dir { Some(next_id) } else { None };
        let has_job = r.readable && r.metadata_ok && r.is_dir && r.descend;
        events.push(StartEvent::Entry { root_idx: r.root_idx, directory_id: id });
        if !has_job {
            events.push(StartEvent::Finished { root_idx: r.root_idx });
        } else {
            jobs.push(RootJob { root_idx: r.root_idx, directory_id: next_id });
        }
        if r.readable && r.is_dir {
            next_id = next_id + 1;
        }
        i = i + 1;
    }
    assert(roots@.subrange(0, roots@.len() as int) =~= roots@);
    (events, jobs, next_id)
}

/// The number of roots in `counts` with queued or running jobs.
pub open spec fn active_count(counts: Seq<usize>) -> nat
    decreases counts.len(),
{
    if counts.len() == 0 { 0 } else { active_count(counts.drop_last()) + if counts.last() > 0 { 1nat } else { 0 } }
}

proof fn lemma_active_count_update(counts: Seq<usize>, i: int, v: usize)
    requires
        0 <= i < counts.len(),
    ensures
        active_count(counts.update(i, v)) + (if counts[i] > 0 { 1int } else { 0 })
            == active_count(counts) + (if v > 0 { 1int } else { 0 }),
    decreases counts.len(),
{
    if i < counts.len() - 1 {
        assert(counts.update(i, v).drop_last() =~= counts.drop_last().update(i, v));
        lemma_active_count_update(counts.drop_last(), i, v);
    } else {
        assert(counts.update(i, v).drop_last() =~= counts.drop_last());
    }
}

proof fn lemma_active_count_zero(counts: Seq<usize>)
    ensures
        active_count(counts) == 0 <==> forall|i: int| 0 <= i < counts.len() ==> counts[i] == 0,
        active_count(counts) <= counts.len(),
    decreases counts.len(),
{
    if counts.len() > 0 {
        lemma_active_count_zero(counts.drop_last());
        if active_count(counts) == 0 {
            assert forall|i: int| 0 <= i < counts.len() implies counts[i] == 0 by {
                if i < counts.len() - 1 {
                    assert(counts.drop_last()[i] == counts[i]);
                }
            }
        }
        if forall|i: int| 0 <= i < counts.len() ==> counts[i] == 0 {
            assert forall|i: int| 0 <= i < counts.drop_last().len() implies counts.drop_last()[i] == 0 by {
                assert(counts.drop_last()[i] == counts[i]);
            }
        }
    }
}

/// What finishing a job tells the consumer of a walk.
#[derive(Clone, Copy, Debug, PartialEq, Eq, Structural)]
pub struct Completion {
    /// The job's root has no more jobs: its last entries have been delivered.
    pub root_finished: bool,
    /// No root has jobs left: the walk is over.
    pub walk_finished: bool,
}

/// The accounting of queued and running jobs, per root. Roots are known by their indices, which
/// need not be dense: storage grows with the number of roots only.
pub struct JobAccounting {
    /// The position among the roots of each root index.
    pub positions: HashMap<usize, usize>,
    /// The number of queued or running jobs of the root at each position.
    pub jobs_per_root: Vec<usize>,
    /// The number of roots with queued or running jobs.
    pub active_roots: usize,
}

/// Whether no index occurs twice among `roots`.
pub open spec fn distinct_roots(roots: Seq<usize>) -> bool {
    forall|i: int, j: int| 0 <= i < j < roots.len() ==> roots[i] != roots[j]
}

impl JobAccounting {
    /// Every root index has a position, and the number of active roots is the number of roots
    /// with jobs.
    pub open spec fn wf(&self) -> bool {
        &&& self.active_roots == active_count(self.jobs_per_root@)
        &&& forall|k: usize| #[trigger] self.positions@.contains_key(k) ==> self.positions@[k] < self.jobs_per_root@.len()
    }

    /// Whether `root` is one of the roots.
    pub open spec fn has_root(&self, root: usize) -> bool {
        self.positions@.contains_key(root)
    }

    /// The number of queued or running jobs of `root`.
    pub open spec fn pending(&self, root: usize) -> usize {
        self.jobs_per_root@[self.positions@[root] as int]
    }

    /// Accounting for the roots with indices `roots`, all different, and their first jobs, one
    /// for each root in `root_jobs`, all of them different roots.
    pub fn start(roots: &Vec<usize>, root_jobs: &Vec<RootJob>) -> (r: JobAccounting)
        requires
            distinct_roots(roots@),
            forall|i: int| 0 <= i < root_jobs@.len() ==> roots@.contains(#[trigger] root_jobs@[i].root_idx),
            forall|i: int, j: int| 0 <= i < j < root_jobs@.len() ==> #[trigger] root_jobs@[i].root_idx != #[trigger] root_jobs@[j].root_idx,
        ensures
            r.wf(),
            r.jobs_per_root@.len() == roots@.len(),
            r.active_roots == root_jobs@.len(),
            forall|k: usize| r.has_root(k) <==> roots@.contains(k),
            forall|k: usize| #[trigger] r.has_root(k) ==> r.pending(k)
                == if exists|i: int| 0 <= i < root_jobs@.len() && root_jobs@[i].root_idx == k { 1usize } else { 0usize },
    {
        broadcast use vstd::std_specs::hash::group_hash_axioms;
        let mut positions: HashMap<usize, usize> = HashMap::new();
        let mut counts: Vec<usize> = Vec::new();
        let mut k: usize = 0;
        while k < roots.len()
            invariant
                k <= roots@.len(),
                distinct_roots(roots@),
                counts@ == Seq::new(k as nat, |i: int| 0usize),
                forall|q: usize| #[trigger] positions@.contains_key(q) <==> roots@.take(k as int).contains(q),
                forall|q: int| 0 <= q < k ==> #[trigger] positions@[roots@[q]] == q,
            decreases roots@.len() - k,
        {
            let ghost prior = positions@;
            positions.insert(roots[k], k);
            counts.push(0);
            proof {
                assert forall|q: usize| #[trigger] positions@.contains_key(q) <==> roots@.take(k + 1).contains(q) by {
                    if roots@.take(k + 1).contains(q) {
                        let m = choose|m: int| 0 <= m < k + 1 && #[trigger] roots@.take(k + 1)[m] == q;
                        if m < k {
                            assert(roots@.take(k as int)[m] == q);
                        }
                    }
                    if roots@.take(k as int).contains(q) {
                        let m = choose|m: int| 0 <= m < k && #[trigger] roots@.take(k as int)[m] == q;
                        assert(roots@.take(k + 1)[m] == q);
                    }
                    if q == roots@[k as int] {
                        assert(roots@.take(k + 1)[k as int] == q);
                    }
                }
                assert forall|q: int| 0 <= q < k + 1 implies #[trigger] positions@[roots@[q]] == q by {
                    if q < k {
                        assert(roots@[q] != roots@[k as int]);
                    }
                }
            }
            k = k + 1;
            assert(counts@ =~= Seq::new(k as nat, |i: int| 0usize));
        }
        proof {
            assert(roots@.take(roots@.len() as int) =~= roots@);
            lemma_active_count_zero(counts@);
        }
        let mut active: usize = 0;
        let mut j: usize = 0;
        while j < root_jobs.len()
            invariant
                j <= root_jobs@.len(),
                distinct_roots(roots@),
                counts@.len() == roots@.len(),
                forall|q: usize| #[trigger] positions@.contains_key(q) <==> roots@.contains(q),
                forall|q: int| 0 <= q < roots@.len() ==> #[trigger] positions@[roots@[q]] == q,
                forall|i: int| 0 <= i < root_jobs@.len() ==> roots@.contains(#[trigger] root_jobs@[i].root_idx),
                forall|a: int, b: int| 0 <= a < b < root_jobs@.len() ==> #[trigger] root_jobs@[a].root_idx != #[trigger] root_jobs@[b].root_idx,
                forall|q: int| 0 <= q < roots@.len() ==> #[trigger] counts@[q]
                    == if exists|i: int| 0 <= i < j && root_jobs@[i].root_idx == roots@[q] { 1usize } else { 0usize },
                active == j,
                active == active_count(counts@),
            decreases root_jobs@.len() - j,
        {
            let root = root_jobs[j].root_idx;
            let position = match positions.get(&root) {
                Some(p) => *p,
                None => {
                    proof {
                        assert(roots@.contains(root_jobs@[j as int].root_idx));
                    }
                    0
                },
            };
            proof {
                let q = choose|q: int| 0 <= q < roots@.len() && roots@[q] == root;
                assert(positions@[roots@[q]] == q);
                assert(position == q);
                assert(!exists|i: int| 0 <= i < j && root_jobs@[i].root_idx == roots@[q]) by {
                    if exists|i: int| 0 <= i < j && root_jobs@[i].root_idx == roots@[q] {
                        let i = choose|i: int| 0 <= i < j && root_jobs@[i].root_idx == roots@[q];
                        assert(root_jobs@[i].root_idx != root_jobs@[j as int].root_idx);
                    }
                }
                assert(counts@[position as int] == 0);
                lemma_active_count_update(counts@, position as int, 1);
                lemma_active_count_zero(counts@);
            }
            counts.set(position, 1);
            active = active + 1;
            j = j + 1;
            proof {
                assert forall|q: int| 0 <= q < roots@.len() implies #[trigger] counts@[q]
                    == if exists|i: int| 0 <= i < j && root_jobs@[i].root_idx == roots@[q] { 1usize } else { 0usize } by {
                    if q == position as int {
                        assert(root_jobs@[j - 1].root_idx == roots@[q]);
                    } else {
                        assert(roots@[q] != root);
                        if exists|i: int| 0 <= i < j && root_jobs@[i].root_idx == roots@[q] {
                            let i = choose|i: int| 0 <= i < j && root_jobs@[i].root_idx == roots@[q];
                            assert(i != j - 1);
                        }
                    }
                }
            }
        }
        let r = JobAccounting { positions, jobs_per_root: counts, active_roots: active };
        proof {
            assert forall|k: usize| #[trigger] r.positions@.contains_key(k) implies r.positions@[k] < r.jobs_per_root@.len() by {
                let q = choose|q: int| 0 <= q < roots@.len() && roots@[q] == k;
                assert(r.positions@[roots@[q]] == q);
            }
            assert forall|k: usize| #[trigger] r.has_root(k) implies r.pending(k)
                == if exists|i: int| 0 <= i < root_jobs@.len() && root_jobs@[i].root_idx == k { 1usize } else { 0usize } by {
                let q = choose|q: int| 0 <= q < roots@.len() && roots@[q] == k;
                assert(r.positions@[roots@[q]] == q);
            }
        }
        r
    }

    fn position_of(&self, root: usize) -> (p: usize)
        requires
            self.wf(),
            self.has_root(root),
        ensures
            p == self.positions@[root],
            p < self.jobs_per_root@.len(),
    {
        broadcast use vstd::std_specs::hash::group_hash_axioms;
        match self.positions.get(&root) {
            Some(p) => *p,
            None => 0,
        }
    }

    /// Count `count` more jobs for `root`, which has a job running.
    pub fn add_pending(&mut self, root: usize, count: usize)
        requires
            old(self).wf(),
            old(self).has_root(root),
            old(self).pending(root) >= 1,
            old(self).pending(root) + count <= usize::MAX,
        ensures
            final(self).wf(),
            final(self).positions@ == old(self).positions@,
            final(self).jobs_per_root@ == old(self).jobs_per_root@.update(old(self).positions@[root] as int, (old(self).pending(root) + count) as usize),
            final(self).active_roots == old(self).active_roots,
    {
        let position = self.position_of(root);
        let current = self.jobs_per_root[position];
        proof {
            lemma_active_count_update(self.jobs_per_root@, position as int, (current + count) as usize);
        }
        self.jobs_per_root.set(position, current + count);
    }

    /// Mark a job of `root` complete. The root's last job finishes the root; the last active
    /// root's last job finishes the walk.
    pub fn finish_pending(&mut self, root: usize) -> (r: Completion)
        requires
            old(self).wf(),
            old(self).has_root(root),
            old(self).pending(root) >= 1,
        ensures
            final(self).wf(),
            final(self).positions@ == old(self).positions@,
            final(self).jobs_per_root@ == old(self).jobs_per_root@.update(old(self).positions@[root] as int, (old(self).pending(root) - 1) as usize),
            r.root_finished == (old(self).pending(root) == 1),
            final(self).active_roots == if r.root_finished { (old(self).active_roots - 1) as usize } else { old(self).active_roots },
            r.walk_finished == (r.root_finished && old(self).active_roots == 1),
            r.walk_finished <==> (forall|i: int| 0 <= i < final(self).jobs_per_root@.len() ==> #[trigger] final(self).jobs_per_root@[i] == 0),
    {
        let position = self.position_of(root);
        let current = self.jobs_per_root[position];
        proof {
            lemma_active_count_update(self.jobs_per_root@, position as int, (current - 1) as usize);
        }
        self.jobs_per_root.set(position, current - 1);
        let root_finished = current == 1;
        let mut walk_finished = false;
        if root_finished {
            walk_finished = self.active_roots == 1;
            self.active_roots = self.active_roots - 1;
        }
        assert(self.active_roots == active_count(self.jobs_per_root@));
        proof {
            lemma_active_count_zero(self.jobs_per_root@);
            if !root_finished {
                assert(self.jobs_per_root@[position as int] != 0);
            } else if !walk_finished {
                assert(self.active_roots != 0);
                assert(!(forall|i: int| 0 <= i < self.jobs_per_root@.len() ==> self.jobs_per_root@[i] == 0));
            }
        }
        Completion { root_finished, walk_finished }
    }
}

/// A walk is over exactly when no root has jobs left, so it finishes after every root has.
pub proof fn law_walk_finishes_after_every_root(accounting: JobAccounting)
    requires
        accounting.wf(),
    ensures
        accounting.active_roots == 0 <==> forall|i: int| 0 <= i < accounting.jobs_per_root@.len() ==> #[trigger] accounting.jobs_per_root@[i] == 0,
{
    lemma_active_count_zero(accounting.jobs_per_root@);
}


/// The number of entries published together, and of entries whose metadata is read together.
pub const ENTRY_CHUNK_SIZE: usize = 1024;

/// What reading a directory does with one of its entries.
#[derive(Clone, Copy, Debug, PartialEq, Eq, Structural)]
pub enum EntryDisposition {
    /// Its metadata is read later, together with other entries of the directory.
    DeferMetadata,
    /// It is published, and the directory it is gets read as a job of its own.
    PublishAndDescend,
    /// It is published.
    Publish,
}

/// What reading a directory does with an entry: an entry without the metadata that was asked
/// for waits for it; a directory that may be entered becomes a job; every other entry, read
/// errors included, is published as it is.
pub fn entry_disposition(skip_metadata: bool, readable: bool, has_metadata: bool, is_dir: bool, descend: bool) -> (r: EntryDisposition)
    ensures
        r == if !skip_metadata && readable && !has_metadata {
            EntryDisposition::DeferMetadata
        } else if readable && is_dir && descend {
            EntryDisposition::PublishAndDescend
        } else {
            EntryDisposition::Publish
        },
{
    if !skip_metadata && readable && !has_metadata {
        EntryDisposition::DeferMetadata
    } else if readable && is_dir && descend {
        EntryDisposition::PublishAndDescend
    } else {
        EntryDisposition::Publish
    }
}

/// Whether the walk enters a directory entry `depth` levels below its root: it lies on the root's
/// device, where filesystems may not be crossed and its metadata tells (`same_device`), it is
/// the root or not one of the ignored directories, and the ignore patterns do not exclude it.
pub fn descends_into(cross_filesystems: bool, same_device: Option<bool>, depth: usize, ignored_directory: bool, excluded: bool) -> (r: bool)
    ensures
        r == ((cross_filesystems || same_device != Some(false)) && (depth == 0 || !ignored_directory) && !excluded),
{
    (cross_filesystems || match same_device { Some(same) => same, None => true })
        && (depth == 0 || !ignored_directory)
        && !excluded
}

/// Whether the walk reports an entry `depth` levels below its root: not the root where roots are
/// skipped, and not an entry the ignore patterns exclude.
pub fn reports_entry(skip_root: bool, depth: usize, excluded: bool) -> (r: bool)
    ensures
        r == ((!skip_root || depth > 0) && !excluded),
{
    (!skip_root || depth > 0) && !excluded
}

/// Whether a batch of `len` entries is full and must be published or have its metadata read.
pub fn chunk_is_full(len: usize) -> (r: bool)
    ensures
        r == (len == ENTRY_CHUNK_SIZE),
{
    len == ENTRY_CHUNK_SIZE
}

/// The most removal events a deletion buffers before the tree is updated.
pub const PENDING_REMOVALS_LIMIT: usize = 16_384;

/// Whether buffered removal events must update the tree now: when there are too many of them,
/// or when the deletion finished.
pub fn removals_need_flush(pending: usize, finished: bool) -> (r: bool)
    ensures
        r == (pending >= PENDING_REMOVALS_LIMIT || finished),
{
    pending >= PENDING_REMOVALS_LIMIT || finished
}

} // verus!
