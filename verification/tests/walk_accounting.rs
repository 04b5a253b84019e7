use dua::walk::{
    begin_walks, chunk_is_full, entry_disposition, removals_need_flush, EntryDisposition, JobAccounting, RootJob,
    RootStart, StartEvent, ENTRY_CHUNK_SIZE, PENDING_REMOVALS_LIMIT,
};

fn root(root_idx: usize, readable: bool, is_dir: bool, descend: bool) -> RootStart {
    RootStart { root_idx, readable, metadata_ok: true, is_dir, descend }
}

#[test]
fn sparse_root_indices_do_not_size_internal_storage() {
    let (events, jobs, ids) = begin_walks(&vec![root(usize::MAX, true, false, true)]);
    assert!(events.iter().all(|event| match event {
        StartEvent::Entry { root_idx, .. } | StartEvent::Finished { root_idx } => *root_idx == usize::MAX,
    }));
    assert_eq!(events.last(), Some(&StartEvent::Finished { root_idx: usize::MAX }));
    assert!(jobs.is_empty());
    assert_eq!(ids, 0);
    let accounting = JobAccounting::start(&vec![usize::MAX], &jobs);
    assert_eq!(accounting.jobs_per_root.len(), 1);
    assert_eq!(accounting.active_roots, 0);
}

#[test]
fn directory_roots_take_identifiers_and_jobs() {
    let roots = vec![root(3, true, true, true), root(9, false, true, true), root(4, true, true, false), root(5, true, false, true)];
    let (events, jobs, ids) = begin_walks(&roots);
    assert_eq!(
        events,
        vec![
            StartEvent::Entry { root_idx: 3, directory_id: Some(0) },
            StartEvent::Entry { root_idx: 9, directory_id: None },
            StartEvent::Finished { root_idx: 9 },
            StartEvent::Entry { root_idx: 4, directory_id: Some(1) },
            StartEvent::Finished { root_idx: 4 },
            StartEvent::Entry { root_idx: 5, directory_id: None },
            StartEvent::Finished { root_idx: 5 },
        ]
    );
    assert_eq!(jobs, vec![RootJob { root_idx: 3, directory_id: 0 }]);
    assert_eq!(ids, 2);
    let failed_metadata = RootStart { metadata_ok: false, ..root(1, true, true, true) };
    let (events, jobs, _) = begin_walks(&vec![failed_metadata]);
    assert_eq!(events.len(), 2);
    assert!(jobs.is_empty());
}

#[test]
fn roots_finish_with_their_last_job_and_the_walk_with_the_last_root() {
    let jobs = vec![RootJob { root_idx: 70, directory_id: 0 }, RootJob { root_idx: 8, directory_id: 1 }];
    let mut accounting = JobAccounting::start(&vec![8, 70, 2], &jobs);
    assert_eq!(accounting.active_roots, 2);
    accounting.add_pending(70, 2);
    let done = accounting.finish_pending(70);
    assert!(!done.root_finished && !done.walk_finished);
    let done = accounting.finish_pending(8);
    assert!(done.root_finished && !done.walk_finished);
    accounting.finish_pending(70);
    let done = accounting.finish_pending(70);
    assert!(done.root_finished && done.walk_finished);
    assert_eq!(accounting.active_roots, 0);
}

#[test]
fn entries_are_deferred_published_or_descended_into() {
    assert_eq!(entry_disposition(false, true, false, true, true), EntryDisposition::DeferMetadata);
    assert_eq!(entry_disposition(true, true, false, true, true), EntryDisposition::PublishAndDescend);
    assert_eq!(entry_disposition(false, true, true, true, false), EntryDisposition::Publish);
    assert_eq!(entry_disposition(false, false, false, true, true), EntryDisposition::Publish);
    assert!(chunk_is_full(ENTRY_CHUNK_SIZE));
    assert!(!chunk_is_full(ENTRY_CHUNK_SIZE - 1));
    assert!(removals_need_flush(PENDING_REMOVALS_LIMIT, false));
    assert!(!removals_need_flush(PENDING_REMOVALS_LIMIT - 1, false));
    assert!(removals_need_flush(0, true));
}
