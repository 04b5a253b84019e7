use dua::aggregate::{
    error_text, size_text, Aggregation, CountingOptions, EntryMetadata, EntryOutcome, Links, WalkResult,
    CLEAR_CURRENT_LINE,
};
use dua::format::ByteFormat;

fn byte_counts(out: &str) -> Vec<u128> {
    out.match_indices(" b")
        .map(|(unit, _)| {
            out[..unit]
                .chars()
                .rev()
                .take_while(char::is_ascii_digit)
                .collect::<String>()
                .chars()
                .rev()
                .collect::<String>()
                .parse()
                .unwrap()
        })
        .collect()
}

fn options() -> CountingOptions {
    CountingOptions { count_hard_links: false, apparent_size: true, cross_filesystems: true }
}

fn report_lines(aggregation: &Aggregation, roots: &[usize], format: ByteFormat) -> String {
    let mut out = String::new();
    for &root in roots {
        let a = aggregation.aggregates[root];
        out.push_str(&format!(
            "{} {}{}\n",
            size_text(format, a.bytes),
            aggregation.paths[root],
            error_text(a.errors)
        ));
    }
    out
}

#[test]
fn completed_roots_stream_in_input_order() {
    let mut aggregation = Aggregation::new(vec!["first".to_string(), "second".to_string()], options());
    aggregation.aggregates[0].bytes = 1;
    aggregation.aggregates[1].bytes = 2;
    aggregation.progress_visible = true;
    let mut out = String::new();
    let mut err = String::new();

    aggregation.root_finished(1);
    let report = aggregation.output_completed();
    if report.clear_progress {
        err.push_str(CLEAR_CURRENT_LINE);
    }
    out.push_str(&report_lines(&aggregation, &report.roots, ByteFormat::Bytes));
    assert!(out.is_empty(), "later roots must not overtake earlier roots");

    aggregation.root_finished(0);
    let report = aggregation.output_completed();
    if report.clear_progress {
        err.push_str(CLEAR_CURRENT_LINE);
    }
    out.push_str(&report_lines(&aggregation, &report.roots, ByteFormat::Bytes));

    assert_eq!(byte_counts(&out), [1, 2]);
    assert!(out.find("first").unwrap() < out.find("second").unwrap(), "the first root is also emitted first");
    assert_eq!(aggregation.next_output, 2, "output stopped at root {}", aggregation.next_output);
    assert_eq!(err, CLEAR_CURRENT_LINE, "unexpected progress cleanup: {err:?}");
    assert!(!aggregation.progress_visible, "progress remained visible after cleanup");
}

fn entry(depth: usize, len: u64, device: u64, inode: u64, nlinks: u64) -> EntryOutcome {
    EntryOutcome {
        depth,
        is_file: depth == 0,
        metadata: Some(EntryMetadata { len, size_on_disk: Some(len * 2), device, inode, links: Links::Count(nlinks) }),
    }
}

#[test]
fn hard_links_count_once_unless_all_are_counted() {
    let mut aggregation = Aggregation::new(vec!["a".to_string(), "b".to_string()], options());
    aggregation.record_entry(0, entry(1, 100, 1, 7, 2));
    aggregation.record_entry(1, entry(1, 100, 1, 7, 2));
    assert_eq!(aggregation.aggregates[0].bytes, 100, "the first root to reach a link owns it");
    assert_eq!(aggregation.aggregates[1].bytes, 0);

    let mut counting_all = Aggregation::new(
        vec!["a".to_string()],
        CountingOptions { count_hard_links: true, ..options() },
    );
    counting_all.record_entry(0, entry(1, 100, 1, 7, 2));
    counting_all.record_entry(0, entry(1, 100, 1, 7, 2));
    assert_eq!(counting_all.aggregates[0].bytes, 200);
}

#[test]
fn sizes_on_disk_other_devices_and_errors() {
    let mut aggregation = Aggregation::new(
        vec!["a".to_string()],
        CountingOptions { count_hard_links: false, apparent_size: false, cross_filesystems: false },
    );
    aggregation.set_root_device(0, 1);
    aggregation.record_entry(0, entry(0, 10, 1, 1, 1));
    aggregation.record_entry(0, entry(1, 10, 2, 2, 1));
    aggregation.record_entry(0, EntryOutcome { depth: 1, is_file: true, metadata: None });
    aggregation.record_entry(0, EntryOutcome {
        depth: 1,
        is_file: true,
        metadata: Some(EntryMetadata { len: 5, size_on_disk: None, device: 1, inode: 3, links: Links::Count(1) }),
    });
    let a = aggregation.aggregates[0];
    assert_eq!(a.bytes, 20, "only the root's own size on disk counts");
    assert_eq!(a.errors, 2);
    assert!(a.is_file);
    assert_eq!(aggregation.stats.entries_traversed, 4);
    assert_eq!(aggregation.stats.largest_file_in_bytes, 20);
    assert_eq!(aggregation.stats.smallest_file_in_bytes, 0);
    let (total, result) = aggregation.totals();
    assert_eq!(total, 20);
    assert_eq!(result.num_errors, 2);
    assert_eq!(result.to_exit_code(), 1);
    assert_eq!(WalkResult { num_errors: 0 }.to_exit_code(), 0);
}

#[test]
fn failed_roots_complete_with_an_error() {
    let mut aggregation = Aggregation::new(vec!["missing".to_string(), "b".to_string()], options());
    aggregation.root_failed(0);
    let report = aggregation.output_completed();
    assert_eq!(report.roots, vec![0]);
    assert!(!report.clear_progress);
    assert_eq!(error_text(aggregation.aggregates[0].errors), "  <1 IO Error>");
    assert_eq!(error_text(3), "  <3 IO Errors>");
    assert_eq!(error_text(0), "");
}

#[test]
fn statistics_without_entries_have_no_smallest_file() {
    let mut aggregation = Aggregation::new(vec![], options());
    aggregation.finish_statistics();
    assert_eq!(aggregation.stats.smallest_file_in_bytes, 0);
}

#[test]
fn sorting_by_size_is_stable() {
    let mut aggregation = Aggregation::new(
        vec!["a".to_string(), "b".to_string(), "c".to_string(), "d".to_string()],
        options(),
    );
    aggregation.aggregates[0].bytes = 5;
    aggregation.aggregates[1].bytes = 1;
    aggregation.aggregates[2].bytes = 5;
    aggregation.aggregates[3].bytes = 0;
    assert_eq!(aggregation.sorted_roots(), vec![3, 1, 0, 2]);
}

#[test]
fn size_column_is_right_aligned() {
    assert_eq!(size_text(ByteFormat::Bytes, 42), "        42 b");
    assert_eq!(size_text(ByteFormat::Bytes, 42).len(), ByteFormat::Bytes.width());
}

fn with_links(depth: usize, len: u64, device: u64, inode: u64, links: Links) -> EntryOutcome {
    EntryOutcome { depth, is_file: false, metadata: Some(EntryMetadata { len, size_on_disk: Some(len), device, inode, links }) }
}

#[test]
fn windows_hard_link_ids_count_each_file_once() {
    let mut aggregation = Aggregation::new(vec!["a".to_string()], options());
    aggregation.record_entry(0, with_links(1, 10, 0, 0, Links::HardLinkId(Some((3, 9)))));
    aggregation.record_entry(0, with_links(1, 10, 0, 0, Links::HardLinkId(Some((3, 9)))));
    aggregation.record_entry(0, with_links(1, 10, 0, 0, Links::HardLinkId(Some((3, 9)))));
    aggregation.record_entry(0, with_links(1, 7, 0, 0, Links::HardLinkId(None)));
    aggregation.record_entry(0, with_links(1, 7, 0, 0, Links::HardLinkId(None)));
    assert_eq!(aggregation.aggregates[0].bytes, 24);
}

#[test]
fn darwin_directories_reported_with_one_link_are_resolved_on_revisit() {
    let mut aggregation = Aggregation::new(vec!["a".to_string(), "b".to_string()], options());
    aggregation.record_entry(0, with_links(1, 64, 1, 5, Links::DarwinDirectory { link_count: 1, actual_links: None }));
    assert!(aggregation.inodes.needs_link_resolution((1, 5), 1));
    aggregation.record_entry(1, with_links(1, 64, 1, 5, Links::DarwinDirectory { link_count: 1, actual_links: Some(2) }));
    assert_eq!(aggregation.aggregates[0].bytes, 64);
    assert_eq!(aggregation.aggregates[1].bytes, 0, "the revisit of a directory with two links is not counted again");

    let mut single = Aggregation::new(vec!["a".to_string()], options());
    single.record_entry(0, with_links(1, 64, 1, 6, Links::DarwinDirectory { link_count: 1, actual_links: None }));
    single.record_entry(0, with_links(1, 64, 1, 6, Links::DarwinDirectory { link_count: 1, actual_links: Some(1) }));
    assert_eq!(single.aggregates[0].bytes, 128, "a directory with a single actual link counts at every visit");

    let mut unknown = Aggregation::new(vec!["a".to_string()], options());
    unknown.record_entry(0, with_links(1, 4, 1, 1, Links::Unknown));
    unknown.record_entry(0, with_links(1, 4, 1, 1, Links::Unknown));
    assert_eq!(unknown.aggregates[0].bytes, 8);
}
