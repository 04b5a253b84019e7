use dua::darwin::BulkReader;
use dua::numfmt::decimal_string;
use dua::timestamp::Timestamp;
use dua::winfs::duration_from_ticks;

#[test]
fn numbers_are_written_in_decimal() {
    assert_eq!(decimal_string(0), "0");
    assert_eq!(decimal_string(7), "7");
    assert_eq!(decimal_string(1_000_203), "1000203");
    assert_eq!(decimal_string(u128::MAX), "340282366920938463463374607431768211455");
}

#[test]
fn timestamps_compare_by_seconds_then_nanoseconds() {
    let earlier = Timestamp { seconds: -1, nanos: 999_999_999 };
    let epoch = Timestamp { seconds: 0, nanos: 0 };
    let later = Timestamp { seconds: 0, nanos: 1 };
    assert!(earlier.is_before(&epoch));
    assert!(epoch.is_before(&later));
    assert!(!later.is_before(&epoch));
    assert!(!epoch.is_before(&epoch));
}

#[test]
fn tick_counts_become_seconds_and_nanoseconds() {
    assert_eq!(duration_from_ticks(0), (0, 0));
    assert_eq!(duration_from_ticks(10_000_000), (1, 0));
    assert_eq!(duration_from_ticks(25_000_001), (2, 500_000_100));
}

#[test]
fn ending_a_reader_stops_iteration() {
    let mut reader = BulkReader::new(false);
    reader.end();
    assert!(reader.exhausted);
}
