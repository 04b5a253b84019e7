use dua::format::{pad_unit, ByteFormat};

#[test]
fn widths_follow_the_format() {
    assert_eq!(ByteFormat::Binary.width(), 11);
    assert_eq!(ByteFormat::Bytes.width(), 12);
    assert_eq!(ByteFormat::Metric.width(), 10);
    assert_eq!(ByteFormat::Binary.total_width(), 15);
    assert_eq!(ByteFormat::Metric.total_width(), 13);
    assert_eq!(ByteFormat::Bytes.total_width(), 14);
}

#[test]
fn byte_counts_are_shown_in_each_format() {
    assert_eq!(ByteFormat::Bytes.display(1234), "1234 b");
    assert_eq!(ByteFormat::Metric.display(2_000_000), "2.00 MB");
    assert_eq!(ByteFormat::Metric.display(10), "10  B");
    assert_eq!(ByteFormat::Binary.display(10_000), "9.77 KiB");
    assert_eq!(ByteFormat::Binary.display(10), "10   B");
    assert_eq!(ByteFormat::MB.display(1_500_000), "1.50 MB");
    assert_eq!(ByteFormat::GiB.display(1 << 30), "1.00 GiB");
}

#[test]
fn units_are_right_aligned_to_their_width() {
    assert_eq!(pad_unit(&"1.00 B".to_string(), 3), "1.00   B");
    assert_eq!(pad_unit(&"1.00 KiB".to_string(), 2), "1.00 KiB");
    assert_eq!(pad_unit(&"plain".to_string(), 3), "plain");
}
