use cedar_folder_size_analyzer::units::{format_bytes, SizeUnit, GB, KB, MB, TB};

#[test]
fn units_are_powers_of_1024() {
    assert_eq!(KB, 1024);
    assert_eq!(MB, 1024 * 1024);
    assert_eq!(GB, 1024 * 1024 * 1024);
    assert_eq!(TB, 1024u64 * 1024 * 1024 * 1024);
}

#[test]
fn the_unit_is_the_largest_that_the_size_reaches() {
    assert_eq!(SizeUnit::of(0), SizeUnit::Bytes);
    assert_eq!(SizeUnit::of(1023), SizeUnit::Bytes);
    assert_eq!(SizeUnit::of(1024), SizeUnit::Kilobytes);
    assert_eq!(SizeUnit::of(MB - 1), SizeUnit::Kilobytes);
    assert_eq!(SizeUnit::of(MB), SizeUnit::Megabytes);
    assert_eq!(SizeUnit::of(GB - 1), SizeUnit::Megabytes);
    assert_eq!(SizeUnit::of(GB), SizeUnit::Gigabytes);
    assert_eq!(SizeUnit::of(TB - 1), SizeUnit::Gigabytes);
    assert_eq!(SizeUnit::of(TB), SizeUnit::Terabytes);
    assert_eq!(SizeUnit::of(u64::MAX), SizeUnit::Terabytes);
}

#[test]
fn units_have_sizes_and_labels() {
    let all = [
        (SizeUnit::Bytes, 1, "B"),
        (SizeUnit::Kilobytes, KB, "KB"),
        (SizeUnit::Megabytes, MB, "MB"),
        (SizeUnit::Gigabytes, GB, "GB"),
        (SizeUnit::Terabytes, TB, "TB"),
    ];
    for (unit, bytes, label) in all {
        assert_eq!(unit.bytes(), bytes);
        assert_eq!(unit.label(), label);
    }
}

#[test]
fn small_sizes_are_written_in_bytes() {
    assert_eq!(format_bytes(0), Some("0 B".to_string()));
    assert_eq!(format_bytes(512), Some("512 B".to_string()));
    assert_eq!(format_bytes(1023), Some("1023 B".to_string()));
    assert_eq!(format_bytes(1024), None);
    assert_eq!(format_bytes(u64::MAX), None);
}

#[test]
fn larger_sizes_are_fractions_of_their_unit() {
    let show = |size: u64| match format_bytes(size) {
        Some(text) => text,
        None => {
            let unit = SizeUnit::of(size);
            format!("{:.2} {}", size as f64 / unit.bytes() as f64, unit.label())
        }
    };
    assert_eq!(show(100), "100 B");
    assert_eq!(show(1536), "1.50 KB");
    assert_eq!(show(5 * MB), "5.00 MB");
    assert_eq!(show(GB + GB / 4), "1.25 GB");
    assert_eq!(show(3 * TB), "3.00 TB");
}
