use zcatr::size::format_file_size;

#[test]
fn test_format_file_size() {
    // Test bytes
    assert_eq!(format_file_size(0), "0 Bytes");
    assert_eq!(format_file_size(1), "1 Bytes");
    assert_eq!(format_file_size(512), "512 Bytes");
    assert_eq!(format_file_size(1023), "1023 Bytes");

    // Test kilobytes
    assert_eq!(format_file_size(1024), "1.00 KB");
    assert_eq!(format_file_size(1500), "1.46 KB");
    assert_eq!(format_file_size(1024 * 1024 - 1), "1024.00 KB");

    // Test megabytes
    assert_eq!(format_file_size(1024 * 1024), "1.00 MB");
    assert_eq!(format_file_size(1024 * 1024 * 3 / 2usize), "1.50 MB");
    assert_eq!(format_file_size(1024 * 1024 * 1024 - 1), "1024.00 MB");

    // Test gigabytes
    assert_eq!(format_file_size(1024 * 1024 * 1024), "1.00 GB");
    assert_eq!(format_file_size(1024 * 1024 * 1024 * 2), "2.00 GB");

    // Test very large sizes (should cap at GB)
    assert_eq!(format_file_size(1024 * 1024 * 1024 * 1024), "1024.00 GB");
    assert_eq!(
        format_file_size(1024 * 1024 * 1024 * 1024 * 5),
        "5120.00 GB"
    );
}

#[test]
fn size_rounds_to_nearest_hundredth() {
    // 1030 / 1024 = 1.00585..., rounds up
    assert_eq!(format_file_size(1030), "1.01 KB");
    // 1029 / 1024 = 1.00488..., rounds down
    assert_eq!(format_file_size(1029), "1.00 KB");
    assert_eq!(format_file_size(10 * 1024 + 512), "10.50 KB");
}

#[test]
fn size_fraction_rounding_carries_into_whole_part() {
    // 2047 / 1024 = 1.999..., shown as 2.00
    assert_eq!(format_file_size(2047), "2.00 KB");
}
