use miru::filemeta::{file_meta, format_size, relative_time};

const DAY: u64 = 86400;

#[test]
fn sizes_in_bytes() {
    assert_eq!(format_size(0), "0 B");
    assert_eq!(format_size(512), "512 B");
    assert_eq!(format_size(1023), "1023 B");
}

#[test]
fn sizes_in_kilobytes() {
    assert_eq!(format_size(1024), "1.0 KB");
    assert_eq!(format_size(1536), "1.5 KB");
    assert_eq!(format_size(10 * 1024 + 103), "10.1 KB");
    assert_eq!(format_size(1024 * 1024 - 1), "1024.0 KB");
}

#[test]
fn sizes_in_megabytes() {
    assert_eq!(format_size(1024 * 1024), "1.0 MB");
    assert_eq!(format_size(3 * 1024 * 1024 / 2), "1.5 MB");
    assert_eq!(format_size(1024 * 1024 * 1024), "1024.0 MB");
    assert_eq!(format_size(u64::MAX), "17592186044416.0 MB");
}

#[test]
fn sizes_agree_with_float_formatting() {
    for bytes in [
        1024u64, 1100, 1280, 1792, 2047, 2304, 5000, 99999, 500000, 1048575, 1048576, 1310720,
        1835008, 7340032, 123456789, u64::MAX,
    ] {
        let expected = if bytes < 1024 * 1024 {
            format!("{:.1} KB", bytes as f64 / 1024.0)
        } else {
            format!("{:.1} MB", bytes as f64 / (1024.0 * 1024.0))
        };
        assert_eq!(format_size(bytes), expected);
    }
}

#[test]
fn ages() {
    assert_eq!(relative_time(0), "today");
    assert_eq!(relative_time(DAY - 1), "today");
    assert_eq!(relative_time(DAY), "yesterday");
    assert_eq!(relative_time(2 * DAY), "2 days ago");
    assert_eq!(relative_time(13 * DAY + 5), "13 days ago");
    assert_eq!(relative_time(14 * DAY), "2 weeks ago");
    assert_eq!(relative_time(59 * DAY), "8 weeks ago");
    assert_eq!(relative_time(60 * DAY), "2 months ago");
    assert_eq!(relative_time(365 * DAY), "12 months ago");
}

#[test]
fn metadata_labels() {
    assert_eq!(file_meta(None), ("? B".to_string(), "unknown".to_string()));
    assert_eq!(file_meta(Some((2048, None))), ("2.0 KB".to_string(), "unknown".to_string()));
    assert_eq!(file_meta(Some((10, Some(3 * DAY)))), ("10 B".to_string(), "3 days ago".to_string()));
}
