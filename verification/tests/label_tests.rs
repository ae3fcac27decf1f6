use channels_console::label::{
    extract_filename, format_bytes, resolve_label, str_eq, truncate_left,
};
use channels_console::numerals::{parse_u64, u64_to_string};

#[test]
fn extract_filename_keeps_last_two_components() {
    assert_eq!(extract_filename("crates/app/src/worker.rs"), "src/worker.rs");
    assert_eq!(extract_filename("a/b/c.rs"), "b/c.rs");
}

#[test]
fn extract_filename_short_paths_stay_whole() {
    assert_eq!(extract_filename("worker.rs"), "worker.rs");
    assert_eq!(extract_filename("src/worker.rs"), "src/worker.rs");
    assert_eq!(extract_filename(""), "");
}

#[test]
fn resolve_label_shortens_source() {
    assert_eq!(resolve_label("crates/app/src/worker.rs:25", None, 0), "src/worker.rs:25");
    assert_eq!(resolve_label("src/worker.rs:25", None, 0), "src/worker.rs:25");
}

#[test]
fn resolve_label_appends_ordinal() {
    assert_eq!(resolve_label("examples/iter.rs:17", None, 1), "examples/iter.rs:17-2");
    assert_eq!(resolve_label("examples/iter.rs:17", None, 2), "examples/iter.rs:17-3");
}

#[test]
fn resolve_label_uses_custom_label_verbatim() {
    assert_eq!(resolve_label("src/worker.rs:25", Some("task-queue"), 0), "task-queue");
    assert_eq!(resolve_label("src/worker.rs:25", Some("task-queue"), 1), "task-queue-2");
}

#[test]
fn resolve_label_without_line_number() {
    assert_eq!(resolve_label("a/b/file", None, 0), "b/file");
}

#[test]
fn truncate_left_keeps_short_strings() {
    assert_eq!(truncate_left("hello", 10), "hello");
    assert_eq!(truncate_left("hello", 5), "hello");
}

#[test]
fn truncate_left_marks_removed_head() {
    assert_eq!(truncate_left("abcdefghij", 8), "...fghij");
    assert_eq!(truncate_left("abcdefghij", 3), "...");
    assert_eq!(truncate_left("abcdefghij", 2), "...");
}

#[test]
fn format_bytes_exact_below_one_kb() {
    assert_eq!(format_bytes(0), "0 B");
    assert_eq!(format_bytes(1), "1 B");
    assert_eq!(format_bytes(500), "500 B");
    assert_eq!(format_bytes(1023), "1023 B");
}

#[test]
fn format_bytes_one_decimal_above_one_kb() {
    assert_eq!(format_bytes(1024), "1.0 KB");
    assert_eq!(format_bytes(1536), "1.5 KB");
    assert_eq!(format_bytes(1126), "1.1 KB");
    assert_eq!(format_bytes(1048576), "1.0 MB");
    assert_eq!(format_bytes(1073741824), "1.0 GB");
    assert_eq!(format_bytes(1099511627776), "1.0 TB");
}

#[test]
fn format_bytes_rounds_within_the_unit() {
    // 1048536 / 1024 = 1023.96...: rounding carries into the integer part
    assert_eq!(format_bytes(1048536), "1024.0 KB");
    // 2304 / 1024 = 2.25 exactly: ties round to the even tenth
    assert_eq!(format_bytes(2304), "2.2 KB");
}

#[test]
fn u64_to_string_renders_decimal() {
    assert_eq!(u64_to_string(0), "0");
    assert_eq!(u64_to_string(7), "7");
    assert_eq!(u64_to_string(105), "105");
    assert_eq!(u64_to_string(u64::MAX), "18446744073709551615");
}

#[test]
fn parse_u64_accepts_digits_and_plus() {
    assert_eq!(parse_u64("0"), Some(0));
    assert_eq!(parse_u64("123"), Some(123));
    assert_eq!(parse_u64("+123"), Some(123));
    assert_eq!(parse_u64("18446744073709551615"), Some(u64::MAX));
}

#[test]
fn parse_u64_rejects_junk_and_overflow() {
    assert_eq!(parse_u64(""), None);
    assert_eq!(parse_u64("+"), None);
    assert_eq!(parse_u64("12a"), None);
    assert_eq!(parse_u64("-1"), None);
    assert_eq!(parse_u64(" 1"), None);
    assert_eq!(parse_u64("18446744073709551616"), None);
    assert_eq!(parse_u64("99999999999999999999999"), None);
}

#[test]
fn parse_u64_matches_std() {
    for s in ["0", "42", "+42", "", "abc", "18446744073709551615", "18446744073709551616"] {
        assert_eq!(parse_u64(s), s.parse::<u64>().ok());
    }
}

#[test]
fn str_eq_compares_contents() {
    assert!(str_eq("", ""));
    assert!(str_eq("abc", "abc"));
    assert!(!str_eq("abc", "abd"));
    assert!(!str_eq("abc", "abcd"));
}

fn float_reference(bytes: u64) -> String {
    // render through f64 division and `{:.1}`, the usual way such sizes
    // are shown, to cross-check the integer rounding
    if bytes == 0 {
        return "0 B".to_string();
    }
    let units = ["B", "KB", "MB", "GB", "TB"];
    let mut size = bytes as f64;
    let mut unit_idx = 0;
    while size >= 1024.0 && unit_idx < units.len() - 1 {
        size /= 1024.0;
        unit_idx += 1;
    }
    if unit_idx == 0 {
        format!("{} {}", bytes, units[unit_idx])
    } else {
        format!("{:.1} {}", size, units[unit_idx])
    }
}

#[test]
fn format_bytes_matches_float_rendering() {
    let mut samples: Vec<u64> = vec![
        0, 1, 2, 999, 1023, 1024, 1025, 1536, 2048, 2303, 2304, 2305, 10240, 524288, 1048535,
        1048536, 1048575, 1048576, 1073741824, 1099511627776, 5_000_000_000_000,
    ];
    let mut x: u64 = 0x2545F4914F6CDD1D;
    for _ in 0..2000 {
        x ^= x << 13;
        x ^= x >> 7;
        x ^= x << 17;
        samples.push(x % 1_000_000_000_000);
    }
    for n in samples {
        assert_eq!(format_bytes(n), float_reference(n), "mismatch at {}", n);
    }
}
