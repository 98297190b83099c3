use bytewatch::format::{format_bytes, format_uptime, truncate_string};

/// The same computation done the way a float-based formatter does it.
fn format_bytes_with_floats(bytes: u64) -> String {
    let units = ["B", "KB", "MB", "GB", "TB"];
    let mut size = bytes as f64;
    let mut unit_index = 0;
    while size >= 1024.0 && unit_index < units.len() - 1 {
        size /= 1024.0;
        unit_index += 1;
    }
    format!("{:.2} {}", size, units[unit_index])
}

#[test]
fn test_format_bytes() {
    assert_eq!(format_bytes(0), "0.00 B");
    assert_eq!(format_bytes(1024), "1.00 KB");
    assert_eq!(format_bytes(1048576), "1.00 MB");
}

#[test]
fn test_format_uptime() {
    assert_eq!(format_uptime(30), "0m");
    assert_eq!(format_uptime(3600), "1h 0m");
    assert_eq!(format_uptime(90061), "1d 1h 1m");
}

#[test]
fn test_truncate_string() {
    assert_eq!(truncate_string("hello", 10), "hello");
    assert_eq!(truncate_string("hello world test", 10), "hello wor\u{2026}");
}

#[test]
fn format_bytes_exact_values() {
    assert_eq!(format_bytes(1), "1.00 B");
    assert_eq!(format_bytes(1023), "1023.00 B");
    assert_eq!(format_bytes(1536), "1.50 KB");
    assert_eq!(format_bytes(1073741824), "1.00 GB");
    assert_eq!(format_bytes(1099511627776), "1.00 TB");
    assert_eq!(format_bytes(1024 * 1099511627776), "1024.00 TB");
    assert_eq!(format_bytes(u64::MAX), "16777216.00 TB");
}

#[test]
fn format_bytes_rounds_half_to_even() {
    // 1152 / 1024 = 1.125 exactly, and 1.125 rounds to 1.12.
    assert_eq!(format_bytes(1152), "1.12 KB");
    // 1.375 rounds to 1.38.
    assert_eq!(format_bytes(1408), "1.38 KB");
    // Just below the next unit the value rounds up to 1024.00 of the smaller unit.
    assert_eq!(format_bytes(1048575), "1024.00 KB");
}

#[test]
fn format_bytes_matches_float_formatting() {
    let mut samples: Vec<u64> = vec![0, 1, 5, 999, 1000, 1023, 1024, 1025, 1152, 1408, 2047, 2048];
    let mut x: u64 = 1;
    for _ in 0..63 {
        x = x.wrapping_mul(2);
        samples.push(x);
        samples.push(x.wrapping_sub(1));
        samples.push(x.wrapping_add(1));
        samples.push(x / 3);
        samples.push(x / 3 * 2 + 7);
    }
    let mut seed: u64 = 0x9e37_79b9_7f4a_7c15;
    for _ in 0..20000 {
        seed ^= seed << 13;
        seed ^= seed >> 7;
        seed ^= seed << 17;
        samples.push(seed);
        samples.push(seed >> (seed % 64));
        samples.push((seed % 1_000_000) * 1024);
        samples.push((seed % 100_000) * 128 + 1024);
    }
    samples.push(u64::MAX);
    samples.push(u64::MAX - 1024);
    samples.push((1u64 << 53) + 1);
    samples.push((1u64 << 53) + 3);
    for bytes in samples {
        assert_eq!(format_bytes(bytes), format_bytes_with_floats(bytes), "bytes = {}", bytes);
    }
}

#[test]
fn format_uptime_units() {
    assert_eq!(format_uptime(0), "0m");
    assert_eq!(format_uptime(59), "0m");
    assert_eq!(format_uptime(60), "1m");
    assert_eq!(format_uptime(3599), "59m");
    assert_eq!(format_uptime(86399), "23h 59m");
    assert_eq!(format_uptime(86400), "1d 0h 0m");
    assert_eq!(format_uptime(10 * 86400 + 5 * 60), "10d 0h 5m");
    assert_eq!(format_uptime(u64::MAX), "213503982334601d 7h 0m");
}

#[test]
fn truncate_string_edges() {
    assert_eq!(truncate_string("", 0), "");
    assert_eq!(truncate_string("abc", 3), "abc");
    assert_eq!(truncate_string("abcd", 3), "ab\u{2026}");
    assert_eq!(truncate_string("abcd", 1), "\u{2026}");
    // Lengths count characters, not bytes.
    assert_eq!(truncate_string("\u{e9}", 1), "\u{e9}");
    assert_eq!(truncate_string("\u{e9}\u{e9}\u{e9}", 2), "\u{e9}\u{2026}");
    assert_eq!(truncate_string("\u{e9}\u{e9}", 2), "\u{e9}\u{e9}");
    assert_eq!(truncate_string("\u{65e5}\u{672c}\u{8a9e}\u{30c6}\u{30ad}\u{30b9}\u{30c8}", 4), "\u{65e5}\u{672c}\u{8a9e}\u{2026}");
}
