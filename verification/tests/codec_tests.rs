use package_fetch::codec::{format_size, parse_size};

#[test]
fn parse_plain_bytes() {
    assert_eq!(parse_size("123"), Some(123));
    assert_eq!(parse_size("0"), Some(0));
    assert_eq!(parse_size("+5"), Some(5));
}

#[test]
fn parse_suffixes() {
    assert_eq!(parse_size("1K"), Some(1024));
    assert_eq!(parse_size("512M"), Some(512 * 1024 * 1024));
    assert_eq!(parse_size("100G"), Some(100 * 1024 * 1024 * 1024));
    assert_eq!(parse_size("1T"), Some(1024u64 * 1024 * 1024 * 1024));
    assert_eq!(parse_size("512B"), Some(512));
}

#[test]
fn parse_trims_whitespace() {
    assert_eq!(parse_size("  10K  "), Some(10240));
    assert_eq!(parse_size("\t7\n"), Some(7));
}

#[test]
fn parse_repeated_suffix_copies_are_stripped() {
    assert_eq!(parse_size("5GG"), Some(5 * 1024 * 1024 * 1024));
}

#[test]
fn parse_fractions_floor() {
    assert_eq!(parse_size("1.5K"), Some(1536));
    assert_eq!(parse_size("117.7M"), Some(117 * 1048576 + 7 * 1048576 / 10));
    assert_eq!(parse_size("0.5"), Some(0));
}

#[test]
fn parse_rejects_non_numeric() {
    assert_eq!(parse_size(""), None);
    assert_eq!(parse_size("abc"), None);
    assert_eq!(parse_size("12a3"), None);
    assert_eq!(parse_size("5MG"), None);
    assert_eq!(parse_size("."), None);
    assert_eq!(parse_size("5."), None);
    assert_eq!(parse_size(".5"), None);
    assert_eq!(parse_size("1.2.3"), None);
    assert_eq!(parse_size("++5"), None);
    assert_eq!(parse_size("G"), None);
    assert_eq!(parse_size("5 G"), None);
}

#[test]
fn parse_rejects_overflow() {
    assert_eq!(parse_size("99999999999999999999"), None);
    assert_eq!(parse_size("18446744073709551615"), Some(u64::MAX));
    assert_eq!(parse_size("18446744073709551616"), None);
    assert_eq!(parse_size("18446744073709551615K"), None);
}

#[test]
fn format_small_counts() {
    assert_eq!(format_size(0), "0B");
    assert_eq!(format_size(512), "512B");
    assert_eq!(format_size(1023), "1023B");
}

#[test]
fn format_scaled_counts() {
    assert_eq!(format_size(1024), "1.0K");
    assert_eq!(format_size(1536), "1.5K");
    assert_eq!(format_size(1024 * 1024), "1.0M");
    assert_eq!(format_size(10 * 1024 * 1024 * 1024), "10.0G");
    assert_eq!(format_size(1024u64 * 1024 * 1024 * 1024), "1.0T");
}

#[test]
fn round_trip_exact_multiples() {
    for &n in &[0u64, 7, 1023, 1024, 5 * 1024, 3 * 1024 * 1024, 100 * 1024 * 1024 * 1024] {
        assert_eq!(parse_size(&format_size(n)), Some(n));
    }
}

#[test]
fn round_trip_within_one_unit_step() {
    for &(n, step) in &[
        (1025u64, 1024u64),
        (123456789, 1024 * 1024),
        (987654321987, 1024 * 1024 * 1024),
        (u64::MAX, 1024u64 * 1024 * 1024 * 1024),
    ] {
        let decoded = parse_size(&format_size(n)).expect("encoded sizes must decode");
        assert!(decoded <= n);
        assert!(n - decoded < step);
    }
}
