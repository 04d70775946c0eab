use redrust::protocol::decimal::{format_i64, format_u64, parse_i64};

#[test]
fn format_u64_writes_the_shortest_digits() {
    assert_eq!(format_u64(0), b"0".to_vec());
    assert_eq!(format_u64(7), b"7".to_vec());
    assert_eq!(format_u64(10), b"10".to_vec());
    assert_eq!(format_u64(1234567890), b"1234567890".to_vec());
    assert_eq!(format_u64(u64::MAX), b"18446744073709551615".to_vec());
}

#[test]
fn format_i64_writes_a_sign_for_negatives() {
    assert_eq!(format_i64(0), b"0".to_vec());
    assert_eq!(format_i64(-1), b"-1".to_vec());
    assert_eq!(format_i64(905), b"905".to_vec());
    assert_eq!(format_i64(i64::MAX), b"9223372036854775807".to_vec());
    assert_eq!(format_i64(i64::MIN), b"-9223372036854775808".to_vec());
}

#[test]
fn parse_i64_reads_signed_decimal_text() {
    assert_eq!(parse_i64(b"0"), Some(0));
    assert_eq!(parse_i64(b"5"), Some(5));
    assert_eq!(parse_i64(b"+5"), Some(5));
    assert_eq!(parse_i64(b"-5"), Some(-5));
    assert_eq!(parse_i64(b"-0"), Some(0));
    assert_eq!(parse_i64(b"007"), Some(7));
    assert_eq!(parse_i64(b"9223372036854775807"), Some(i64::MAX));
    assert_eq!(parse_i64(b"-9223372036854775808"), Some(i64::MIN));
}

#[test]
fn parse_i64_rejects_what_is_no_integer_in_range() {
    assert_eq!(parse_i64(b""), None);
    assert_eq!(parse_i64(b"-"), None);
    assert_eq!(parse_i64(b"+"), None);
    assert_eq!(parse_i64(b"abc"), None);
    assert_eq!(parse_i64(b"12a"), None);
    assert_eq!(parse_i64(b" 12"), None);
    assert_eq!(parse_i64(b"1.5"), None);
    assert_eq!(parse_i64(b"--1"), None);
    assert_eq!(parse_i64(b"9223372036854775808"), None);
    assert_eq!(parse_i64(b"-9223372036854775809"), None);
    assert_eq!(parse_i64(b"99999999999999999999999"), None);
}

#[test]
fn parse_agrees_with_the_standard_library() {
    let samples = [
        "0", "1", "-1", "+1", "", "+", "-", "00", "-00", "12345", "1_000", "0x10", "٣",
        "9223372036854775807", "9223372036854775808", "-9223372036854775808",
        "-9223372036854775809", "18446744073709551616", " 1", "1 ",
    ];
    for s in samples {
        assert_eq!(parse_i64(s.as_bytes()), s.parse::<i64>().ok(), "{:?}", s);
    }
}

#[test]
fn format_agrees_with_the_standard_library() {
    let samples = [0i64, 1, -1, 9, 10, 99, 100, -100, 44, i64::MAX, i64::MIN, 1_000_000_007];
    for i in samples {
        assert_eq!(format_i64(i), i.to_string().into_bytes());
        assert_eq!(parse_i64(&format_i64(i)), Some(i));
    }
}
