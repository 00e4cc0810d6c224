use teleop_link::wire::{parse_milli_token, write_milli};

fn fmt(v: i32) -> Vec<u8> {
    let mut out = Vec::new();
    write_milli(&mut out, v);
    out
}

fn parse(s: &str) -> Option<i32> {
    parse_milli_token(&s.as_bytes().to_vec())
}

#[test]
fn formats_whole_and_fraction() {
    assert_eq!(fmt(0), b"0".to_vec());
    assert_eq!(fmt(1000), b"1".to_vec());
    assert_eq!(fmt(-1000), b"-1".to_vec());
    assert_eq!(fmt(100), b"0.1".to_vec());
    assert_eq!(fmt(-500), b"-0.5".to_vec());
    assert_eq!(fmt(250), b"0.25".to_vec());
    assert_eq!(fmt(4), b"0.004".to_vec());
    assert_eq!(fmt(999), b"0.999".to_vec());
}

#[test]
fn parses_plain_numbers() {
    assert_eq!(parse("0"), Some(0));
    assert_eq!(parse("1"), Some(1000));
    assert_eq!(parse("2"), Some(2000));
    assert_eq!(parse("-1"), Some(-1000));
    assert_eq!(parse("+2"), Some(2000));
    assert_eq!(parse("42"), Some(42000));
}

#[test]
fn parses_fractions() {
    assert_eq!(parse("0.1"), Some(100));
    assert_eq!(parse("-0.5"), Some(-500));
    assert_eq!(parse(".5"), Some(500));
    assert_eq!(parse("5."), Some(5000));
    assert_eq!(parse("0.25"), Some(250));
    assert_eq!(parse("0.004"), Some(4));
}

#[test]
fn fraction_digits_beyond_the_third_are_dropped() {
    assert_eq!(parse("0.1234"), Some(123));
    assert_eq!(parse("0.9999"), Some(999));
}

#[test]
fn leading_zeros_are_harmless() {
    assert_eq!(parse("0000001"), Some(1000));
    assert_eq!(parse("007"), Some(7000));
}

#[test]
fn rejects_malformed_tokens() {
    assert_eq!(parse(""), None);
    assert_eq!(parse("."), None);
    assert_eq!(parse("-"), None);
    assert_eq!(parse("+"), None);
    assert_eq!(parse("--1"), None);
    assert_eq!(parse("1.2.3"), None);
    assert_eq!(parse("1e3"), None);
    assert_eq!(parse("abc"), None);
    assert_eq!(parse("1x"), None);
    assert_eq!(parse(" 1"), None);
}

#[test]
fn rejects_out_of_range_whole_parts() {
    assert_eq!(parse("999999"), Some(999_999_000));
    assert_eq!(parse("1000000"), None);
    assert_eq!(parse("-999999.999"), Some(-999_999_999));
    assert_eq!(parse("123456789012345678901234567890"), None);
}

#[test]
fn format_then_parse_is_identity_on_axis_values() {
    for v in [-1000, -999, -500, -250, -1, 0, 1, 4, 250, 999, 1000] {
        assert_eq!(parse_milli_token(&fmt(v)), Some(v));
    }
}
