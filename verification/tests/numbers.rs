use table_extract::number::{parse_i32, push_decimal, push_digits};
use table_extract::text::to_chars;

fn parse(s: &str) -> Option<i32> {
    let chars = to_chars(s);
    parse_i32(&chars, 0, chars.len())
}

fn written(v: i32) -> String {
    let mut out = String::new();
    push_decimal(&mut out, v);
    out
}

#[test]
fn reading_integers() {
    assert_eq!(parse("0"), Some(0));
    assert_eq!(parse("42"), Some(42));
    assert_eq!(parse("-5"), Some(-5));
    assert_eq!(parse("+5"), Some(5));
    assert_eq!(parse("0012"), Some(12));
    assert_eq!(parse("2147483647"), Some(i32::MAX));
    assert_eq!(parse("-2147483648"), Some(i32::MIN));
}

#[test]
fn what_is_no_integer() {
    assert_eq!(parse(""), None);
    assert_eq!(parse("-"), None);
    assert_eq!(parse("+"), None);
    assert_eq!(parse("--1"), None);
    assert_eq!(parse("1-"), None);
    assert_eq!(parse(" 1"), None);
    assert_eq!(parse("1 "), None);
    assert_eq!(parse("1.5"), None);
    assert_eq!(parse("2147483648"), None);
    assert_eq!(parse("-2147483649"), None);
    assert_eq!(parse("99999999999999999999999999"), None);
    assert_eq!(parse("\u{0661}"), None);
}

#[test]
fn reading_agrees_with_the_standard_library() {
    for s in ["0", "-0", "+0", "12", "-12", "+12", "", "-", "+", "1a", "a1", "2147483647",
        "2147483648", "-2147483648", "-2147483649", "000000000000001", "+-1"]
    {
        assert_eq!(parse(s), s.parse::<i32>().ok());
    }
}

#[test]
fn reading_a_part_of_a_line() {
    let chars = to_chars("ab 123 cd");
    assert_eq!(parse_i32(&chars, 3, 6), Some(123));
    assert_eq!(parse_i32(&chars, 3, 7), None);
    assert_eq!(parse_i32(&chars, 4, 4), None);
}

#[test]
fn writing_integers() {
    assert_eq!(written(0), "0");
    assert_eq!(written(7), "7");
    assert_eq!(written(10), "10");
    assert_eq!(written(-1), "-1");
    assert_eq!(written(1905), "1905");
    assert_eq!(written(i32::MAX), "2147483647");
    assert_eq!(written(i32::MIN), "-2147483648");
}

#[test]
fn writing_appends() {
    let mut out = String::from("x=");
    push_digits(&mut out, 4294967295);
    assert_eq!(out, "x=4294967295");
    push_decimal(&mut out, -30);
    assert_eq!(out, "x=4294967295-30");
}

#[test]
fn what_is_written_reads_back() {
    for v in [0, 1, -1, 9, 10, 99, 100, -100, 123456789, i32::MAX, i32::MIN] {
        assert_eq!(parse(&written(v)), Some(v));
        assert_eq!(written(v), v.to_string());
    }
}
