use sentiment_rollup::decimal::{append_decimal, parse_i32};

fn rendered(value: i32) -> String {
    let mut out = String::new();
    append_decimal(&mut out, value);
    out
}

#[test]
fn parses_plain_digits() {
    assert_eq!(parse_i32("0"), Some(0));
    assert_eq!(parse_i32("7"), Some(7));
    assert_eq!(parse_i32("25934"), Some(25934));
    assert_eq!(parse_i32("0042"), Some(42));
}

#[test]
fn parses_a_sign() {
    assert_eq!(parse_i32("-1"), Some(-1));
    assert_eq!(parse_i32("+1"), Some(1));
    assert_eq!(parse_i32("-0"), Some(0));
    assert_eq!(parse_i32("+0012"), Some(12));
}

#[test]
fn parses_the_ends_of_the_range() {
    assert_eq!(parse_i32("2147483647"), Some(i32::MAX));
    assert_eq!(parse_i32("-2147483648"), Some(i32::MIN));
    assert_eq!(parse_i32("+2147483647"), Some(i32::MAX));
    assert_eq!(parse_i32("0000000002147483647"), Some(i32::MAX));
}

#[test]
fn rejects_what_is_out_of_range() {
    assert_eq!(parse_i32("2147483648"), None);
    assert_eq!(parse_i32("-2147483649"), None);
    assert_eq!(parse_i32("99999999999999999999999999999999999999"), None);
    assert_eq!(parse_i32("-99999999999999999999999999999999999999"), None);
}

#[test]
fn rejects_what_is_no_number() {
    assert_eq!(parse_i32(""), None);
    assert_eq!(parse_i32("+"), None);
    assert_eq!(parse_i32("-"), None);
    assert_eq!(parse_i32(" 1"), None);
    assert_eq!(parse_i32("1 "), None);
    assert_eq!(parse_i32("1.0"), None);
    assert_eq!(parse_i32("1e3"), None);
    assert_eq!(parse_i32("--1"), None);
    assert_eq!(parse_i32("+-1"), None);
    assert_eq!(parse_i32("1_000"), None);
    assert_eq!(parse_i32("12a"), None);
    assert_eq!(parse_i32("null"), None);
    assert_eq!(parse_i32("\"12\""), None);
    assert_eq!(parse_i32("99999999999999999999x"), None);
}

#[test]
fn rejects_digits_outside_ascii() {
    assert_eq!(parse_i32("١٢٣"), None);
    assert_eq!(parse_i32("12é"), None);
    assert_eq!(parse_i32("−5"), None);
}

#[test]
fn parse_agrees_with_std() {
    let texts = [
        "", "0", "-0", "+0", "17", "-17", "+17", "007", "2147483647", "2147483648", "-2147483648",
        "-2147483649", "4294967296", "1.5", "abc", "+", "-", "1-", "٣", " 3", "3\n",
    ];
    for text in texts {
        assert_eq!(parse_i32(text), text.parse::<i32>().ok(), "{:?}", text);
    }
}

#[test]
fn renders_digits() {
    assert_eq!(rendered(0), "0");
    assert_eq!(rendered(5), "5");
    assert_eq!(rendered(10), "10");
    assert_eq!(rendered(1234567890), "1234567890");
    assert_eq!(rendered(-1), "-1");
    assert_eq!(rendered(-907), "-907");
}

#[test]
fn renders_the_ends_of_the_range() {
    assert_eq!(rendered(i32::MAX), "2147483647");
    assert_eq!(rendered(i32::MIN), "-2147483648");
}

#[test]
fn rendering_appends() {
    let mut out = String::from("id=");
    append_decimal(&mut out, 42);
    append_decimal(&mut out, -7);
    assert_eq!(out, "id=42-7");
}

#[test]
fn rendered_numbers_parse_back() {
    for value in [0, 1, -1, 9, 10, 99, 100, -100, 25051, i32::MAX, i32::MIN, i32::MIN + 1] {
        assert_eq!(parse_i32(&rendered(value)), Some(value));
        assert_eq!(rendered(value), value.to_string());
    }
}
