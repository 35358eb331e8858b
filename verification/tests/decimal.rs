use mwpb_compiler::decimal::{integer_to_text, parse_i32};

#[test]
fn parse_plain_digits() {
    assert_eq!(parse_i32("0"), Some(0));
    assert_eq!(parse_i32("5"), Some(5));
    assert_eq!(parse_i32("1234567890"), Some(1234567890));
}

#[test]
fn parse_leading_zeros() {
    assert_eq!(parse_i32("007"), Some(7));
    assert_eq!(parse_i32("0000000000000000000000000012"), Some(12));
}

#[test]
fn parse_signs() {
    assert_eq!(parse_i32("+5"), Some(5));
    assert_eq!(parse_i32("-5"), Some(-5));
    assert_eq!(parse_i32("-0"), Some(0));
    assert_eq!(parse_i32("+"), None);
    assert_eq!(parse_i32("-"), None);
    assert_eq!(parse_i32("--5"), None);
    assert_eq!(parse_i32("5-"), None);
}

#[test]
fn parse_range() {
    assert_eq!(parse_i32("2147483647"), Some(i32::MAX));
    assert_eq!(parse_i32("2147483648"), None);
    assert_eq!(parse_i32("-2147483648"), Some(i32::MIN));
    assert_eq!(parse_i32("-2147483649"), None);
    assert_eq!(parse_i32("21474836470"), None);
    assert_eq!(parse_i32("99999999999999999999999999999999999999"), None);
}

#[test]
fn parse_rejects_other_text() {
    assert_eq!(parse_i32(""), None);
    assert_eq!(parse_i32(" 5"), None);
    assert_eq!(parse_i32("5 "), None);
    assert_eq!(parse_i32("1_000"), None);
    assert_eq!(parse_i32("12a"), None);
    assert_eq!(parse_i32("0x10"), None);
    assert_eq!(parse_i32("\u{663}"), None);
    assert_eq!(parse_i32("1\u{e9}"), None);
}

#[test]
fn parse_agrees_with_std() {
    let samples = [
        "", "0", "-0", "+0", "1", "-1", "+1", "10", "0010", "2147483647", "2147483648",
        "-2147483648", "-2147483649", "4294967296", "+-1", "-+1", "1+", "a", "1a", "\u{e9}",
        " 1", "1 ", "١", "9223372036854775808",
    ];
    for sample in samples {
        assert_eq!(parse_i32(sample), sample.parse::<i32>().ok());
    }
}

#[test]
fn write_integers() {
    assert_eq!(integer_to_text(0), "0");
    assert_eq!(integer_to_text(5), "5");
    assert_eq!(integer_to_text(10), "10");
    assert_eq!(integer_to_text(-1), "-1");
    assert_eq!(integer_to_text(1234567890), "1234567890");
    assert_eq!(integer_to_text(i32::MAX), "2147483647");
    assert_eq!(integer_to_text(i32::MIN), "-2147483648");
}

#[test]
fn write_agrees_with_std() {
    let samples = [0, 1, -1, 9, 10, 11, 99, 100, 101, -100, 65535, i32::MAX, i32::MIN, -2147483647];
    for sample in samples {
        assert_eq!(integer_to_text(sample), format!("{}", sample));
    }
}

#[test]
fn written_integers_read_back() {
    let samples = [0, 7, -7, 1000, -1000, i32::MAX, i32::MIN];
    for sample in samples {
        assert_eq!(parse_i32(&integer_to_text(sample)), Some(sample));
    }
}
