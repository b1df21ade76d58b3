use remember::text::{caret_line, parse_decimal, parse_u32, push_decimal, same_text};

#[test]
fn decimal_numbers_are_read() {
    assert_eq!(parse_u32("0"), Some(0));
    assert_eq!(parse_u32("5"), Some(5));
    assert_eq!(parse_u32("13"), Some(13));
    assert_eq!(parse_u32("007"), Some(7));
    assert_eq!(parse_u32("4294967295"), Some(4294967295));
    assert_eq!(parse_u32("0004294967295"), Some(4294967295));
}

#[test]
fn what_is_no_decimal_number_is_refused() {
    assert_eq!(parse_u32(""), None);
    assert_eq!(parse_u32("12a"), None);
    assert_eq!(parse_u32("a12"), None);
    assert_eq!(parse_u32("+5"), None);
    assert_eq!(parse_u32("-5"), None);
    assert_eq!(parse_u32(" 5"), None);
    assert_eq!(parse_u32("\u{663}"), None);
}

#[test]
fn numbers_beyond_32_bits_are_refused() {
    assert_eq!(parse_u32("4294967296"), None);
    assert_eq!(parse_u32("4294967300"), None);
    assert_eq!(parse_u32("99999999999"), None);
    assert_eq!(parse_u32("42949672950"), None);
}

#[test]
fn numbers_are_written_in_decimal() {
    let mut text = String::new();
    push_decimal(&mut text, 0);
    assert_eq!(text, "0");
    push_decimal(&mut text, 7);
    assert_eq!(text, "07");
    let mut text = String::from("n=");
    push_decimal(&mut text, 1234567890);
    assert_eq!(text, "n=1234567890");
    let mut text = String::new();
    push_decimal(&mut text, 100);
    assert_eq!(text, "100");
}

#[test]
fn written_numbers_read_back() {
    for n in [0usize, 9, 10, 99, 101, 65535, 4294967295] {
        let mut text = String::new();
        push_decimal(&mut text, n);
        assert_eq!(parse_u32(&text), Some(n as u32));
    }
}

#[test]
fn texts_are_compared_by_their_characters() {
    assert!(same_text("abc", "abc"));
    assert!(same_text("", ""));
    assert!(!same_text("abc", "abd"));
    assert!(!same_text("abc", "ab"));
    assert!(!same_text("abc", "ABC"));
}

#[test]
fn carets_under_a_token() {
    assert_eq!(caret_line(3, 2), "   ^^");
    assert_eq!(caret_line(0, 1), "^");
    assert_eq!(caret_line(2, 0), "  ");
    assert_eq!(caret_line(0, 0), "");
    assert_eq!(caret_line(1, 5), " ^^^^^");
}

#[test]
fn decimal_numbers_of_any_length() {
    assert_eq!(parse_decimal("0"), Some(0));
    assert_eq!(parse_decimal("013"), Some(13));
    assert_eq!(parse_decimal("4294967296"), Some(4294967296));
    assert_eq!(parse_decimal("18446744073709551614"), Some(18446744073709551614));
    assert_eq!(parse_decimal("18446744073709551615"), Some(u64::MAX));
    assert_eq!(parse_decimal("18446744073709551616"), Some(u64::MAX));
    assert_eq!(parse_decimal("18446744073709551620"), Some(u64::MAX));
    assert_eq!(parse_decimal("99999999999999999999999999"), Some(u64::MAX));
    assert_eq!(parse_decimal("000000000000000000000000007"), Some(7));
    assert_eq!(parse_decimal(""), None);
    assert_eq!(parse_decimal("1x"), None);
    assert_eq!(parse_decimal("99999999999999999999999999x"), None);
    assert_eq!(parse_decimal("\u{663}"), None);
}
