use livepager::text::{
    decimal, is_break, is_decimal_digit, normalize_terminator, parse_decimal, terminator, trim,
    trim_trailing_newlines,
};

#[test]
fn trailing_line_breaks_are_stripped() {
    assert_eq!(trim_trailing_newlines("abc\r\n"), "abc");
    assert_eq!(trim_trailing_newlines("abc\n"), "abc");
    assert_eq!(trim_trailing_newlines("abc\n\n\r\r\n"), "abc");
    assert_eq!(trim_trailing_newlines("abc"), "abc");
    assert_eq!(trim_trailing_newlines("\r\n"), "");
    assert_eq!(trim_trailing_newlines(""), "");
}

#[test]
fn inner_line_breaks_stay() {
    assert_eq!(trim_trailing_newlines("a\nb\r\n"), "a\nb");
    assert_eq!(trim_trailing_newlines("\r\nx"), "\r\nx");
    assert_eq!(trim_trailing_newlines("h\u{e9}llo \n"), "h\u{e9}llo ");
}

#[test]
fn line_breaks_are_told_apart() {
    assert!(is_break('\n'));
    assert!(is_break('\r'));
    assert!(!is_break(' '));
    assert!(!is_break('n'));
    assert_eq!(terminator(), "\r\n");
}

#[test]
fn a_canonical_terminator_is_kept() {
    assert_eq!(normalize_terminator("abc\r\n"), "abc\r\n");
    assert_eq!(normalize_terminator("\r\n"), "\r\n");
}

#[test]
fn a_lone_line_feed_is_replaced() {
    assert_eq!(normalize_terminator("abc\n"), "abc\r\n");
    assert_eq!(normalize_terminator("\n"), "\r\n");
    assert_eq!(normalize_terminator("a\n\n"), "a\n\r\n");
}

#[test]
fn a_lone_carriage_return_is_completed() {
    assert_eq!(normalize_terminator("abc\r"), "abc\r\n");
    assert_eq!(normalize_terminator("\r"), "\r\n");
}

#[test]
fn a_missing_terminator_is_added() {
    assert_eq!(normalize_terminator("abc"), "abc\r\n");
    assert_eq!(normalize_terminator(""), "\r\n");
    assert_eq!(normalize_terminator("na\u{ef}ve"), "na\u{ef}ve\r\n");
}

#[test]
fn white_space_around_a_text_is_stripped() {
    assert_eq!(trim("  a b \t"), "a b");
    assert_eq!(trim("apple"), "apple");
    assert_eq!(trim(" \r\n "), "");
    assert_eq!(trim(""), "");
    assert_eq!(trim("\u{a0}x\u{2003}"), "x");
    assert_eq!(trim(" x y  z"), "x y  z");
}

#[test]
fn decimal_numbers_are_read() {
    assert_eq!(parse_decimal("25"), Some(25));
    assert_eq!(parse_decimal("0"), Some(0));
    assert_eq!(parse_decimal("007"), Some(7));
    assert_eq!(parse_decimal("1234567890"), Some(1234567890));
    assert_eq!(parse_decimal(&usize::MAX.to_string()), Some(usize::MAX));
}

#[test]
fn what_is_no_decimal_number_is_turned_down() {
    assert_eq!(parse_decimal(""), None);
    assert_eq!(parse_decimal("12a"), None);
    assert_eq!(parse_decimal("-1"), None);
    assert_eq!(parse_decimal(" 1"), None);
    assert_eq!(parse_decimal("\u{664}"), None);
    assert_eq!(parse_decimal("99999999999999999999999999"), None);
    let mut beyond = usize::MAX.to_string();
    let last = beyond.pop().unwrap();
    beyond.push(((last as u8) + 1) as char);
    assert_eq!(parse_decimal(&beyond), None);
}

#[test]
fn decimal_numbers_are_written() {
    assert_eq!(decimal(0), "0");
    assert_eq!(decimal(7), "7");
    assert_eq!(decimal(10), "10");
    assert_eq!(decimal(1234567890), "1234567890");
    assert_eq!(decimal(usize::MAX), usize::MAX.to_string());
}

#[test]
fn written_numbers_read_back() {
    for n in [0usize, 1, 9, 10, 99, 100, 4096, 65535, usize::MAX] {
        assert_eq!(parse_decimal(&decimal(n)), Some(n));
    }
}

#[test]
fn digits_are_told_apart() {
    assert!(is_decimal_digit('0'));
    assert!(is_decimal_digit('9'));
    assert!(!is_decimal_digit('a'));
    assert!(!is_decimal_digit('/'));
    assert!(!is_decimal_digit(':'));
    assert!(!is_decimal_digit('\u{664}'));
}

#[test]
fn rewriting_a_terminator_twice_changes_nothing_more() {
    for raw in ["abc", "abc\n", "abc\r", "abc\r\n", "", "\n", "\r", "a\n\r", "a\r\r\n"] {
        let once = normalize_terminator(raw);
        assert!(once.ends_with("\r\n"));
        assert_eq!(normalize_terminator(&once), once);
        assert_eq!(trim_trailing_newlines(&once), trim_trailing_newlines(raw));
    }
}
