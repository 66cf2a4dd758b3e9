use piet::decimal::{decimal_string, push_decimal};
use piet::text::{char_is_digit, char_is_whitespace, parse_number};

#[test]
fn decimal_string_writes_as_the_standard_library_does() {
    for n in [0, 1, 9, 10, 11, 99, 100, 12345, -1, -10, -999, i32::MAX, i32::MIN, 1000000000, -1000000000] {
        assert_eq!(decimal_string(n), n.to_string());
    }
}

#[test]
fn push_decimal_appends() {
    let mut s = String::from("x=");
    push_decimal(&mut s, -305);
    push_decimal(&mut s, 7);
    assert_eq!(s, "x=-3057");
}

#[test]
fn parse_number_reads_what_decimal_string_writes() {
    for n in [0, 5, -5, 72, 1024, i32::MAX, i32::MIN] {
        assert_eq!(parse_number(&decimal_string(n)), Some(n));
    }
}

#[test]
fn parse_number_agrees_with_the_standard_library() {
    for line in [
        "0", "-0", "+0", "12", " 12", "12 ", "\t12\n", "\u{a0}12\u{3000}", "", " ", "+", "-", "+-1", "1+", "１２",
        "2147483647", "2147483648", "-2147483648", "-2147483649", "00000000000000000012", "4294967296", "1e3",
        "12\u{0}", "\u{85}5", "\u{2028}6\u{2029}", "\u{200b}7",
    ] {
        assert_eq!(parse_number(line), line.trim().parse::<i32>().ok(), "{:?}", line);
    }
}

#[test]
fn digits_are_the_ten_ascii_digits() {
    for c in '0'..='9' {
        assert!(char_is_digit(c));
    }
    for c in ['/', ':', 'a', ' ', '٣', '²'] {
        assert!(!char_is_digit(c));
    }
}

#[test]
fn whitespace_is_what_the_standard_library_calls_whitespace() {
    let mut c = 0u32;
    while c <= 0x3100 {
        if let Some(ch) = char::from_u32(c) {
            assert_eq!(char_is_whitespace(ch), ch.is_whitespace(), "{:x}", c);
        }
        c += 1;
    }
}
