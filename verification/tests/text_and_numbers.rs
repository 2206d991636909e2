use voxygen::numeral::{format_int, parse_i32};
use voxygen::text::{chars_of, str_equal, string_of, trimmed};

fn chars(s: &str) -> Vec<char> {
    s.chars().collect()
}

#[test]
fn format_writes_plain_decimal() {
    assert_eq!(format_int(0), "0");
    assert_eq!(format_int(7), "7");
    assert_eq!(format_int(-12), "-12");
    assert_eq!(format_int(1000), "1000");
    assert_eq!(format_int(2147483647), "2147483647");
    assert_eq!(format_int(-2147483648), "-2147483648");
    assert_eq!(format_int(4294967295), "4294967295");
}

#[test]
fn parse_accepts_signed_decimal() {
    assert_eq!(parse_i32(&chars("42")), Some(42));
    assert_eq!(parse_i32(&chars("+7")), Some(7));
    assert_eq!(parse_i32(&chars("-0")), Some(0));
    assert_eq!(parse_i32(&chars("007")), Some(7));
    assert_eq!(parse_i32(&chars("-2147483648")), Some(i32::MIN));
    assert_eq!(parse_i32(&chars("2147483647")), Some(i32::MAX));
}

#[test]
fn parse_refuses_what_std_refuses() {
    for s in ["", "-", "+", "abc", "1a", " 5", "5 ", "+-1", "2147483648", "-2147483649", "99999999999999999999", "٣"] {
        assert_eq!(parse_i32(&chars(s)), None, "{:?}", s);
        assert!(s.parse::<i32>().is_err(), "{:?}", s);
    }
}

#[test]
fn parse_agrees_with_std_on_samples() {
    for s in ["0", "12", "-12", "+12", "0000000000000000000000001", "-000", "2147483647", "-2147483648"] {
        assert_eq!(parse_i32(&chars(s)), s.parse::<i32>().ok(), "{:?}", s);
    }
}

#[test]
fn format_then_parse_round_trips() {
    for n in [0i32, 1, -1, 9, 10, -10, 123456, i32::MAX, i32::MIN] {
        let s = format_int(n as i64);
        assert_eq!(parse_i32(&chars(&s)), Some(n));
    }
}

#[test]
fn trim_removes_unicode_white_space() {
    assert_eq!(trimmed(&chars("  12 \t")), chars("12"));
    assert_eq!(trimmed(&chars("\u{3000}a b\u{a0}")), chars("a b"));
    assert_eq!(trimmed(&chars("   ")), chars(""));
    assert_eq!(trimmed(&chars("x")), chars("x"));
    for s in ["  12 \t", "\u{2028}q\u{85}", "\u{200b}z"] {
        assert_eq!(trimmed(&chars(s)), chars(s.trim()));
    }
}

#[test]
fn characters_convert_both_ways() {
    let v = chars_of("héllo");
    assert_eq!(v, vec!['h', 'é', 'l', 'l', 'o']);
    assert_eq!(string_of(&v), "héllo");
    assert!(str_equal("abc", "abc"));
    assert!(!str_equal("abc", "abd"));
    assert!(!str_equal("abc", "ab"));
}
