use cfti::text::{
    escape, i32_to_decimal, is_whitespace, parse_u32, parse_u64, str_eq,
    tokenize, u64_to_decimal, unescape, Separators,
};

#[test]
fn tokenize_whitespace_drops_empty_items() {
    let v = tokenize("  a \t bb\ncc  ", Separators::Whitespace);
    assert_eq!(v, vec!["a".to_string(), "bb".to_string(), "cc".to_string()]);
    assert!(tokenize("   ", Separators::Whitespace).is_empty());
}

#[test]
fn tokenize_commas_and_whitespace() {
    let v = tokenize("a, b,,c d", Separators::CommaOrWhitespace);
    assert_eq!(v, vec!["a", "b", "c", "d"]);
    let w = tokenize("x,y z\tw", Separators::CommaOrSpace);
    assert_eq!(w, vec!["x", "y", "z\tw"]);
}

#[test]
fn parse_numbers() {
    assert_eq!(parse_u64("42"), Some(42));
    assert_eq!(parse_u64("+7"), Some(7));
    assert_eq!(parse_u64("0"), Some(0));
    assert_eq!(parse_u64("18446744073709551615"), Some(u64::MAX));
    assert_eq!(parse_u64("18446744073709551616"), None);
    assert_eq!(parse_u64(""), None);
    assert_eq!(parse_u64("+"), None);
    assert_eq!(parse_u64("-1"), None);
    assert_eq!(parse_u64("1 2"), None);
    assert_eq!(parse_u32("4294967295"), Some(u32::MAX));
    assert_eq!(parse_u32("4294967296"), None);
}

#[test]
fn decimal_texts() {
    assert_eq!(u64_to_decimal(0), "0");
    assert_eq!(u64_to_decimal(12345), "12345");
    assert_eq!(u64_to_decimal(u64::MAX), "18446744073709551615");
    assert_eq!(i32_to_decimal(-5), "-5");
    assert_eq!(i32_to_decimal(0), "0");
    assert_eq!(i32_to_decimal(i32::MIN), "-2147483648");
}

#[test]
fn escape_for_lines() {
    assert_eq!(escape("a\tb\nc\\", false), "a\\tb\\nc\\\\");
    assert_eq!(escape("r\r", false), "r\r");
    assert_eq!(escape("r\r", true), "r\\r");
    assert_eq!(escape("plain", true), "plain");
}

#[test]
fn escaped_text_is_one_field() {
    let e = escape("one\ttwo\nthree\rfour\\", true);
    assert!(!e.contains('\t'));
    assert!(!e.contains('\n'));
    assert!(!e.contains('\r'));
}

#[test]
fn unescape_words() {
    assert_eq!(unescape("a\\tb"), "a\tb");
    assert_eq!(unescape("x\\\\y"), "x\\y");
    assert_eq!(unescape("l1\\nl2\\r"), "l1\nl2\r");
    assert_eq!(unescape("none"), "none");
    assert_eq!(unescape(&escape("tab\there", true)), "tab\there");
}

#[test]
fn unescape_undoes_escape() {
    // Read from the left: an escaped backslash followed by `t` stays so.
    for input in ["\\t", "a\\\nb", "\t\n\r\\", "trailing\\", "plain"] {
        assert_eq!(unescape(&escape(input, true)), input);
        assert_eq!(unescape(&escape(input, false)), input);
    }
    // A backslash before any other character stands for itself.
    assert_eq!(unescape("a\\qb\\"), "a\\qb\\");
}


#[test]
fn small_helpers() {
    assert!(str_eq("abc", "abc"));
    assert!(!str_eq("abc", "abd"));
    assert!(!str_eq("abc", "ab"));
    assert_eq!(cfti::text::concat(&"ab".to_string(), &"cd".to_string()), "abcd");
    assert!(is_whitespace(' '));
    assert!(is_whitespace('\u{3000}'));
    assert!(!is_whitespace('x'));
}
