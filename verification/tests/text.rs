use hytch::text::{
    chars_of, contains_char, decimal_string, join, pad, parse_u64, push_decimal, split, str_eq,
};

#[test]
fn decimal_numbers_read_back() {
    for n in [0u64, 7, 10, 99, 100, 65536, 1000000007, u64::MAX] {
        let text = decimal_string(n);
        assert_eq!(text, format!("{n}"));
        assert_eq!(parse_u64(&text), Some(n));
    }
    let mut text = "n=".to_string();
    push_decimal(&mut text, 42);
    assert_eq!(text, "n=42");
}

#[test]
fn numbers_that_are_none() {
    for text in ["", "+", "-1", "1 ", "a", "+-1", "++1", "18446744073709551616", "\u{661}"] {
        assert_eq!(parse_u64(text), text.parse::<u64>().ok());
        assert_eq!(parse_u64(text), None);
    }
    assert_eq!(parse_u64("+5"), Some(5));
    assert_eq!(parse_u64("007"), Some(7));
}

#[test]
fn splitting_and_joining() {
    assert_eq!(split("a:b::c", ':'), vec!["a", "b", "", "c"]);
    assert_eq!(split("", ':'), vec![""]);
    assert_eq!(split(":", ':'), vec!["", ""]);
    assert_eq!(split("\u{e9}:x", ':'), vec!["\u{e9}", "x"]);
    assert_eq!(join(&split("a:b::c", ':'), ":"), "a:b::c");
    assert_eq!(join(&vec![], ":"), "");
}

#[test]
fn comparing_and_padding() {
    assert!(str_eq("abc", "abc"));
    assert!(!str_eq("abc", "abd"));
    assert!(!str_eq("abc", "ab"));
    assert!(contains_char("a/b", '/'));
    assert!(!contains_char("ab", '/'));
    assert_eq!(chars_of("a\u{e9}"), vec!['a', '\u{e9}']);
    assert_eq!(pad("ab", 4), "ab  ");
    assert_eq!(pad("abcde", 4), "abcde");
}
