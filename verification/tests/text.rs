use weecord::text::{
    contains_chars, decimal_string, join, matches_at, parse_id, push_all, push_decimal, push_str,
    replace_chars, scan_digits, to_chars, to_text,
};

fn chars(s: &str) -> Vec<char> {
    s.chars().collect()
}

#[test]
fn decimal_of_small_and_large_numbers() {
    assert_eq!(decimal_string(0), "0");
    assert_eq!(decimal_string(7), "7");
    assert_eq!(decimal_string(10), "10");
    assert_eq!(decimal_string(1234567890), "1234567890");
    assert_eq!(decimal_string(u64::MAX), "18446744073709551615");
}

#[test]
fn push_decimal_appends() {
    let mut out = chars("id=");
    push_decimal(&mut out, 405);
    assert_eq!(out, chars("id=405"));
}

#[test]
fn chars_and_text_round_trip() {
    let s = "h\u{e9}llo \u{2713} <@1>";
    let v = to_chars(s);
    assert_eq!(v.len(), 12);
    assert_eq!(v[1], '\u{e9}');
    assert_eq!(to_text(&v), s);
    assert_eq!(to_text(&Vec::new()), "");
}

#[test]
fn push_all_and_push_str_append() {
    let mut out = chars("ab");
    push_all(&mut out, &chars("cd"));
    push_str(&mut out, "ef");
    assert_eq!(out, chars("abcdef"));
}

#[test]
fn replace_every_occurrence_from_the_left() {
    let r = replace_chars(&chars("hi Alice and Al"), &chars("Al"), &chars("X"));
    assert_eq!(to_text(&r), "hi Xice and X");
}

#[test]
fn replace_skips_overlapping_occurrences() {
    let r = replace_chars(&chars("aaa"), &chars("aa"), &chars("b"));
    assert_eq!(to_text(&r), "ba");
}

#[test]
fn replace_does_not_search_inserted_text() {
    let r = replace_chars(&chars("ab"), &chars("a"), &chars("aa"));
    assert_eq!(to_text(&r), "aab");
}

#[test]
fn replace_with_empty_pattern_changes_nothing() {
    let r = replace_chars(&chars("abc"), &chars(""), &chars("x"));
    assert_eq!(to_text(&r), "abc");
}

#[test]
fn replace_of_absent_pattern_changes_nothing() {
    let r = replace_chars(&chars("abc"), &chars("zz"), &chars("x"));
    assert_eq!(to_text(&r), "abc");
}

#[test]
fn replace_at_the_very_end() {
    let r = replace_chars(&chars("xxab"), &chars("ab"), &chars(""));
    assert_eq!(to_text(&r), "xx");
}

#[test]
fn contains_finds_a_pattern_anywhere() {
    assert!(contains_chars(&chars("hello"), &chars("llo")));
    assert!(contains_chars(&chars("hello"), &chars("")));
    assert!(contains_chars(&chars(""), &chars("")));
    assert!(!contains_chars(&chars("hello"), &chars("lol")));
    assert!(!contains_chars(&chars("he"), &chars("hello")));
}

#[test]
fn matches_at_a_position() {
    assert!(matches_at(&chars("hello"), 2, &chars("ll")));
    assert!(!matches_at(&chars("hello"), 3, &chars("ll")));
    assert!(!matches_at(&chars("hello"), 4, &chars("ol")));
    assert!(matches_at(&chars("hello"), 5, &chars("")));
}

#[test]
fn join_puts_the_separator_between_parts() {
    let parts = vec!["a".to_string(), "b".to_string(), "c".to_string()];
    assert_eq!(join(&parts, ","), "a,b,c");
    assert_eq!(join(&vec!["x".to_string()], ","), "x");
    assert_eq!(join(&Vec::new(), ","), "");
    assert_eq!(join(&vec!["".to_string(), "".to_string()], "--"), "--");
}

#[test]
fn scan_digits_reads_a_run() {
    assert_eq!(scan_digits(&chars("123x"), 0), (3, Some(123)));
    assert_eq!(scan_digits(&chars("x123"), 0), (0, Some(0)));
    assert_eq!(scan_digits(&chars("x123"), 1), (4, Some(123)));
    assert_eq!(scan_digits(&chars("007"), 0), (3, Some(7)));
    assert_eq!(scan_digits(&chars("12"), 2), (2, Some(0)));
}

#[test]
fn scan_digits_tells_when_the_number_does_not_fit() {
    assert_eq!(scan_digits(&chars("18446744073709551615"), 0), (20, Some(u64::MAX)));
    assert_eq!(scan_digits(&chars("18446744073709551616"), 0), (20, None));
    assert_eq!(scan_digits(&chars("99999999999999999999999"), 0), (23, None));
    assert_eq!(scan_digits(&chars("18446744073709551620"), 0), (20, None));
}

#[test]
fn parse_id_reads_decimal_numbers_only() {
    assert_eq!(parse_id("0"), Some(0));
    assert_eq!(parse_id("0042"), Some(42));
    assert_eq!(parse_id("18446744073709551615"), Some(u64::MAX));
    assert_eq!(parse_id("18446744073709551616"), None);
    assert_eq!(parse_id(""), None);
    assert_eq!(parse_id("+5"), Some(5));
    assert_eq!(parse_id("+18446744073709551615"), Some(u64::MAX));
    assert_eq!(parse_id("+"), None);
    assert_eq!(parse_id("++5"), None);
    assert_eq!(parse_id("5+"), None);
    assert_eq!(parse_id("+-5"), None);
    assert_eq!(parse_id("5 "), None);
    assert_eq!(parse_id("-5"), None);
    assert_eq!(parse_id("5a"), None);
    assert_eq!(parse_id(&decimal_string(987654321)), Some(987654321));
}
