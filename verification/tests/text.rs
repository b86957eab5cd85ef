use nekonote::text::{decimal, join, parse_u64, replace, same_text, utf8_longer_than};

#[test]
fn replace_every_occurrence() {
    assert_eq!(replace("a-b-c", "-", "+"), "a+b+c");
    assert_eq!(replace("aaa", "aa", "b"), "ba");
    assert_eq!(replace("abc", "x", "y"), "abc");
    assert_eq!(replace("%C1%E0", "%", ""), "C1E0");
}

#[test]
fn replace_empty_pattern_matches_everywhere() {
    assert_eq!(replace("ab", "", "x"), "xaxbx");
    assert_eq!(replace("", "", "x"), "x");
}

#[test]
fn replace_agrees_with_std() {
    for (s, f, t) in [("猫の手の猫", "猫", "犬"), ("<https://x>", "<", ""), ("a\nb\n", "\n", "")] {
        assert_eq!(replace(s, f, t), s.replace(f, t));
    }
}

#[test]
fn decimal_notation() {
    assert_eq!(decimal(0), "0");
    assert_eq!(decimal(1024), "1024");
    assert_eq!(decimal(u64::MAX), "18446744073709551615");
}

#[test]
fn parse_like_std() {
    assert_eq!(parse_u64("123"), Some(123));
    assert_eq!(parse_u64("+7"), Some(7));
    assert_eq!(parse_u64("007"), Some(7));
    assert_eq!(parse_u64(""), None);
    assert_eq!(parse_u64("+"), None);
    assert_eq!(parse_u64("-1"), None);
    assert_eq!(parse_u64("12a"), None);
    assert_eq!(parse_u64("18446744073709551615"), Some(u64::MAX));
    assert_eq!(parse_u64("18446744073709551616"), None);
}

#[test]
fn parse_decimal_roundtrip() {
    for n in [0u64, 9, 10, 99, 100, 123456789, u64::MAX] {
        assert_eq!(parse_u64(&decimal(n)), Some(n));
    }
}

#[test]
fn join_with_separator() {
    let list = vec!["a".to_string(), "b".to_string(), "c".to_string()];
    assert_eq!(join(&list, "\n"), "a\nb\nc");
    assert_eq!(join(&vec![], "\n"), "");
    assert_eq!(join(&vec!["x".to_string()], ", "), "x");
}

#[test]
fn compare_texts() {
    assert!(same_text("猫", "猫"));
    assert!(!same_text("猫", "猫の手"));
    assert!(!same_text("a", "b"));
}

#[test]
fn utf8_length_limit() {
    assert!(!utf8_longer_than("abc", 3));
    assert!(utf8_longer_than("abcd", 3));
    assert!(utf8_longer_than("猫", 2));
    assert!(!utf8_longer_than("猫", 3));
}
