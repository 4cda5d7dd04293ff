use template_rs::paths::final_segment;
use template_rs::strutil::{is_blank, str_eq, str_lt, str_to_lower, trim};

#[test]
fn test_trim() {
    assert_eq!(trim("  hello \t"), "hello");
    assert_eq!(trim("hello"), "hello");
    assert_eq!(trim("   "), "");
    assert_eq!(trim(""), "");
}

#[test]
fn test_lowercase_is_ascii_only() {
    assert_eq!(str_to_lower("AbC-123"), "abc-123");
    assert_eq!(str_to_lower("JAVASCRIPT"), "javascript");
}

#[test]
fn test_string_order() {
    assert!(str_lt("a", "b"));
    assert!(str_lt("a", "ab"));
    assert!(!str_lt("b", "a"));
    assert!(!str_lt("a", "a"));
    assert!(str_lt("a/x", "ab"));
    assert!(str_eq("same", "same"));
    assert!(!str_eq("same", "other"));
}

#[test]
fn test_blank() {
    assert!(is_blank(" \n\t"));
    assert!(!is_blank(" x "));
}

#[test]
fn test_final_segment() {
    assert_eq!(final_segment("/a/b/c"), "c");
    assert_eq!(final_segment("/a/b/"), "b");
    assert_eq!(final_segment("plain"), "plain");
    assert_eq!(final_segment("/"), "");
}
