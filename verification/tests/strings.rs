use switch_demo::strings::{decimal_string, push_decimal, str_contains};

#[test]
fn str_contains_finds_substrings() {
    assert!(str_contains("source 12", "2"));
    assert!(str_contains("source 12", "source 1"));
    assert!(str_contains("source 12", "source 12"));
    assert!(!str_contains("source 12", "source 13"));
    assert!(!str_contains("abc", "abcd"));
}

#[test]
fn str_contains_empty_pattern_matches_everything() {
    assert!(str_contains("", ""));
    assert!(str_contains("anything", ""));
}

#[test]
fn str_contains_is_case_sensitive() {
    assert!(!str_contains("source", "Source"));
    assert!(str_contains("Source", "ource"));
}

#[test]
fn str_contains_handles_multibyte_characters() {
    assert!(str_contains("搜索 source", "搜索"));
    assert!(!str_contains("搜索", "search"));
}

#[test]
fn decimal_string_renders_digits_most_significant_first() {
    assert_eq!(decimal_string(0), "0");
    assert_eq!(decimal_string(7), "7");
    assert_eq!(decimal_string(29), "29");
    assert_eq!(decimal_string(120), "120");
    assert_eq!(decimal_string(4294967295), "4294967295");
}

#[test]
fn push_decimal_appends_to_existing_text() {
    let mut s = String::from("source ");
    push_decimal(&mut s, 12);
    assert_eq!(s, "source 12");
}
