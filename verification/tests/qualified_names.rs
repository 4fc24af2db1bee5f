//! Tests of the qualified-name matcher and the attribute lookup.

use docx_text::events::{attr_value, str_equal, Attribute, QName};

fn qn(prefix: Option<&str>, local: &str) -> QName {
    QName { prefix: prefix.map(|p| p.to_string()), local: local.to_string() }
}

#[test]
fn matching_needs_prefix_and_local_name_to_align() {
    assert!(qn(Some("w"), "p").is_tag(Some("w"), "p"));
    assert!(!qn(Some("w"), "p").is_tag(Some("w"), "t"));
    assert!(!qn(Some("v"), "p").is_tag(Some("w"), "p"));
}

#[test]
fn absent_prefix_matches_only_specifications_without_one() {
    assert!(qn(None, "li").is_tag(None, "li"));
    assert!(!qn(None, "p").is_tag(Some("w"), "p"));
    assert!(!qn(Some("w"), "p").is_tag(None, "p"));
}

#[test]
fn matching_is_case_sensitive_and_exact() {
    assert!(!qn(Some("w"), "pstyle").is_tag(Some("w"), "pStyle"));
    assert!(!qn(Some("W"), "p").is_tag(Some("w"), "p"));
    assert!(!qn(Some("w"), "pp").is_tag(Some("w"), "p"));
}

#[test]
fn string_equality_is_by_character_content() {
    assert!(str_equal("abc", "abc"));
    assert!(!str_equal("abc", "abd"));
    assert!(!str_equal("abc", "abcd"));
    assert!(str_equal("", ""));
}

#[test]
fn attribute_lookup_returns_the_first_match() {
    let attrs = vec![
        Attribute { name: qn(Some("w"), "other"), value: "x".to_string() },
        Attribute { name: qn(Some("w"), "val"), value: "first".to_string() },
        Attribute { name: qn(Some("w"), "val"), value: "second".to_string() },
    ];
    assert_eq!(attr_value(&attrs, Some("w"), "val"), "first");
}

#[test]
fn missing_attribute_defaults_to_empty_not_an_error() {
    let attrs = vec![Attribute { name: qn(Some("w"), "other"), value: "x".to_string() }];
    assert_eq!(attr_value(&attrs, Some("w"), "val"), "");
    assert_eq!(attr_value(&Vec::new(), Some("w"), "val"), "");
}

#[test]
fn attribute_lookup_requires_the_key_prefix_too() {
    let attrs = vec![Attribute { name: qn(None, "val"), value: "bare".to_string() }];
    assert_eq!(attr_value(&attrs, Some("w"), "val"), "");
    assert_eq!(attr_value(&attrs, None, "val"), "bare");
}
