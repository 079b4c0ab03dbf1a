use mir_analyzer::parser::{is_spurious_reserved_class_message, span_text, Span};
use mir_analyzer::reference_key::ReferenceKeyCache;

#[test]
fn span_text_trims_and_checks_bounds() {
    let src = "<?php  foo();  ?>";
    assert_eq!(span_text(src, Span { start: 5, end: 14 }), Some("foo();".to_string()));
    assert_eq!(span_text(src, Span { start: 5, end: 7 }), None);
    assert_eq!(span_text(src, Span { start: 9, end: 9 }), None);
    assert_eq!(span_text(src, Span { start: 14, end: 400 }), Some("?>".to_string()));
}

#[test]
fn span_text_refuses_split_characters() {
    let src = "é!";
    assert_eq!(span_text(src, Span { start: 1, end: 3 }), None);
    assert_eq!(span_text(src, Span { start: 0, end: 3 }), Some("é!".to_string()));
}

#[test]
fn spurious_reserved_class_messages() {
    assert!(is_spurious_reserved_class_message(
        "Cannot use \"Numeric\" as a class name as it is reserved"
    ));
    assert!(is_spurious_reserved_class_message(
        "Cannot use \"resource\" as a class name as it is reserved"
    ));
    assert!(!is_spurious_reserved_class_message(
        "Cannot use \"int\" as a class name as it is reserved"
    ));
    assert!(!is_spurious_reserved_class_message("Cannot use \"numeric"));
    assert!(!is_spurious_reserved_class_message("expected ';', found '}'"));
}

#[test]
fn class_keys_are_prefixed_and_reused() {
    let mut cache = ReferenceKeyCache::new();
    let first = cache.class("App\\User");
    let second = cache.class("App\\User");
    assert_eq!(first, "cls:App\\User");
    assert_eq!(first, second);
    assert_eq!(cache.class("App\\Post"), "cls:App\\Post");
}

#[test]
fn reuses_cached_single_part_keys() {
    let mut cache = ReferenceKeyCache::default();
    let first = cache.class("App\\User");
    let entries_after_first = cache.len();
    let second = cache.class("App\\User");
    assert_eq!(first, second);
    assert_eq!(cache.len(), entries_after_first);
    assert_eq!(cache.len(), 1);
}
