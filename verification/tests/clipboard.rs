use vellum_fe::clipboard::{clipboard_request, copy, cut};

#[test]
fn test_empty_copy() {
    // Should not fail on empty string
    assert!(copy("").is_ok());
}

#[test]
fn cutting_nothing_succeeds_without_a_clipboard() {
    assert!(cut("").is_ok());
}

#[test]
fn copying_asks_the_clipboard_to_hold_exactly_the_text() {
    assert_eq!(clipboard_request(""), None);
    assert_eq!(clipboard_request("hello"), Some("hello".to_string()));
}
