use health_monitor::text::{bytes_eq, text_eq};

#[test]
fn equal_texts_are_equal() {
    assert!(text_eq("", ""));
    assert!(text_eq("node_modules", "node_modules"));
    assert!(text_eq("caf\u{e9} \u{1f600}", "caf\u{e9} \u{1f600}"));
}

#[test]
fn different_texts_are_different() {
    assert!(!text_eq("", "a"));
    assert!(!text_eq("a", ""));
    assert!(!text_eq("Library", "library"));
    assert!(!text_eq("Library", "Librar"));
    assert!(!text_eq("Librar", "Library"));
    assert!(!text_eq("abc", "abd"));
    assert!(!text_eq("xbc", "abc"));
    assert!(!text_eq("caf\u{e9}", "cafe"));
    assert!(!text_eq("e\u{301}", "\u{e9}"));
}

#[test]
fn equal_bytes_are_equal() {
    assert!(bytes_eq(&[], &[]));
    assert!(bytes_eq(&[0], &[0]));
    assert!(bytes_eq(&[1, 2, 3, 255], &[1, 2, 3, 255]));
}

#[test]
fn different_bytes_are_different() {
    assert!(!bytes_eq(&[], &[0]));
    assert!(!bytes_eq(&[0], &[]));
    assert!(!bytes_eq(&[1, 2, 3], &[1, 2, 4]));
    assert!(!bytes_eq(&[9, 2, 3], &[1, 2, 3]));
    assert!(!bytes_eq(&[1, 2, 3], &[1, 2]));
    assert!(!bytes_eq(&[1, 2], &[1, 2, 3]));
}
