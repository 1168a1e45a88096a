use engine::text::{same_text, slice_text};

#[test]
fn same_text_compares_whole_strings() {
    assert!(same_text("", ""));
    assert!(same_text("let", "let"));
    assert!(!same_text("let", "lets"));
    assert!(!same_text("let", "leT"));
    assert!(!same_text("a", ""));
    assert!(same_text("h\u{e9}", "h\u{e9}"));
    assert!(!same_text("h\u{e9}", "h\u{e8}"));
}

#[test]
fn slice_text_takes_the_bytes_between() {
    assert_eq!(slice_text("let x", 0, 3), "let");
    assert_eq!(slice_text("let x", 4, 5), "x");
    assert_eq!(slice_text("let x", 2, 2), "");
    assert_eq!(slice_text("\"h\u{e9}\"", 1, 4), "h\u{e9}");
    assert_eq!(slice_text("abc", 0, 3), "abc");
}
