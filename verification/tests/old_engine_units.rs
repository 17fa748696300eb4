use codesort::languages::Language;
use codesort::trim_comments;
use codesort::Line;
use codesort::List;

/// End-of-line comments are cut, strings with slashes are kept.
#[test]
fn test_trim_comments() {
    assert_eq!(trim_comments("let a = 1; // one"), "let a = 1; ");
    assert_eq!(trim_comments("let s = \"a // b\"; // c"), "let s = \"a // b\"; ");
    assert_eq!(trim_comments("no comment"), "no comment");
}

/// A line knows its indent and its significant content.
#[test]
fn test_line_parts() {
    let line = Line::new("    let a = 1;  // trailing\n".to_string());
    assert_eq!(line.indent(), 4);
    assert_eq!(line.inner(), "let a = 1;");
    assert!(line.starts_with("let"));
    assert!(line.ends_with(";"));
    assert!(!line.is_empty());
    assert!(!line.is_comment_or_attribute());
    assert!(!line.exclude_from_sort());
    assert!(Line::new("   \n".to_string()).is_empty());
    assert!(Line::new("// c\n".to_string()).exclude_from_sort());
    assert!(Line::new("#[attr]\n".to_string()).is_comment_or_attribute());
}

/// The nearest non-blank line is found around a blank one.
#[test]
fn test_non_empty_line_around() {
    let list = List::from_str("a\n\n\n\nb\n", Language::Rust).unwrap();
    assert_eq!(list.non_empty_line_around(0), Some(0));
    assert_eq!(list.non_empty_line_around(1), Some(0));
    assert_eq!(list.non_empty_line_around(3), Some(4));
    assert_eq!(list.non_empty_line_around(9), None);
    assert_eq!(list.first_not_empty_line_after(0), Some(4));
    assert_eq!(list.first_not_empty_line_after(4), None);
}

/// The balance check accepts balanced code and refuses the rest.
#[test]
fn test_check_balanced_simple() {
    assert!(Language::Rust.check_balanced("fn a() { 1 }").is_some());
    assert!(Language::Rust.check_balanced("fn a() { (").is_none());
    assert!(Language::Java.check_balanced("void a() { }").is_some());
    assert!(Language::JavaScript.check_balanced("f = function(){}").is_some());
}

/// A fallback match arm, starting with '_', sorts last.
#[test]
fn test_fallback_sorts_last() {
    let b = Language::Rust.check_balanced("_ => 1,").unwrap();
    assert!(b.sort_key.starts_with('~'));
}
