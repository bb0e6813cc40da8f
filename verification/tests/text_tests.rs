use mcgrep::text::contains_substring;
use mcgrep::text::split_lines;

#[test]
fn split_empty_text_has_no_lines() {
    let expected: Vec<&str> = Vec::new();
    assert_eq!(split_lines(""), expected);
}

#[test]
fn split_lone_line_break_is_one_empty_line() {
    assert_eq!(split_lines("\n"), vec![""]);
}

#[test]
fn split_keeps_inner_empty_lines() {
    assert_eq!(split_lines("a\n\n\nb"), vec!["a", "", "", "b"]);
}

#[test]
fn split_final_line_needs_no_terminator() {
    assert_eq!(split_lines("a\nb"), vec!["a", "b"]);
    assert_eq!(split_lines("a\nb\n"), vec!["a", "b"]);
}

#[test]
fn empty_needle_is_contained() {
    assert!(contains_substring("anything", ""));
    assert!(contains_substring("", ""));
}

#[test]
fn needle_longer_than_hay_is_not_contained() {
    assert!(!contains_substring("ab", "abc"));
}

#[test]
fn containment_is_positional_and_exact() {
    assert!(contains_substring("abcde", "abc"));
    assert!(contains_substring("abcde", "cde"));
    assert!(contains_substring("abcde", "bcd"));
    assert!(!contains_substring("abcde", "ace"));
    assert!(!contains_substring("abcde", "ABC"));
}

#[test]
fn containment_counts_characters_not_bytes() {
    assert!(contains_substring("größer", "öß"));
    assert!(!contains_substring("größer", "oss"));
}
