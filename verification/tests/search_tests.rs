use mcgrep::search;
use mcgrep::search_case_insensitive;

#[test]
fn scenario_case_sensitive() {
    let contents = "Foo\nBar\nFoobar";
    assert_eq!(search("Foo", contents), vec!["Foo", "Foobar"]);
}

#[test]
fn scenario_case_insensitive() {
    let contents = "foo\nBar\nFoobar";
    assert_eq!(search_case_insensitive("foo", contents), vec!["foo", "Foobar"]);
}

#[test]
fn empty_query_returns_every_line() {
    let contents = "x\ny";
    assert_eq!(search("", contents), vec!["x", "y"]);
}

#[test]
fn empty_query_on_empty_contents() {
    let expected: Vec<&str> = Vec::new();
    assert_eq!(search("", ""), expected);
}

#[test]
fn preserves_order_and_duplicates() {
    let contents = "a\nb\na\nab";
    assert_eq!(search("a", contents), vec!["a", "a", "ab"]);
}

#[test]
fn zero_matches_yield_empty_result() {
    let contents = "Foo\nBar";
    let expected: Vec<&str> = Vec::new();
    assert_eq!(search("zzz", contents), expected);
}

#[test]
fn identical_calls_yield_identical_results() {
    let contents = "Rust:\nsafe, fast, productive.\nPick three.\nTrust me.";
    let first = search("ust", contents);
    let second = search("ust", contents);
    assert_eq!(first, second);
    let first_ci = search_case_insensitive("rUsT", contents);
    let second_ci = search_case_insensitive("rUsT", contents);
    assert_eq!(first_ci, second_ci);
}

#[test]
fn case_insensitive_returns_original_case() {
    let contents = "Rust is great\nnothing here";
    assert_eq!(search_case_insensitive("RUST", contents), vec!["Rust is great"]);
}

#[test]
fn uppercase_query_matches_lowercase_line() {
    assert_eq!(search_case_insensitive("FOO", "foo"), vec!["foo"]);
}

#[test]
fn case_sensitive_rejects_other_case() {
    let contents = "foo\nFOO\nFoo";
    assert_eq!(search("foo", contents), vec!["foo"]);
}

#[test]
fn trailing_newline_opens_no_extra_line() {
    let contents = "a\nb\n";
    assert_eq!(search("", contents), vec!["a", "b"]);
}

#[test]
fn empty_lines_are_kept_as_lines() {
    let contents = "a\n\nb";
    assert_eq!(search("", contents), vec!["a", "", "b"]);
}

#[test]
fn query_spanning_no_line_break() {
    let contents = "ab\ncd";
    let expected: Vec<&str> = Vec::new();
    assert_eq!(search("b\nc", contents), expected);
}

#[test]
fn match_at_line_start_middle_and_end() {
    let contents = "needle and thread\na needle pulls\nfound the needle";
    let lines = search("needle", contents);
    assert_eq!(
        lines,
        vec!["needle and thread", "a needle pulls", "found the needle"]
    );
}
