use igrepper::grep::{construct_grep_line, grep_path};
use igrepper::state::SearchLine;

#[test]
fn construct_grep_one_line() {
    let search_lines: Vec<SearchLine> = vec![SearchLine::new("foo".to_string(), 0, false, false)];
    assert_eq!(construct_grep_line(&search_lines), "grep --perl-regexp \'(?i)foo\'");
}

#[test]
fn construct_grep_case_sensitive() {
    let search_lines: Vec<SearchLine> = vec![SearchLine::new("foo".to_string(), 0, true, false)];
    assert_eq!(construct_grep_line(&search_lines), "grep --perl-regexp \'foo\'");
}

#[test]
fn construct_grep_inverted() {
    let search_lines: Vec<SearchLine> = vec![SearchLine::new("foo".to_string(), 0, false, true)];
    assert_eq!(construct_grep_line(&search_lines), "grep -v --perl-regexp \'(?i)foo\'");
}

#[test]
fn construct_grep_sensitive_and_inverted() {
    let search_lines: Vec<SearchLine> = vec![SearchLine::new("foo".to_string(), 0, true, true)];
    assert_eq!(construct_grep_line(&search_lines), "grep -v --perl-regexp \'foo\'");
}

#[test]
fn construct_grep_context() {
    let search_lines: Vec<SearchLine> = vec![SearchLine::new("foo".to_string(), 2, false, false)];
    assert_eq!(construct_grep_line(&search_lines), "grep --context 2 --perl-regexp \'(?i)foo\'");
}

#[test]
fn construct_grep_context_is_ignored_when_inverted() {
    let search_lines: Vec<SearchLine> = vec![SearchLine::new("foo".to_string(), 2, false, true)];
    assert_eq!(construct_grep_line(&search_lines), "grep -v --perl-regexp \'(?i)foo\'");
}

#[test]
fn construct_grep_multiple_lines() {
    let search_lines: Vec<SearchLine> = vec![
        SearchLine::new("foo".to_string(), 0, false, false),
        SearchLine::new("bar".to_string(), 1, true, false),
    ];
    assert_eq!(
        construct_grep_line(&search_lines),
        "grep --perl-regexp \'(?i)foo\' | grep --context 1 --perl-regexp \'bar\'"
    );
}

#[test]
fn construct_grep_with_single_quote() {
    let search_lines: Vec<SearchLine> = vec![SearchLine::new("isn't".to_string(), 0, false, false)];
    assert_eq!(construct_grep_line(&search_lines), "grep --perl-regexp \'(?i)isn\'\\\'\'t\'");
}

#[test]
fn construct_grep_skips_empty_stages() {
    let search_lines: Vec<SearchLine> = vec![
        SearchLine::new("".to_string(), 0, false, false),
        SearchLine::new("a".to_string(), 12, true, false),
        SearchLine::new("".to_string(), 3, true, true),
    ];
    assert_eq!(construct_grep_line(&search_lines), "grep --context 12 --perl-regexp 'a'");
    assert_eq!(construct_grep_line(&vec![]), "");
}

#[test]
fn grep_path_is_grep() {
    assert_eq!(grep_path(), "grep");
}
