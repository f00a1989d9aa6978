use task_loop::text::after_first_dot;
use task_loop::text::join_lines;
use task_loop::text::parse_name;
use task_loop::text::single_line;
use task_loop::text::split_lines;
use task_loop::text::trim;
use task_loop::text::u64_to_string;

#[test]
fn trim_strips_both_ends() {
    assert_eq!(trim("  hello \n"), "hello");
}

#[test]
fn trim_of_whitespace_is_empty() {
    assert_eq!(trim(" \t\r\n"), "");
}

#[test]
fn trim_of_empty_is_empty() {
    assert_eq!(trim(""), "");
}

#[test]
fn trim_keeps_inner_whitespace() {
    assert_eq!(trim(" a b "), "a b");
}

#[test]
fn split_lines_two_pieces() {
    assert_eq!(split_lines("a\nb"), vec!["a".to_string(), "b".to_string()]);
}

#[test]
fn split_lines_empty_input_is_one_empty_piece() {
    assert_eq!(split_lines(""), vec!["".to_string()]);
}

#[test]
fn split_lines_keeps_trailing_empty_piece() {
    assert_eq!(split_lines("a\n"), vec!["a".to_string(), "".to_string()]);
}

#[test]
fn split_lines_keeps_empty_middle_piece() {
    assert_eq!(
        split_lines("a\n\nb"),
        vec!["a".to_string(), "".to_string(), "b".to_string()]
    );
}

#[test]
fn after_first_dot_takes_rest_of_line() {
    assert_eq!(
        after_first_dot("1. Write outline"),
        Some(" Write outline".to_string())
    );
}

#[test]
fn after_first_dot_without_dot_is_none() {
    assert_eq!(after_first_dot("no dot here"), None);
}

#[test]
fn after_first_dot_splits_at_first_dot_only() {
    assert_eq!(after_first_dot("a.b.c"), Some("b.c".to_string()));
}

#[test]
fn parse_name_trims_extracted_name() {
    assert_eq!(parse_name("1.  Write outline "), Some("Write outline".to_string()));
}

#[test]
fn parse_name_without_dot_is_none() {
    assert_eq!(parse_name("just text"), None);
}

#[test]
fn single_line_replaces_newlines_with_spaces() {
    assert_eq!(single_line("a\nb\nc"), "a b c");
}

#[test]
fn single_line_keeps_text_without_newlines() {
    assert_eq!(single_line("plain"), "plain");
}

#[test]
fn u64_to_string_zero() {
    assert_eq!(u64_to_string(0), "0");
}

#[test]
fn u64_to_string_round_number() {
    assert_eq!(u64_to_string(1050), "1050");
}

#[test]
fn u64_to_string_largest() {
    assert_eq!(u64_to_string(u64::MAX), "18446744073709551615");
}

#[test]
fn join_lines_empty_is_empty() {
    let parts: Vec<String> = vec![];
    assert_eq!(join_lines(&parts), "");
}

#[test]
fn join_lines_single_piece() {
    assert_eq!(join_lines(&vec!["a".to_string()]), "a");
}

#[test]
fn join_lines_inserts_newlines() {
    assert_eq!(
        join_lines(&vec!["a".to_string(), "b".to_string(), "c".to_string()]),
        "a\nb\nc"
    );
}
