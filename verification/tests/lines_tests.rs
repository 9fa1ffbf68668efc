use logfilter::lines::{join_lines, split_lines};

#[test]
fn split_simple_lines() {
    assert_eq!(split_lines("a\nb\nc"), vec!["a", "b", "c"]);
}

#[test]
fn split_drops_trailing_newline_line() {
    assert_eq!(split_lines("a\nb\n"), vec!["a", "b"]);
}

#[test]
fn split_empty_text_has_no_lines() {
    assert_eq!(split_lines(""), Vec::<String>::new());
}

#[test]
fn split_lone_newline_is_one_empty_line() {
    assert_eq!(split_lines("\n"), vec![""]);
}

#[test]
fn split_keeps_empty_middle_lines() {
    assert_eq!(split_lines("a\n\nb"), vec!["a", "", "b"]);
}

#[test]
fn split_strips_carriage_return_before_newline() {
    assert_eq!(split_lines("a\r\nb\r\n"), vec!["a", "b"]);
}

#[test]
fn split_keeps_bare_final_carriage_return() {
    assert_eq!(split_lines("a\r"), vec!["a\r"]);
}

#[test]
fn join_appends_newline_after_every_line() {
    let lines = vec!["a".to_string(), "b".to_string()];
    assert_eq!(join_lines(&lines), "a\nb\n");
}

#[test]
fn join_of_no_lines_is_empty() {
    assert_eq!(join_lines(&Vec::new()), "");
}

#[test]
fn split_then_join_normalizes_terminators() {
    let content = "first\nsecond\nthird";
    let joined = join_lines(&split_lines(content));
    assert_eq!(joined, "first\nsecond\nthird\n");
    assert_eq!(join_lines(&split_lines(&joined)), joined);
}
