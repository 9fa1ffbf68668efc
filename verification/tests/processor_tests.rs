use logfilter::matcher::default_filters;
use logfilter::processor::{count_content, count_matching, filter_content, select_lines};

#[test]
fn default_policy_removes_the_matching_line() {
    let tid_line = "[2026-01-06 10:22:50.306] [info] [Global]  tid: 17916, ...";
    let clean_line = "[2026-01-06 10:29:09.814] [info] [ModelServer]  generateAllGltfModel called";
    let filters = default_filters();
    let content = format!("{}\n{}\n", tid_line, clean_line);

    let removed = filter_content(&content, &filters, false);
    assert_eq!(removed, format!("{}\n", clean_line));

    let kept = filter_content(&content, &filters, true);
    assert_eq!(kept, format!("{}\n", tid_line));
}

#[test]
fn keep_and_remove_outputs_partition_the_lines() {
    let filters = &["bad".to_string()];
    let lines = vec![
        "good morning".to_string(),
        "bad weather".to_string(),
        "good evening".to_string(),
        "bad luck".to_string(),
        "".to_string(),
    ];
    let kept = select_lines(&lines, filters, true);
    let removed = select_lines(&lines, filters, false);
    assert_eq!(kept, vec!["bad weather", "bad luck"]);
    assert_eq!(removed, vec!["good morning", "good evening", ""]);
    assert_eq!(kept.len() + removed.len(), lines.len());
    for line in &lines {
        assert!(kept.contains(line) != removed.contains(line));
    }
}

#[test]
fn count_matching_counts_exactly() {
    let filters = &["x".to_string()];
    let lines = vec![
        "axe".to_string(),
        "none".to_string(),
        "xx".to_string(),
        "plain".to_string(),
    ];
    assert_eq!(count_matching(&lines, filters), 2);
}

#[test]
fn count_content_counts_lines_with_keywords() {
    let filters = default_filters();
    let content = "tid: 1\nquiet line\npid: 2\ncpu usage: 50%\nanother quiet line\n";
    assert_eq!(count_content(content, &filters), 3);
}

#[test]
fn count_content_is_zero_without_matches() {
    let filters = default_filters();
    assert_eq!(count_content("nothing here\nat all\n", &filters), 0);
}

#[test]
fn empty_file_filters_to_empty_output() {
    let filters = default_filters();
    assert_eq!(filter_content("", &filters, false), "");
    assert_eq!(filter_content("", &filters, true), "");
}

#[test]
fn empty_keyword_set_keeps_everything_on_remove() {
    let filters: &[String] = &[];
    let content = "one\ntwo\n";
    assert_eq!(filter_content(content, filters, false), content);
    assert_eq!(filter_content(content, filters, true), "");
}

#[test]
fn filter_adds_terminator_to_unterminated_last_line() {
    let filters: &[String] = &[];
    assert_eq!(filter_content("one\ntwo", filters, false), "one\ntwo\n");
}
