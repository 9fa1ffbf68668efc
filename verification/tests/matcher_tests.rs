use logfilter::matcher::{contains_keyword, default_filters, filter_keyword};

#[test]
fn test_filter_keyword() {
    let wrong_line1 = "[2026-01-06 10:22:50.306] [info] [Global]  tid: 17916, start: 0x7ff93b051b70, (thread 17916 not found), create time: 72130383";
    let wrong_line2 = "[2026-01-06 10:29:10.765] [info] [Global]  cpu usage: 5.83%, memory usage: 0.35%, total: 65301.08MB, used: 230.32MB";
    let wrong_line3 = "[2026-01-06 10:29:10.792] [info] [Global]  pid: 12992, total threads: 59";

    let right_line1 = "[2026-01-06 10:29:09.814] [info] [ModelServer]  generateAllGltfModel called";
    let right_line2 = "[2026-01-06 10:29:10.765] [error] [Global]  exception callback: ERRCODE_MSOPTIMEOUT";
    let right_line3 = "[2026-01-06 11:37:24.511] [info] [ModelServer]  GET:/api/model/path from 172.24.25.2";

    let filters = &[
        "tid:".to_string(),
        "pid:".to_string(),
        "cpu usage".to_string(),
    ];

    assert_eq!(filter_keyword(wrong_line1, filters), false);
    assert_eq!(filter_keyword(wrong_line2, filters), false);
    assert_eq!(filter_keyword(wrong_line3, filters), false);
    assert_eq!(filter_keyword(right_line1, filters), true);
    assert_eq!(filter_keyword(right_line2, filters), true);
    assert_eq!(filter_keyword(right_line3, filters), true);

    assert_eq!(
        filter_keyword(wrong_line1, filters),
        !contains_keyword(wrong_line1, filters)
    );
    assert_eq!(
        filter_keyword(wrong_line2, filters),
        !contains_keyword(wrong_line2, filters)
    );
    assert_eq!(
        filter_keyword(wrong_line3, filters),
        !contains_keyword(wrong_line3, filters)
    );
    assert_eq!(
        filter_keyword(right_line1, filters),
        !contains_keyword(right_line1, filters)
    );
    assert_eq!(
        filter_keyword(right_line2, filters),
        !contains_keyword(right_line2, filters)
    );
    assert_eq!(
        filter_keyword(right_line3, filters),
        !contains_keyword(right_line3, filters)
    );
}

#[test]
fn empty_keyword_set_matches_nothing() {
    let filters: &[String] = &[];
    assert_eq!(contains_keyword("any line at all", filters), false);
    assert_eq!(filter_keyword("any line at all", filters), true);
    assert_eq!(contains_keyword("", filters), false);
    assert_eq!(filter_keyword("", filters), true);
}

#[test]
fn complement_holds_on_mixed_lines() {
    let filters = &["alpha".to_string(), "beta".to_string()];
    for line in [
        "nothing of note",
        "an alpha marker",
        "beta at work",
        "alpha and beta both",
        "",
    ] {
        assert_eq!(filter_keyword(line, filters), !contains_keyword(line, filters));
    }
}

#[test]
fn substring_positions() {
    let filters = &["key".to_string()];
    assert!(contains_keyword("keystone", filters));
    assert!(contains_keyword("the monkey", filters));
    assert!(contains_keyword("a key here", filters));
    assert!(!contains_keyword("k-e-y", filters));
    assert!(!contains_keyword("KEY", filters));
    assert!(!contains_keyword("ke", filters));
}

#[test]
fn empty_keyword_matches_every_line() {
    let filters = &["".to_string()];
    assert!(contains_keyword("anything", filters));
    assert!(contains_keyword("", filters));
    assert!(!filter_keyword("anything", filters));
}

#[test]
fn keyword_longer_than_line_never_matches() {
    let filters = &["a much longer keyword".to_string()];
    assert!(!contains_keyword("short", filters));
    assert!(filter_keyword("short", filters));
}

#[test]
fn default_filter_values() {
    let filters = default_filters();
    assert_eq!(filters, vec!["tid:", "pid:", "cpu usage"]);
    assert!(contains_keyword("some tid: 17", &filters));
    assert!(contains_keyword("pid: 3", &filters));
    assert!(contains_keyword("high cpu usage today", &filters));
    assert!(!contains_keyword("tid 17 without the colon", &filters));
}
