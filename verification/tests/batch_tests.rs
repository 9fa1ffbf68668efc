use logfilter::batch::{batch_counts, batch_filtered};
use logfilter::matcher::default_filters;
use logfilter::paths::resolve_path;

#[test]
fn directory_check_reports_one_count_per_file() {
    let filters = default_filters();
    let contents = vec![
        Some("tid: 1\nok\npid: 2\n".to_string()),
        Some("cpu usage: 90%\n".to_string()),
        Some("calm\nlines\nonly\n".to_string()),
    ];
    let reports = batch_counts(&contents, &filters);
    assert_eq!(reports, vec![Some(2), Some(1), Some(0)]);
}

#[test]
fn an_unreadable_file_does_not_disturb_the_others() {
    let filters = default_filters();
    let first = "tid: 1\nok\n".to_string();
    let third = "quiet\n".to_string();

    let full = vec![
        Some(first.clone()),
        Some("pid: 2\n".to_string()),
        Some(third.clone()),
    ];
    let with_failure = vec![Some(first.clone()), None, Some(third.clone())];

    let full_reports = batch_counts(&full, &filters);
    let reports = batch_counts(&with_failure, &filters);
    assert_eq!(reports.len(), 3);
    assert_eq!(reports[0], full_reports[0]);
    assert_eq!(reports[1], None);
    assert_eq!(reports[2], full_reports[2]);

    let filtered = batch_filtered(&with_failure, &filters, false);
    assert_eq!(filtered[0], Some("ok\n".to_string()));
    assert_eq!(filtered[1], None);
    assert_eq!(filtered[2], Some("quiet\n".to_string()));
}

#[test]
fn batch_filtered_writes_one_output_per_file() {
    let filters = vec!["drop".to_string()];
    let contents = vec![
        Some("keep\ndrop this\nkeep too\n".to_string()),
        Some("drop\ndrop\n".to_string()),
    ];
    let reports = batch_filtered(&contents, &filters, false);
    assert_eq!(
        reports,
        vec![Some("keep\nkeep too\n".to_string()), Some("".to_string())]
    );
}

#[test]
fn relative_paths_resolve_against_the_base() {
    assert_eq!(resolve_path("logs/a.log", false, "/base"), "/base/logs/a.log");
    assert_eq!(resolve_path("a.log", false, "/base/"), "/base/a.log");
    assert_eq!(resolve_path("/abs/a.log", true, "/base"), "/abs/a.log");
    assert_eq!(resolve_path("a.log", false, ""), "a.log");
}
