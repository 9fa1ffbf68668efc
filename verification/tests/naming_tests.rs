use logfilter::naming::{is_output_name, output_file_name, should_process};

#[test]
fn marker_goes_before_the_extension() {
    assert_eq!(output_file_name("a.log"), "a_filtered.log");
}

#[test]
fn marker_is_appended_without_an_extension() {
    assert_eq!(output_file_name("b"), "b_filtered");
}

#[test]
fn only_the_last_dot_separates_the_extension() {
    assert_eq!(output_file_name("name.tar.gz"), "name.tar_filtered.gz");
}

#[test]
fn a_leading_dot_is_not_an_extension() {
    assert_eq!(output_file_name(".gitignore"), ".gitignore_filtered");
}

#[test]
fn a_trailing_bare_dot_is_dropped() {
    assert_eq!(output_file_name("name."), "name_filtered");
}

#[test]
fn naming_is_deterministic() {
    assert_eq!(output_file_name("x.log"), output_file_name("x.log"));
    assert_eq!(output_file_name("plain"), output_file_name("plain"));
}

#[test]
fn derived_names_are_excluded_from_traversal() {
    assert!(should_process("a.log"));
    assert!(!should_process(&output_file_name("a.log")));
    assert!(!should_process(&output_file_name("b")));
    assert!(!should_process("a_filtered.log"));
    assert!(is_output_name("b_filtered"));
    assert!(!is_output_name("unrelated.log"));
}
