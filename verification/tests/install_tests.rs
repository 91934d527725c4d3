use kerbin::install::{tag_from_ref_line, versions_from_ls_remote};
use kerbin::text::find_sub_exec;

fn chars(s: &str) -> Vec<char> {
    s.chars().collect()
}

#[test]
fn versions_start_with_master_then_tags_in_order() {
    let out = "abc123\trefs/tags/v0.1.0\ndef456\trefs/tags/v0.2.0\n";
    assert_eq!(
        versions_from_ls_remote(out),
        vec!["git (master branch)".to_string(), "v0.1.0".to_string(), "v0.2.0".to_string()]
    );
}

#[test]
fn versions_skip_lines_without_a_tag() {
    let out = "abc\trefs/tags/v1.0\nxyz\n\nrefs/heads/main\r\n";
    assert_eq!(versions_from_ls_remote(out), vec!["git (master branch)".to_string(), "v1.0".to_string()]);
}

#[test]
fn versions_of_empty_output_offer_only_master() {
    assert_eq!(versions_from_ls_remote(""), vec!["git (master branch)".to_string()]);
}

#[test]
fn versions_strip_carriage_return() {
    let out = "h\trefs/tags/v2\r\n";
    assert_eq!(versions_from_ls_remote(out), vec!["git (master branch)".to_string(), "v2".to_string()]);
}

#[test]
fn tag_stops_at_a_second_marker() {
    assert_eq!(tag_from_ref_line(&chars("x refs/tags/a/refs/tags/b")), Some("a/".to_string()));
    assert_eq!(tag_from_ref_line(&chars("refs/tags/")), Some(String::new()));
    assert_eq!(tag_from_ref_line(&chars("refs/tag/v1")), None);
}

#[test]
fn find_sub_finds_first_occurrence_from_start() {
    let s = chars("abcabc");
    assert_eq!(find_sub_exec(&s, &chars("bc"), 0), Some(1));
    assert_eq!(find_sub_exec(&s, &chars("bc"), 2), Some(4));
    assert_eq!(find_sub_exec(&s, &chars("bc"), 5), None);
    assert_eq!(find_sub_exec(&s, &chars(""), 6), Some(6));
    assert_eq!(find_sub_exec(&s, &chars("abcabcd"), 0), None);
}
