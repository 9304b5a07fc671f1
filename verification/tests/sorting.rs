use versort::{sort_versions, Version};

fn parse_all(lines: &[&str]) -> Vec<Version> {
    lines
        .iter()
        .map(|s| Version::parse(s.to_string()).unwrap())
        .collect()
}

fn texts(versions: &[Version]) -> Vec<String> {
    versions.iter().map(|v| v.s.clone()).collect()
}

#[test]
fn end_to_end_scenario() {
    let mut versions = parse_all(&["2.0", "1.0", "1.0-beta", "1.0-alpha", "1.10", "1.2"]);
    sort_versions(&mut versions);
    assert_eq!(
        texts(&versions),
        vec!["1.0-alpha", "1.0-beta", "1.0", "1.2", "1.10", "2.0"]
    );
}

#[test]
fn sorting_preserves_every_line_verbatim() {
    let lines = ["3.0", "1.0-RC", "1.0-rc", "0.9", "1.0", "1.0"];
    let mut versions = parse_all(&lines);
    sort_versions(&mut versions);
    let mut out = texts(&versions);
    let mut expected: Vec<String> = lines.iter().map(|s| s.to_string()).collect();
    out.sort();
    expected.sort();
    assert_eq!(out, expected);
}

#[test]
fn duplicates_survive_sorting() {
    let mut versions = parse_all(&["1.0", "1.0", "0.1"]);
    sort_versions(&mut versions);
    let out = texts(&versions);
    assert_eq!(out, vec!["0.1", "1.0", "1.0"]);
}

#[test]
fn sorting_an_empty_collection() {
    let mut versions: Vec<Version> = Vec::new();
    sort_versions(&mut versions);
    assert!(versions.is_empty());
}

#[test]
fn sorting_a_single_line() {
    let mut versions = parse_all(&["7.7.7"]);
    sort_versions(&mut versions);
    assert_eq!(texts(&versions), vec!["7.7.7"]);
}

#[test]
fn already_sorted_input_is_unchanged() {
    let mut versions = parse_all(&["1.0-alpha", "1.0", "2.0"]);
    sort_versions(&mut versions);
    assert_eq!(texts(&versions), vec!["1.0-alpha", "1.0", "2.0"]);
}

#[test]
fn reverse_sorted_input() {
    let mut versions = parse_all(&["10.0", "2.0", "1.5", "1.0"]);
    sort_versions(&mut versions);
    assert_eq!(texts(&versions), vec!["1.0", "1.5", "2.0", "10.0"]);
}

#[test]
fn mixed_case_sorts_by_lowercase_meaning() {
    let mut versions = parse_all(&["1_BETA", "1_alpha", "1"]);
    sort_versions(&mut versions);
    assert_eq!(texts(&versions), vec!["1_alpha", "1_BETA", "1"]);
}
