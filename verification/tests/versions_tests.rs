use traverse_cli::versions::latest_version_index;

fn latest(vs: &[&str]) -> Option<usize> {
    latest_version_index(&vs.iter().map(|s| s.to_string()).collect())
}

#[test]
fn latest_version_follows_semantic_precedence() {
    assert_eq!(latest(&["1.0.0", "1.10.0", "1.2.0"]), Some(1));
    assert_eq!(latest(&["2.0.0", "2.0.0-alpha"]), Some(0));
    assert_eq!(latest(&["2.0.0-alpha", "1.9.9"]), Some(0));
}

#[test]
fn latest_version_takes_the_last_of_equals_and_ranks_non_versions_first() {
    assert_eq!(latest(&["1.0.0", "1.0.0"]), Some(1));
    assert_eq!(latest(&["1.0.0", "not-a-version"]), Some(0));
    assert_eq!(latest(&["draft", "later"]), Some(1));
    assert_eq!(latest(&[]), None);
}
