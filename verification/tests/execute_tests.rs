use traverse_cli::execute::parse_simplified_workspace_execute_request;

#[test]
fn short_execute_request_fills_defaults() {
    let r = parse_simplified_workspace_execute_request(" test.api.do-something ", None, Some("  ")).expect("valid");
    assert_eq!(r.capability_id, "test.api.do-something");
    assert_eq!(r.capability_version, "1.0.0");
    assert_eq!(r.request_id, "http_test_api_do_something");
    let r = parse_simplified_workspace_execute_request("cap", Some(" 2.0.0 "), Some(" req-9 ")).expect("valid");
    assert_eq!(r.capability_version, "2.0.0");
    assert_eq!(r.request_id, "req-9");
    assert!(parse_simplified_workspace_execute_request("   ", None, None).is_none());
}
