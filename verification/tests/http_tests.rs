use traverse_cli::http::{mint_local_dev_token, server_discovery};
use traverse_cli::http::{
    classify_read_failure, configured_idempotency_retention, connection_action,
    cors_response_headers, find_header_end, is_cors_origin_allowed, is_dev_auth_mode,
    is_loopback, is_loopback_browser_origin, is_rfc1918_private_ip, is_trusted_dev_caller,
    keep_idempotency_record, mobile_connect_url, parse_path_and_query, parse_request_head,
    percent_encode_query_value, rejects_public_caller, request_from_parts, response_head,
    runtime_security_for_auth_mode, scan_header_buffer, splice_response_headers,
    unsupported_media_type_error, ConnectionAction, HeaderLine, HeaderScan, HttpRequest, PeerIp,
    RuntimeSecurityPosture, ServeError, CORS_ALLOW_METHODS, DEFAULT_IDEMPOTENCY_RETENTION_SECONDS,
    MAX_REQUEST_BODY, MAX_REQUEST_HEADER_BYTES, MAX_REQUEST_HEADER_COUNT,
    MIN_IDEMPOTENCY_RETENTION_SECONDS,
};
use traverse_cli::routes::Route;

fn v4(a: u8, b: u8, c: u8, d: u8) -> PeerIp {
    PeerIp::V4(a, b, c, d)
}

fn request(method: &str, path: &str, headers: &[(&str, &str)], body: &[u8]) -> HttpRequest {
    HttpRequest {
        method: method.to_string(),
        path: path.to_string(),
        query: Vec::new(),
        headers: headers.iter().map(|(k, v)| (k.to_string(), v.to_string())).collect(),
        body: body.to_vec(),
    }
}

#[test]
fn serve_error_display_keeps_bind_and_accept_context() {
    assert_eq!(
        ServeError::BindFailed("address in use".to_string()).message(),
        "failed to bind HTTP/JSON API server: address in use"
    );
    assert_eq!(
        ServeError::AcceptFailed("socket closed".to_string()).message(),
        "HTTP/JSON API server accept loop failed: socket closed"
    );
}

#[test]
fn mobile_connect_url_percent_encodes_runtime_fields() {
    let url = mobile_connect_url("http://192.168.1.42:8787", "local default", "dev-loopback");
    assert_eq!(
        url,
        "traverse://connect?base_url=http%3A%2F%2F192.168.1.42%3A8787&workspace_default=local%20default&auth_mode=dev-loopback"
    );
}

#[test]
fn idempotency_retention_normalizes_default_floor_and_explicit_values() {
    assert_eq!(configured_idempotency_retention(None), DEFAULT_IDEMPOTENCY_RETENTION_SECONDS);
    assert_eq!(configured_idempotency_retention(Some(1)), MIN_IDEMPOTENCY_RETENTION_SECONDS);
    assert_eq!(
        configured_idempotency_retention(Some(MIN_IDEMPOTENCY_RETENTION_SECONDS + 1)),
        MIN_IDEMPOTENCY_RETENTION_SECONDS + 1
    );
}

#[test]
fn idempotency_retention_defaults_to_24_hours_with_minimum_floor() {
    assert_eq!(DEFAULT_IDEMPOTENCY_RETENTION_SECONDS, 24 * 60 * 60);
    let now = 10_000;
    let stored_at = now - (MIN_IDEMPOTENCY_RETENTION_SECONDS + 1);
    assert!(!keep_idempotency_record(now, stored_at, 1));
    assert!(keep_idempotency_record(now, now - MIN_IDEMPOTENCY_RETENTION_SECONDS, 1));
    assert!(keep_idempotency_record(now, now + 5, 1));
}

#[test]
fn percent_encoding_keeps_only_unreserved_bytes() {
    assert_eq!(percent_encode_query_value("aZ09-._~"), "aZ09-._~");
    assert_eq!(percent_encode_query_value("a b&c"), "a%20b%26c");
    assert_eq!(percent_encode_query_value("é"), "%C3%A9");
}

#[test]
fn loopback_ipv4_is_recognized() {
    assert!(is_loopback(v4(127, 0, 0, 1)));
}

#[test]
fn loopback_ipv6_is_recognized() {
    assert!(is_loopback(PeerIp::V6(0, 0, 0, 0, 0, 0, 0, 1)));
}

#[test]
fn non_loopback_ip_is_not_loopback() {
    assert!(!is_loopback(v4(192, 168, 1, 100)));
}

#[test]
fn dev_any_trusts_loopback_and_rfc1918_callers() {
    assert!(is_trusted_dev_caller(v4(127, 0, 0, 1), "dev-any"));
    assert!(is_trusted_dev_caller(v4(10, 0, 0, 42), "dev-any"));
    assert!(is_trusted_dev_caller(v4(172, 16, 0, 42), "dev-any"));
    assert!(is_trusted_dev_caller(v4(192, 168, 1, 42), "dev-any"));
}

#[test]
fn dev_any_rejects_public_and_ipv6_non_loopback_callers() {
    assert!(!is_trusted_dev_caller(v4(8, 8, 8, 8), "dev-any"));
    assert!(!is_trusted_dev_caller(
        PeerIp::V6(0x2001, 0x4860, 0x4860, 0, 0, 0, 0, 0x8888),
        "dev-any"
    ));
}

#[test]
fn dev_any_public_rejection_returns_problem_details() {
    assert!(rejects_public_caller("dev-any", false));
    assert!(!rejects_public_caller("dev-any", true));
    assert!(!rejects_public_caller("dev-loopback", false));
    let req = request("GET", "/healthz", &[], b"");
    assert!(matches!(
        connection_action(&req, "dev-any", false, &Vec::new(), false),
        ConnectionAction::RejectPublicCaller
    ));
}

#[test]
fn dev_loopback_does_not_trust_lan_callers() {
    assert!(!is_trusted_dev_caller(v4(192, 168, 1, 42), "dev-loopback"));
}

#[test]
fn unknown_auth_mode_is_never_a_trusted_development_caller() {
    assert!(!is_trusted_dev_caller(v4(127, 0, 0, 1), "production"));
}

#[test]
fn rfc1918_ranges_are_exact() {
    assert!(is_rfc1918_private_ip(v4(172, 31, 255, 255)));
    assert!(!is_rfc1918_private_ip(v4(172, 32, 0, 1)));
    assert!(!is_rfc1918_private_ip(v4(172, 15, 0, 1)));
    assert!(!is_rfc1918_private_ip(v4(192, 169, 0, 1)));
}

#[test]
fn runtime_security_follows_auth_mode() {
    assert_eq!(runtime_security_for_auth_mode("dev-loopback"), RuntimeSecurityPosture::Development);
    assert_eq!(runtime_security_for_auth_mode("dev-any"), RuntimeSecurityPosture::Development);
    assert_eq!(runtime_security_for_auth_mode("bearer-required"), RuntimeSecurityPosture::Production);
    assert!(is_dev_auth_mode("dev-any"));
    assert!(!is_dev_auth_mode("bearer-required"));
}

#[test]
fn cors_allows_loopback_browser_origins_for_dev_loopback_by_default() {
    let headers = cors_response_headers(Some("http://localhost:3000"), &Vec::new(), true)
        .expect("loopback origin must be allowed");
    assert!(headers
        .iter()
        .any(|h| h.name == "Access-Control-Allow-Origin" && h.value == "http://localhost:3000"));
}

#[test]
fn cors_requires_exact_configured_origin_for_non_loopback_callers() {
    let configured = vec!["https://app.example".to_string()];
    assert!(cors_response_headers(Some("https://app.example"), &configured, false).is_ok());
    assert!(cors_response_headers(Some("https://other.example"), &configured, false).is_err());
}

#[test]
fn cors_preflight_returns_allow_headers_for_allowed_origin() {
    let req = request("OPTIONS", "/v1/capabilities", &[("origin", "http://127.0.0.1:5173")], b"");
    match connection_action(&req, "dev-loopback", false, &Vec::new(), true) {
        ConnectionAction::Preflight(headers) => {
            assert!(headers.iter().any(|h| h.name == "Access-Control-Allow-Origin"
                && h.value == "http://127.0.0.1:5173"));
            assert!(headers
                .iter()
                .any(|h| h.name == "Access-Control-Allow-Methods" && h.value == CORS_ALLOW_METHODS));
        }
        _ => panic!("preflight expected"),
    }
}

#[test]
fn cors_preflight_rejects_unconfigured_non_loopback_origin() {
    let req = request("OPTIONS", "/v1/capabilities", &[("origin", "https://other.example")], b"");
    match connection_action(&req, "bearer-required", false, &Vec::new(), false) {
        ConnectionAction::CorsForbidden(m) => assert_eq!(m, "CORS origin is not allowed"),
        _ => panic!("forbidden expected"),
    }
    let no_origin = request("OPTIONS", "/v1/capabilities", &[], b"");
    match connection_action(&no_origin, "bearer-required", false, &Vec::new(), false) {
        ConnectionAction::CorsForbidden(m) => assert_eq!(m, "Origin is not allowed"),
        _ => panic!("forbidden expected"),
    }
}

#[test]
fn loopback_browser_origins_cover_hosts_schemes_and_ports() {
    assert!(is_loopback_browser_origin("http://localhost"));
    assert!(is_loopback_browser_origin("https://127.0.0.1:8443"));
    assert!(is_loopback_browser_origin("http://[::1]:3000"));
    assert!(is_loopback_browser_origin("http://[::1]"));
    assert!(!is_loopback_browser_origin("http://[::1]evil"));
    assert!(!is_loopback_browser_origin("http://localhost.evil.example"));
    assert!(!is_loopback_browser_origin("ftp://localhost"));
    assert!(is_cors_origin_allowed("https://app.example", &vec!["https://app.example".to_string()], false));
    assert!(!is_cors_origin_allowed("http://localhost:1", &Vec::new(), false));
}

#[test]
fn unsupported_media_type_returns_problem_details() {
    let req = request("POST", "/v1/workspaces/ws-test/execute", &[("content-type", "text/plain")], b"{}");
    let err = unsupported_media_type_error(&req).expect("media type must be rejected");
    assert_eq!(err.status, 415);
    assert_eq!(err.reason, "Unsupported Media Type");
    assert_eq!(err.code, "unsupported_media_type");
    let json = request("POST", "/x", &[("content-type", "Application/JSON; charset=utf-8")], b"{}");
    assert!(unsupported_media_type_error(&json).is_none());
    let empty = request("POST", "/x", &[("content-type", "text/plain")], b"");
    assert!(unsupported_media_type_error(&empty).is_none());
    let get = request("GET", "/x", &[("content-type", "text/plain")], b"{}");
    assert!(unsupported_media_type_error(&get).is_none());
}

#[test]
fn unauthenticated_request_returns_problem_details() {
    let req = request("POST", "/v1/capabilities/execute", &[], b"{}");
    assert!(matches!(
        connection_action(&req, "bearer-required", false, &Vec::new(), false),
        ConnectionAction::BearerRequired(_)
    ));
    let health = request("GET", "/healthz", &[], b"");
    assert!(matches!(
        connection_action(&health, "bearer-required", false, &Vec::new(), false),
        ConnectionAction::Dispatch(Route::Health, _)
    ));
    let bearer = request("GET", "/v1/capabilities", &[("authorization", "Bearer t")], b"");
    assert!(matches!(
        connection_action(&bearer, "bearer-required", false, &Vec::new(), false),
        ConnectionAction::Dispatch(Route::ListCapabilities, _)
    ));
}

#[test]
fn read_failures_map_to_statuses() {
    assert_eq!(classify_read_failure("HTTP request timed out reading body").0, 408);
    assert_eq!(
        classify_read_failure("HTTP request has too many headers (max 100)"),
        (431, "Request Header Fields Too Large".to_string(), "too_many_headers".to_string())
    );
    assert_eq!(classify_read_failure("HTTP request headers too large").2, "header_too_large");
    assert_eq!(
        classify_read_failure("HTTP request body too large (5 bytes, max 4194304)"),
        (413, "Payload Too Large".to_string(), "payload_too_large".to_string())
    );
    assert_eq!(classify_read_failure("HTTP request missing path").0, 400);
}

#[test]
fn header_end_is_the_first_blank_line() {
    assert_eq!(find_header_end(b"GET / HTTP/1.1\r\n\r\nbody\r\n\r\n"), Some(14));
    assert_eq!(find_header_end(b"GET / HTTP/1.1\r\n"), None);
    assert_eq!(find_header_end(b""), None);
}

#[test]
fn oversized_headers_are_rejected() {
    let mut buffer = b"GET /healthz HTTP/1.1\r\nX-Filler: ".to_vec();
    buffer.extend(std::iter::repeat(b'x').take(MAX_REQUEST_HEADER_BYTES));
    buffer.extend_from_slice(b"\r\n\r\n");
    assert_eq!(scan_header_buffer(&buffer), HeaderScan::TooLarge);
    assert_eq!(scan_header_buffer(b"GET / HTTP/1.1\r\n\r\n"), HeaderScan::Complete(14));
    assert_eq!(scan_header_buffer(b"GET / HTTP/1.1\r\n"), HeaderScan::Incomplete);
}

#[test]
fn too_many_headers_are_rejected() {
    let mut head = String::from("GET /healthz HTTP/1.1\r\nHost: x");
    for i in 0..(MAX_REQUEST_HEADER_COUNT + 5) {
        head.push_str(&format!("\r\nX-Filler-{i}: 1"));
    }
    let err = parse_request_head(head.as_bytes()).err().expect("must be refused");
    assert!(err.contains("too many headers"));
}

#[test]
fn payload_too_large_returns_problem_details() {
    let head = format!("POST /v1/workspaces/ws-test/execute HTTP/1.1\r\nHost: x\r\nContent-Length: {}", MAX_REQUEST_BODY + 1);
    let err = parse_request_head(head.as_bytes()).err().expect("must be refused");
    assert_eq!(err, format!("HTTP request body too large ({} bytes, max 4194304)", MAX_REQUEST_BODY + 1));
    assert_eq!(classify_read_failure(&err).0, 413);
}

#[test]
fn request_head_parses_line_query_and_headers() {
    let head = parse_request_head(
        b"POST /v1/x?workspace_id=ws&flag&a=1&a=2&&k=v=w HTTP/1.1\r\nContent-Type : application/json \r\nX-Dup: 1\r\nx-dup: 2\r\nnot a header\r\nContent-Length: 3",
    )
    .ok()
    .expect("must parse");
    assert_eq!(head.method, "POST");
    assert_eq!(head.path, "/v1/x");
    assert_eq!(
        head.query,
        vec![
            ("workspace_id".to_string(), "ws".to_string()),
            ("flag".to_string(), String::new()),
            ("a".to_string(), "2".to_string()),
            ("k".to_string(), "v=w".to_string()),
        ]
    );
    assert!(head.headers.contains(&("content-type".to_string(), "application/json".to_string())));
    assert!(head.headers.contains(&("x-dup".to_string(), "2".to_string())));
    assert_eq!(head.content_length, 3);
    let req = request_from_parts(head, b"abcdef".to_vec());
    assert_eq!(req.body, b"abc".to_vec());
    assert_eq!(req.header("x-dup").map(String::as_str), Some("2"));
    assert_eq!(req.query_param("workspace_id").map(String::as_str), Some("ws"));
}

#[test]
fn request_head_refusals_name_what_is_missing() {
    assert_eq!(parse_request_head(b"").err(), Some("HTTP request missing method".to_string()));
    assert_eq!(parse_request_head(b"GET").err(), Some("HTTP request missing path".to_string()));
    let bad = parse_request_head(b"GET /\xff HTTP/1.1").err().expect("must be refused");
    assert!(bad.starts_with("HTTP request headers not valid UTF-8: "));
    let unparsable_length = parse_request_head(b"GET / HTTP/1.1\r\nContent-Length: lots").ok().expect("parses");
    assert_eq!(unparsable_length.content_length, 0);
}

#[test]
fn path_and_query_split_at_the_first_question_mark() {
    let (path, query) = parse_path_and_query("/a?b=1?c");
    assert_eq!(path, "/a");
    assert_eq!(query, vec![("b".to_string(), "1?c".to_string())]);
    let (plain, none) = parse_path_and_query("/plain");
    assert_eq!(plain, "/plain");
    assert!(none.is_empty());
}

#[test]
fn response_head_lists_headers_before_the_blank_line() {
    let extra = vec![HeaderLine { name: "Vary".to_string(), value: "Origin".to_string() }];
    assert_eq!(
        response_head(404, "Not Found", "application/json", 2, &extra),
        "HTTP/1.1 404 Not Found\r\nContent-Type: application/json\r\nContent-Length: 2\r\nConnection: close\r\nVary: Origin\r\n\r\n"
    );
    let buffered = b"HTTP/1.1 200 OK\r\nA: b\r\n\r\n{}".to_vec();
    assert_eq!(
        splice_response_headers(&buffered, &extra),
        b"HTTP/1.1 200 OK\r\nA: b\r\nVary: Origin\r\n\r\n{}".to_vec()
    );
    assert_eq!(splice_response_headers(&buffered, &Vec::new()), buffered);
    assert_eq!(splice_response_headers(b"no head", &extra), b"no head".to_vec());
}

#[test]
fn local_dev_token_names_process_and_digest() {
    assert_eq!(
        mint_local_dev_token(4242, "127.0.0.1:8080", 1700000000),
        "trv_local_4242_fnv1a64:0b42711c59c844ba"
    );
}

#[test]
fn server_discovery_strips_scheme_for_bind_address() {
    let d = server_discovery("http://127.0.0.1:8080", "dev-loopback", "traverse://connect", Some("tok"), 7, "unix:1");
    assert_eq!(d.bind_address, "127.0.0.1:8080");
    assert_eq!(d.health_url, "http://127.0.0.1:8080/healthz");
    assert_eq!(d.workspace_default, "local-default");
    assert_eq!(d.schema_version, "1.0.0");
    assert_eq!(d.local_dev_token.as_deref(), Some("tok"));
    let other = server_discovery("https://h", "bearer-required", "u", None, 7, "unix:1");
    assert_eq!(other.bind_address, "https://h");
    assert_eq!(other.local_dev_token, None);
}

#[test]
fn listener_auth_mode_follows_request_and_bind_address() {
    assert_eq!(traverse_cli::http::serve_auth_mode(Some("dev-any"), false), "dev-any");
    assert_eq!(traverse_cli::http::serve_auth_mode(Some("dev-any"), true), "dev-any");
    assert_eq!(traverse_cli::http::serve_auth_mode(None, true), "dev-loopback");
    assert_eq!(traverse_cli::http::serve_auth_mode(Some("bearer-required"), true), "dev-loopback");
    assert_eq!(traverse_cli::http::serve_auth_mode(None, false), "bearer-required");
}
