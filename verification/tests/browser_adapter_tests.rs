use traverse_cli::browser_adapter::{
    browser_route, browser_stream_body, handle_create_subscription, handle_stream_request, header_contains,
    parse_adapter_head, stream_subscription_id, stream_url, subscription_error_status, AdapterReply, BrowserRoute,
    BrowserSubscriptions, SubscriptionErrorCode, SubscriptionSetup,
};

/// Reads a create-subscription body as the adapter's host does; these tests
/// run without a runtime, so a well-formed request is refused as unknown.
fn setup_from_body(body: &[u8]) -> SubscriptionSetup {
    match serde_json::from_slice::<serde_json::Value>(body) {
        Err(error) => SubscriptionSetup::Unparsed(error.to_string()),
        Ok(value) => match value.get("subscription_request") {
            None => SubscriptionSetup::Unparsed("missing field `subscription_request`".to_string()),
            Some(_) => SubscriptionSetup::Refused(SubscriptionErrorCode::NotFound, "no runtime outcome".to_string()),
        },
    }
}

fn failure_fields(reply: &AdapterReply) -> (u16, String, String, String) {
    match reply {
        AdapterReply::Failure { status, kind, code, message, .. } => (*status, kind.clone(), code.clone(), message.clone()),
        _ => panic!("expected a failure reply"),
    }
}

fn header(name: &str, value: &str) -> Vec<(String, String)> {
    vec![(name.to_string(), value.to_string())]
}

#[test]
fn routes_create_and_stream_requests() {
    assert_eq!(browser_route("POST", "/local/browser-subscriptions"), BrowserRoute::CreateSubscription);
    assert_eq!(browser_route("GET", "/local/browser-subscriptions/lbs_0001/stream"), BrowserRoute::StreamSubscription);
    assert_eq!(browser_route("GET", "/local/browser-subscriptions"), BrowserRoute::NotFound);
    assert_eq!(browser_route("DELETE", "/local/browser-subscriptions/x"), BrowserRoute::NotFound);
}

#[test]
fn subscription_ids_count_up_and_stream_once() {
    let mut subs = BrowserSubscriptions::new();
    let first = subs.create(vec!["{\"kind\":\"a\"}".to_string(), "{\"kind\":\"b\"}".to_string()]);
    let second = subs.create(Vec::new());
    assert_eq!(first, "lbs_0001");
    assert_eq!(second, "lbs_0002");
    assert_eq!(stream_url(&first), "/local/browser-subscriptions/lbs_0001/stream");
    let messages = subs.take(&first).expect("created subscription streams");
    assert_eq!(messages.len(), 2);
    assert!(subs.take(&first).is_none());
    assert_eq!(subs.take(&second), Some(Vec::new()));
    assert_eq!(
        browser_stream_body(&messages),
        "event: traverse_message\ndata: {\"kind\":\"a\"}\n\nevent: traverse_message\ndata: {\"kind\":\"b\"}\n\n"
    );
}

#[test]
fn stream_path_names_subscription() {
    assert_eq!(stream_subscription_id("/local/browser-subscriptions/lbs_0003/stream").as_deref(), Some("lbs_0003"));
    assert_eq!(stream_subscription_id("/local/browser-subscriptions/lbs_0003"), None);
}

#[test]
fn header_checks_look_for_substrings() {
    assert!(header_contains(Some("application/json; charset=utf-8"), "application/json"));
    assert!(!header_contains(Some("text/plain"), "application/json"));
    assert!(!header_contains(None, "text/event-stream"));
}

#[test]
fn subscription_errors_map_to_statuses() {
    assert_eq!(subscription_error_status(SubscriptionErrorCode::InvalidRequest), (400, "invalid_request"));
    assert_eq!(subscription_error_status(SubscriptionErrorCode::NotFound), (404, "not_found"));
    assert_eq!(subscription_error_status(SubscriptionErrorCode::UnsupportedOperation), (400, "unsupported_operation"));
}

#[test]
fn adapter_head_parses_request_line_and_headers() {
    let head = parse_adapter_head(b"POST /local/browser-subscriptions HTTP/1.1\r\nContent-Type: application/json\r\nContent-Length: 12\r\nnoise").expect("valid head");
    assert_eq!(head.method, "POST");
    assert_eq!(head.path, "/local/browser-subscriptions");
    assert_eq!(head.content_length, 12);
    assert!(head.headers.contains(&("content-type".to_string(), "application/json".to_string())));
    assert_eq!(
        parse_adapter_head(b"GET /x\r\ncontent-length: 5000000").err().as_deref(),
        Some("browser adapter request body too large")
    );
    assert_eq!(parse_adapter_head(b"GET").err().as_deref(), Some("browser adapter request missing path"));
    assert_eq!(parse_adapter_head(b"").err().as_deref(), Some("browser adapter request missing method"));
    assert!(parse_adapter_head(&[0xff, 0xfe]).err().expect("not UTF-8").starts_with("browser adapter request headers were not valid UTF-8: "));
}

#[test]
fn mobile_connect_qr_renders_a_square_with_quiet_zone() {
    let rendered = traverse_cli::qr::render_mobile_connect_qr("traverse://connect?base_url=x").expect("QR renders");
    let lines: Vec<&str> = rendered.lines().collect();
    let width = lines.len();
    assert!(width >= 21 + 4);
    assert!(lines.iter().all(|l| l.chars().count() == 2 * width));
    assert!(lines[0].chars().all(|c| c == ' '));
    assert!(lines[2].contains('\u{2588}'));
    assert!(rendered.ends_with('\n'));
}

#[test]
fn mobile_connect_qr_renders_ascii_blocks() {
    let rendered = traverse_cli::qr::render_mobile_connect_qr(
        "traverse://connect?base_url=http%3A%2F%2F127.0.0.1%3A8787&workspace_default=local-default&auth_mode=dev-loopback",
    )
    .expect("QR code must render");

    assert!(rendered.contains("██"));
    assert!(rendered.lines().count() > 10);
}

#[test]
fn create_subscription_rejects_invalid_request_shape() {
    let mut subs = BrowserSubscriptions::new();
    let body = br#"{"wrong":"shape"}"#;
    let reply = handle_create_subscription(&mut subs, &header("content-type", "application/json"), setup_from_body(body));
    let (status, kind, code, message) = failure_fields(&reply);
    assert_eq!(status, 400);
    assert_eq!(kind, "local_browser_subscription_setup_error");
    assert_eq!(code, "invalid_request");
    assert!(message.starts_with("failed to parse create-subscription request: "));
    assert_eq!(subs.created_count(), 0);
}

#[test]
fn create_subscription_requires_json_content_type() {
    let mut subs = BrowserSubscriptions::new();
    let reply = handle_create_subscription(&mut subs, &Vec::new(), setup_from_body(b""));
    let (status, _, code, message) = failure_fields(&reply);
    assert_eq!(status, 400);
    assert_eq!(code, "invalid_request");
    assert!(message.contains("content-type"));
}

#[test]
fn create_subscription_reports_runtime_refusal_with_its_status() {
    let mut subs = BrowserSubscriptions::new();
    let refused = SubscriptionSetup::Refused(SubscriptionErrorCode::NotFound, "request_id does-not-exist was not found".to_string());
    let reply = handle_create_subscription(&mut subs, &header("content-type", "application/json"), refused);
    assert_eq!(
        failure_fields(&reply),
        (404, "local_browser_subscription_setup_error".to_string(), "not_found".to_string(), "request_id does-not-exist was not found".to_string())
    );
    assert_eq!(subs.created_count(), 0);
}

#[test]
fn stream_request_rejects_missing_subscription() {
    let mut subs = BrowserSubscriptions::new();
    let reply = handle_stream_request(&mut subs, "/local/browser-subscriptions/lbs_0001/stream", &header("accept", "text/event-stream"));
    let (status, kind, code, message) = failure_fields(&reply);
    assert_eq!(status, 404);
    assert_eq!(kind, "local_browser_subscription_stream_error");
    assert_eq!(code, "not_found");
    assert_eq!(message, "subscription_id lbs_0001 was not found");
}

#[test]
fn stream_request_requires_event_stream_accept_header() {
    let mut subs = BrowserSubscriptions::new();
    let reply = handle_stream_request(&mut subs, "/local/browser-subscriptions/lbs_0001/stream", &Vec::new());
    let (status, _, code, _) = failure_fields(&reply);
    assert_eq!(status, 400);
    assert_eq!(code, "invalid_request");
}

#[test]
fn stream_request_rejects_path_without_stream_suffix() {
    let mut subs = BrowserSubscriptions::new();
    let reply = handle_stream_request(&mut subs, "/local/browser-subscriptions/lbs_0001", &header("accept", "text/event-stream"));
    let (status, _, code, message) = failure_fields(&reply);
    assert_eq!(status, 404);
    assert_eq!(code, "not_found");
    assert_eq!(message, "requested browser adapter stream was not found");
}

#[test]
fn created_subscription_streams_its_messages_once() {
    let mut subs = BrowserSubscriptions::new();
    let messages = vec!["{\"kind\":\"browser_runtime_subscription_lifecycle\"}".to_string()];
    let created = handle_create_subscription(
        &mut subs,
        &header("content-type", "application/json; charset=utf-8"),
        SubscriptionSetup::Messages(messages),
    );
    match created {
        AdapterReply::Created { subscription_id, stream_url } => {
            assert_eq!(subscription_id, "lbs_0001");
            assert_eq!(stream_url, "/local/browser-subscriptions/lbs_0001/stream");
        },
        _ => panic!("expected a created reply"),
    }
    let accept = header("accept", "text/event-stream");
    match handle_stream_request(&mut subs, "/local/browser-subscriptions/lbs_0001/stream", &accept) {
        AdapterReply::EventStream { body } => assert_eq!(
            body,
            "event: traverse_message\ndata: {\"kind\":\"browser_runtime_subscription_lifecycle\"}\n\n"
        ),
        _ => panic!("expected an event stream"),
    }
    let again = handle_stream_request(&mut subs, "/local/browser-subscriptions/lbs_0001/stream", &accept);
    assert_eq!(failure_fields(&again).0, 404);
}
