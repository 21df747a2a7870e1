use traverse_cli::reader::{AdapterRequestReader, ApiRequestReader, ReadProgress};

fn feed_api(chunks: &[&[u8]]) -> Result<traverse_cli::http::HttpRequest, String> {
    let mut reader = ApiRequestReader::new();
    for chunk in chunks {
        match reader.feed(chunk) {
            ReadProgress::More => {},
            ReadProgress::Failed(m) => return Err(m),
            ReadProgress::Done(r) => return Ok(r),
        }
    }
    Err("still reading".to_string())
}

fn feed_adapter(chunks: &[&[u8]]) -> Result<traverse_cli::reader::AdapterRequest, String> {
    let mut reader = AdapterRequestReader::new();
    for chunk in chunks {
        match reader.feed(chunk) {
            ReadProgress::More => {},
            ReadProgress::Failed(m) => return Err(m),
            ReadProgress::Done(r) => return Ok(r),
        }
    }
    Err("still reading".to_string())
}

#[test]
fn api_request_body_is_cut_to_its_declared_length() {
    let r = feed_api(&[b"POST /v1/x?a=1 HTTP/1.1\r\nContent-Length: 5\r\n", b"\r\nhello world"]).expect("complete");
    assert_eq!(r.method, "POST");
    assert_eq!(r.path, "/v1/x");
    assert_eq!(r.body, b"hello".to_vec());
    let split = feed_api(&[b"POST /v1/x HTTP/1.1\r\ncontent-length: 6\r\n\r\nab", b"cd", b"efgh"]).expect("complete");
    assert_eq!(split.body, b"abcdef".to_vec());
}

#[test]
fn api_request_ending_early_keeps_what_arrived() {
    let r = feed_api(&[b"POST /v1/x HTTP/1.1\r\ncontent-length: 10\r\n\r\nabc", b""]).expect("complete");
    assert_eq!(r.body, b"abc".to_vec());
    let no_body = feed_api(&[b"GET /healthz HTTP/1.1\r\n\r\n"]).expect("complete");
    assert!(no_body.body.is_empty());
}

#[test]
fn oversized_api_header_block_is_rejected() {
    let big = vec![b'x'; 16385];
    assert_eq!(feed_api(&[&big]).err().as_deref(), Some("HTTP request headers too large"));
    let mut with_terminator = b"GET / HTTP/1.1\r\nX: ".to_vec();
    with_terminator.extend(vec![b'y'; 16384]);
    with_terminator.extend_from_slice(b"\r\n\r\n");
    assert_eq!(feed_api(&[&with_terminator]).err().as_deref(), Some("HTTP request headers too large"));
}

#[test]
fn api_request_without_terminator_is_refused_at_end_of_stream() {
    assert_eq!(
        feed_api(&[b"GET / HTTP/1.1\r\nHost: x\r\n", b""]).err().as_deref(),
        Some("HTTP request missing \\r\\n\\r\\n header terminator")
    );
}

#[test]
fn api_request_with_oversized_body_is_refused_before_the_body() {
    let err = feed_api(&[b"POST / HTTP/1.1\r\ncontent-length: 4194305\r\n\r\n"]).err().expect("refused");
    assert_eq!(err, "HTTP request body too large (4194305 bytes, max 4194304)");
}

#[test]
fn adapter_request_reads_head_and_cut_body() {
    let r = feed_adapter(&[b"POST /local/browser-subscriptions HTTP/1.1\r\nContent-Type: application/json\r\nContent-Length: 2\r\n\r\n{}xx"])
        .expect("complete");
    assert_eq!(r.method, "POST");
    assert_eq!(r.path, "/local/browser-subscriptions");
    assert!(r.headers.contains(&("content-type".to_string(), "application/json".to_string())));
    assert_eq!(r.body, b"{}".to_vec());
    let short = feed_adapter(&[b"POST /x HTTP/1.1\r\nContent-Length: 1000\r\n\r\nshort", b""]).expect("complete");
    assert_eq!(short.body, b"short".to_vec());
}

#[test]
fn adapter_request_limits_and_terminator() {
    let big = vec![b'x'; 65537];
    assert_eq!(feed_adapter(&[&big]).err().as_deref(), Some("browser adapter request too large"));
    assert_eq!(
        feed_adapter(&[b"GET /x HTTP/1.1\r\nHost: x\r\n", b""]).err().as_deref(),
        Some("browser adapter request missing header terminator")
    );
    assert_eq!(
        feed_adapter(&[b"POST /x HTTP/1.1\r\nContent-Length: 4194305\r\n\r\n"]).err().as_deref(),
        Some("browser adapter request body too large")
    );
}
