use traverse_cli::http::HttpRequest;
use traverse_cli::idempotency::{
    idempotency_body_digest, idempotency_cache_key, idempotency_key, idempotency_replay_or_conflict,
    idempotency_subject, record_idempotent_success, IdempotencyDecision, IdempotencyRecord,
    IdempotencyStore,
};

fn request(path: &str, body: &str, key: Option<&str>, auth: Option<&str>) -> HttpRequest {
    let mut headers = Vec::new();
    if let Some(k) = key {
        headers.push(("idempotency-key".to_string(), k.to_string()));
    }
    if let Some(a) = auth {
        headers.push(("authorization".to_string(), a.to_string()));
    }
    HttpRequest {
        method: "POST".to_string(),
        path: path.to_string(),
        query: Vec::new(),
        headers,
        body: body.as_bytes().to_vec(),
    }
}

#[test]
fn idempotency_key_same_body_replays_original_result() {
    let mut store = IdempotencyStore::new();
    let req = request("/v1/workspaces/ws-test/execute", "{\"a\":1}", Some("retry-001"), None);
    assert!(matches!(
        idempotency_replay_or_conflict(&mut store, &req, "ws-test", "execute", 100, 86400),
        IdempotencyDecision::Proceed
    ));
    record_idempotent_success(&mut store, &req, "ws-test", "execute", 200, "OK", b"{\"ok\":true}".to_vec(), 100, 86400);
    match idempotency_replay_or_conflict(&mut store, &req, "ws-test", "execute", 160, 86400) {
        IdempotencyDecision::Replay(record) => {
            assert_eq!(record.status, 200);
            assert_eq!(record.reason, "OK");
            assert_eq!(record.content_type, "application/json");
            assert_eq!(record.body, b"{\"ok\":true}".to_vec());
            assert_eq!(record.stored_at, 100);
        },
        _ => panic!("a retry with the same body replays"),
    }
}

#[test]
fn idempotency_key_different_body_returns_conflict_problem_details() {
    let mut store = IdempotencyStore::new();
    let first = request("/v1/workspaces/ws-test/execute", "{\"a\":1}", Some("retry-002"), None);
    let second = request("/v1/workspaces/ws-test/execute", "{\"a\":2}", Some("retry-002"), None);
    record_idempotent_success(&mut store, &first, "ws-test", "execute", 200, "OK", b"{}".to_vec(), 100, 86400);
    match idempotency_replay_or_conflict(&mut store, &second, "ws-test", "execute", 100, 86400) {
        IdempotencyDecision::Conflict { body_digest } => {
            assert_eq!(body_digest, idempotency_body_digest(&second));
        },
        _ => panic!("another body under the same key conflicts"),
    }
}

#[test]
fn expired_records_are_forgotten() {
    let mut store = IdempotencyStore::new();
    let req = request("/p", "x", Some("k"), None);
    record_idempotent_success(&mut store, &req, "ws", "op", 200, "OK", Vec::new(), 100, 60);
    assert!(matches!(
        idempotency_replay_or_conflict(&mut store, &req, "ws", "op", 160, 60),
        IdempotencyDecision::Replay(_)
    ));
    assert!(matches!(
        idempotency_replay_or_conflict(&mut store, &req, "ws", "op", 161, 60),
        IdempotencyDecision::Proceed
    ));
    assert!(store.get("op|ws|local|/p|k").is_none());
}

#[test]
fn requests_without_key_are_not_recorded() {
    let mut store = IdempotencyStore::new();
    let req = request("/p", "x", Some("   "), None);
    assert_eq!(idempotency_key(&req), None);
    record_idempotent_success(&mut store, &req, "ws", "op", 200, "OK", Vec::new(), 1, 60);
    assert!(store.get("op|ws|local|/p|").is_none());
    assert!(matches!(
        idempotency_replay_or_conflict(&mut store, &req, "ws", "op", 1, 60),
        IdempotencyDecision::Proceed
    ));
}

#[test]
fn cache_key_names_operation_workspace_caller_path_and_key() {
    let req = request("/v1/x", "", Some("  k1 "), Some("Bearer t"));
    assert_eq!(idempotency_key(&req).as_deref(), Some("k1"));
    assert_eq!(idempotency_subject(&req), "Bearer t");
    assert_eq!(idempotency_cache_key(&req, "ws", "execute", "k1"), "execute|ws|Bearer t|/v1/x|k1");
    let local = request("/v1/x", "", None, None);
    assert_eq!(idempotency_subject(&local), "local");
    assert_eq!(idempotency_body_digest(&local), "fnv1a64:cbf29ce484222325");
}

#[test]
fn store_insert_replaces_and_keeps_others() {
    let mut store = IdempotencyStore::new();
    let rec = |status: u16| IdempotencyRecord {
        body_digest: "d".to_string(),
        status,
        reason: "R".to_string(),
        content_type: "application/json".to_string(),
        body: Vec::new(),
        stored_at: 5,
    };
    store.insert("a".to_string(), rec(200));
    store.insert("b".to_string(), rec(201));
    store.insert("a".to_string(), rec(202));
    assert_eq!(store.get("a").map(|r| r.status), Some(202));
    assert_eq!(store.get("b").map(|r| r.status), Some(201));
    store.prune(1000, 60);
    assert!(store.get("a").is_none());
}
