use traverse_cli::http::HttpRequest;
use traverse_cli::grants::{parse_bundle_registration_body, parse_capability_registration_body, parse_event_registration_body, parse_workflow_registration_body, parse_bundle_registration_head, parse_capability_registration_head, parse_event_registration_head, parse_workflow_registration_head, ContractSource, registration_workspace_id, reject_internal_bundle_duplicates, require_workspace_id_query};
use traverse_cli::grants::{
    active_runtime_grants, approve_runtime_grant, consume_execution_runtime_grants,
    grant_expiration_seconds, parse_registration_scope, parse_runtime_grant_request,
    registration_scope_value, reject_duplicate_bundle_key, reject_unknown_bundle_fields,
    reject_unknown_registration_wrapper_fields, reject_unknown_runtime_grant_fields,
    MemberValue, RegistrationScope, RuntimeGrantLifetime, RuntimeGrantRecord,
};

fn grant(capability: &str, lifetime: RuntimeGrantLifetime, expires_at: &str) -> RuntimeGrantRecord {
    RuntimeGrantRecord {
        grant_id: String::new(),
        capability_id: capability.to_string(),
        grant_scope: "network".to_string(),
        resource: "api.example".to_string(),
        lifetime,
        approved_by: String::new(),
        granted_at: "unix:1".to_string(),
        expires_at: expires_at.to_string(),
    }
}

fn keys(list: &[&str]) -> Vec<String> {
    list.iter().map(|s| s.to_string()).collect()
}

#[test]
fn parse_registration_scope_parses_all_variants() {
    assert_eq!(parse_registration_scope(&MemberValue::Absent), Ok(RegistrationScope::WorkspacePersisted));
    assert_eq!(
        parse_registration_scope(&MemberValue::Text("workspace_persisted".to_string())),
        Ok(RegistrationScope::WorkspacePersisted)
    );
    assert_eq!(
        parse_registration_scope(&MemberValue::Text("session_ephemeral".to_string())),
        Ok(RegistrationScope::SessionEphemeral)
    );
    let non_string = parse_registration_scope(&MemberValue::NotText).expect_err("non-string scope must be rejected");
    assert!(non_string.contains("must be a string"));
    let unknown = parse_registration_scope(&MemberValue::Text("other".to_string())).expect_err("unknown scope must be rejected");
    assert!(unknown.contains("workspace_persisted or session_ephemeral"));
}

#[test]
fn registration_scope_names_parse_back() {
    for s in [RegistrationScope::WorkspacePersisted, RegistrationScope::SessionEphemeral] {
        assert_eq!(parse_registration_scope(&MemberValue::Text(registration_scope_value(s).to_string())), Ok(s));
    }
}

#[test]
fn unknown_wrapper_fields_are_named() {
    assert!(reject_unknown_registration_wrapper_fields(Some(&keys(&["contract", "scope"]))).is_ok());
    let err = reject_unknown_registration_wrapper_fields(Some(&keys(&["contract", "extra", "more"]))).unwrap_err();
    assert_eq!(err.code, "unknown_field");
    assert_eq!(err.message, "unknown registration field `extra`");
    let not_object = reject_unknown_registration_wrapper_fields(None).unwrap_err();
    assert_eq!(not_object.code, "invalid_request");
    assert_eq!(not_object.message, "registration body must be a JSON object");
    let bundle = reject_unknown_bundle_fields(None).unwrap_err();
    assert_eq!(bundle.code, "invalid_bundle");
    assert!(reject_unknown_runtime_grant_fields(Some(&keys(&["lifetime", "expires_in_seconds"]))).is_ok());
}

#[test]
fn duplicate_bundle_artifacts_conflict() {
    let mut seen = Vec::new();
    assert!(reject_duplicate_bundle_key(&mut seen, "capability", "a.b", "1.0.0").is_ok());
    assert!(reject_duplicate_bundle_key(&mut seen, "workflow", "a.b", "1.0.0").is_ok());
    let err = reject_duplicate_bundle_key(&mut seen, "capability", "a.b", "1.0.0").unwrap_err();
    assert_eq!(err.status, 409);
    assert_eq!(err.message, "bundle contains duplicate capability a.b@1.0.0");
    assert_eq!(seen, vec!["capability:a.b:1.0.0".to_string(), "workflow:a.b:1.0.0".to_string()]);
}

#[test]
fn runtime_grant_approval_returns_created_grant() {
    let mut grants = Vec::new();
    let first = approve_runtime_grant(&mut grants, "alice", grant("cap", RuntimeGrantLifetime::Session, "unix:100"));
    let second = approve_runtime_grant(&mut grants, "bob", grant("cap", RuntimeGrantLifetime::Execution, "unix:100"));
    assert_eq!(first.grant_id, "grant_1");
    assert_eq!(first.approved_by, "alice");
    assert_eq!(second.grant_id, "grant_2");
    assert_eq!(grants.len(), 2);
    assert_eq!(grants[1], second);
}

#[test]
fn execution_runtime_grant_is_available_once_then_consumed() {
    let mut grants = Vec::new();
    approve_runtime_grant(&mut grants, "alice", grant("cap", RuntimeGrantLifetime::Execution, "unix:1000"));
    approve_runtime_grant(&mut grants, "alice", grant("cap", RuntimeGrantLifetime::Session, "unix:1000"));
    let (active, expired) = active_runtime_grants(&mut grants, 10, Some("cap"));
    assert_eq!(active.len(), 2);
    assert!(expired.is_empty());
    consume_execution_runtime_grants(&mut grants, &active);
    let (again, _) = active_runtime_grants(&mut grants, 11, Some("cap"));
    assert_eq!(again.len(), 1);
    assert_eq!(again[0].lifetime, RuntimeGrantLifetime::Session);
}

#[test]
fn expired_session_grant_is_pruned_and_static_permissions_remain() {
    let mut grants = Vec::new();
    approve_runtime_grant(&mut grants, "alice", grant("cap", RuntimeGrantLifetime::Session, "unix:50"));
    approve_runtime_grant(&mut grants, "alice", grant("other", RuntimeGrantLifetime::Session, "never"));
    let (active, expired) = active_runtime_grants(&mut grants, 50, Some("cap"));
    assert!(active.is_empty());
    assert_eq!(expired.len(), 1);
    assert_eq!(expired[0].grant_id, "grant_1");
    assert_eq!(grants.len(), 1);
    let (none, _) = active_runtime_grants(&mut grants, 60, None);
    assert!(none.is_empty());
}

#[test]
fn grant_expiration_reads_unix_stamps() {
    assert_eq!(grant_expiration_seconds(&grant("c", RuntimeGrantLifetime::Session, "unix:42")), Some(42));
    assert_eq!(grant_expiration_seconds(&grant("c", RuntimeGrantLifetime::Session, "42")), None);
    assert_eq!(grant_expiration_seconds(&grant("c", RuntimeGrantLifetime::Session, "unix:x")), None);
}

#[test]
fn runtime_grant_request_is_read_and_stamped() {
    let g = parse_runtime_grant_request(
        br#"{"capability_id":"cap","grant_scope":"network","resource":"api","lifetime":"execution","expires_in_seconds":60}"#,
    )
    .expect("valid request");
    assert_eq!(g.capability_id, "cap");
    assert_eq!(g.lifetime, RuntimeGrantLifetime::Execution);
    assert!(g.granted_at.starts_with("unix:"));
    let granted: u64 = g.granted_at["unix:".len()..].parse().expect("number");
    let expires: u64 = g.expires_at["unix:".len()..].parse().expect("number");
    assert_eq!(expires, granted + 60);
    assert!(g.grant_id.is_empty() && g.approved_by.is_empty());
}

#[test]
fn runtime_grant_request_refusals() {
    let missing = parse_runtime_grant_request(br#"{"capability_id":"cap","grant_scope":" ","resource":"r","lifetime":"session"}"#).unwrap_err();
    assert_eq!(missing.status, 422);
    assert_eq!(missing.message, "grant_scope is required");
    let lifetime = parse_runtime_grant_request(br#"{"capability_id":"c","grant_scope":"s","resource":"r","lifetime":"forever"}"#).unwrap_err();
    assert_eq!(lifetime.code, "invalid_grant_lifetime");
    assert_eq!(lifetime.message, "lifetime must be execution or session (got forever)");
    let unknown = parse_runtime_grant_request(br#"{"capability_id":"c","extra":1}"#).unwrap_err();
    assert_eq!(unknown.message, "unknown runtime grant field `extra`");
    let not_object = parse_runtime_grant_request(b"[1]").unwrap_err();
    assert_eq!(not_object.message, "runtime grant body must be a JSON object");
    let bad_json = parse_runtime_grant_request(b"{").unwrap_err();
    assert!(bad_json.message.starts_with("invalid JSON body: "));
    let bad_utf8 = parse_runtime_grant_request(b"\xff").unwrap_err();
    assert!(bad_utf8.message.starts_with("request body is not valid UTF-8: "));
    let default_ttl = parse_runtime_grant_request(br#"{"capability_id":"c","grant_scope":"s","resource":"r","lifetime":"session"}"#).expect("ok");
    let granted: u64 = default_ttl.granted_at[5..].parse().expect("number");
    let expires: u64 = default_ttl.expires_at[5..].parse().expect("number");
    assert_eq!(expires, granted + 3600);
}

#[test]
fn registration_workspace_comes_from_path_or_body() {
    assert_eq!(registration_workspace_id(Some("ws-a"), Some("ws-a")), Ok("ws-a".to_string()));
    assert_eq!(registration_workspace_id(None, Some("ws-a")), Ok("ws-a".to_string()));
    assert_eq!(registration_workspace_id(Some("ws-b"), None), Ok("ws-b".to_string()));
    let mismatch = registration_workspace_id(Some("ws-b"), Some("ws-a")).err().expect("mismatch");
    assert_eq!(mismatch.code, "invalid_workspace_id");
    assert_eq!(mismatch.message, "body workspace_id must match URL workspace_id");
    let missing = registration_workspace_id(Some("  "), None).err().expect("blank");
    assert_eq!(missing.code, "workspace_id_required");
    assert_eq!(missing.status, 400);
    let invalid = registration_workspace_id(Some("bad/id"), None).err().expect("invalid");
    assert_eq!(invalid.code, "invalid_workspace_id");
}

#[test]
fn workspace_id_query_is_required() {
    let mut request = HttpRequest {
        method: "GET".to_string(),
        path: "/v1/capabilities".to_string(),
        query: Vec::new(),
        headers: Vec::new(),
        body: Vec::new(),
    };
    let err = require_workspace_id_query(&request).err().expect("missing");
    assert_eq!(err.message, "workspace_id is required (add ?workspace_id=<id>)");
    request.query.push(("workspace_id".to_string(), "ws-1".to_string()));
    assert_eq!(require_workspace_id_query(&request), Ok("ws-1".to_string()));
}

#[test]
fn bundle_duplicates_are_refused_in_checking_order() {
    let p = |id: &str, v: &str| (id.to_string(), v.to_string());
    assert!(reject_internal_bundle_duplicates(&vec![p("a", "1"), p("b", "1")], &vec![p("a", "1")], &vec![p("w", "1")]).is_ok());
    let err = reject_internal_bundle_duplicates(&vec![p("a", "1")], &vec![p("e", "1"), p("e", "1")], &vec![p("w", "1"), p("w", "1")])
        .err()
        .expect("duplicate event");
    assert_eq!(err.status, 409);
    assert_eq!(err.code, "duplicate_bundle_artifact");
    assert_eq!(err.message, "bundle contains duplicate event_contract e@1");
    let err = reject_internal_bundle_duplicates(&vec![], &vec![], &vec![p("w", "2"), p("w", "2")]).err().expect("duplicate workflow");
    assert_eq!(err.message, "bundle contains duplicate workflow w@2");
}

#[test]
fn bundle_registration_head_checks_in_order() {
    let keys = |k: &[&str]| k.iter().map(|s| s.to_string()).collect::<Vec<String>>();
    let body = keys(&["workspace_id", "scope", "bundle"]);
    let bundle = keys(&["capabilities", "workflows"]);
    let ok = parse_bundle_registration_head(Some(&body), Some("ws-a"), "ws-a", &MemberValue::Absent, Some(Some(&bundle)));
    assert_eq!(ok.ok(), Some(RegistrationScope::WorkspacePersisted));
    let ephemeral = MemberValue::Text("session_ephemeral".to_string());
    let ok = parse_bundle_registration_head(Some(&body), None, "ws-a", &ephemeral, Some(Some(&bundle)));
    assert_eq!(ok.ok(), Some(RegistrationScope::SessionEphemeral));

    let err = |r: Result<RegistrationScope, traverse_cli::http::ApiError>| {
        let e = r.err().expect("refused");
        (e.status, e.code, e.message)
    };
    let extra = keys(&["workspace_id", "bundles"]);
    assert_eq!(
        err(parse_bundle_registration_head(Some(&extra), Some("ws-a"), "ws-a", &MemberValue::Absent, None)),
        (400, "unknown_field".to_string(), "unknown bundle registration field `bundles`".to_string())
    );
    assert_eq!(
        err(parse_bundle_registration_head(None, None, "ws-a", &MemberValue::Absent, None)),
        (400, "invalid_request".to_string(), "bundle registration body must be a JSON object".to_string())
    );
    assert_eq!(
        err(parse_bundle_registration_head(Some(&body), Some("ws-b"), "ws-a", &MemberValue::NotText, None)),
        (400, "invalid_workspace_id".to_string(), "body workspace_id must match URL workspace_id".to_string())
    );
    assert_eq!(
        err(parse_bundle_registration_head(Some(&body), Some("ws-a"), "ws-a", &MemberValue::NotText, None)),
        (422, "invalid_scope".to_string(), "scope must be a string".to_string())
    );
    assert_eq!(
        err(parse_bundle_registration_head(Some(&body), Some("ws-a"), "ws-a", &MemberValue::Absent, None)),
        (400, "missing_bundle".to_string(), "bundle is required".to_string())
    );
    assert_eq!(
        err(parse_bundle_registration_head(Some(&body), Some("ws-a"), "ws-a", &MemberValue::Absent, Some(None))),
        (400, "invalid_bundle".to_string(), "bundle must be a JSON object".to_string())
    );
    let odd = keys(&["capabilities", "extras"]);
    assert_eq!(
        err(parse_bundle_registration_head(Some(&body), Some("ws-a"), "ws-a", &MemberValue::Absent, Some(Some(&odd)))),
        (400, "unknown_field".to_string(), "unknown bundle field `extras`".to_string())
    );
}

fn refused<T>(r: Result<T, traverse_cli::http::ApiError>) -> (u16, String, String) {
    match r {
        Ok(_) => panic!("expected a refusal"),
        Err(e) => (e.status, e.code, e.message),
    }
}

#[test]
fn capability_registration_head_finds_the_contract() {
    let keys: Vec<String> = ["workspace_id", "contract", "tags"].iter().map(|s| s.to_string()).collect();
    let (ws, scope, source) = parse_capability_registration_head(Some(&keys), true, Some("ws-a"), Some("ws-a"), &MemberValue::Absent, None, true)
        .ok()
        .expect("wrapped contract");
    assert_eq!((ws.as_str(), scope, source), ("ws-a", RegistrationScope::WorkspacePersisted, ContractSource::ContractMember));
    let bare: Vec<String> = ["kind", "id", "version"].iter().map(|s| s.to_string()).collect();
    let (ws, _, source) = parse_capability_registration_head(Some(&bare), true, None, Some("ws-a"), &MemberValue::Absent, Some("capability_contract"), false)
        .ok()
        .expect("bare contract");
    assert_eq!((ws.as_str(), source), ("ws-a", ContractSource::WholeBody));
    let odd: Vec<String> = ["contract", "labels"].iter().map(|s| s.to_string()).collect();
    assert_eq!(
        refused(parse_capability_registration_head(Some(&odd), true, None, Some("ws-a"), &MemberValue::Absent, None, true)),
        (400, "unknown_field".to_string(), "unknown registration field `labels`".to_string())
    );
    assert_eq!(
        refused(parse_capability_registration_head(Some(&bare), true, None, Some("ws-a"), &MemberValue::Absent, Some("other"), false)),
        (422, "invalid_contract".to_string(), "expected body to be a capability contract or to contain a `contract` field".to_string())
    );
    assert_eq!(
        refused(parse_capability_registration_head(Some(&keys), false, None, None, &MemberValue::Absent, None, true)),
        (400, "workspace_id_required".to_string(), "workspace_id is required".to_string())
    );
}

#[test]
fn event_registration_head_requires_an_event_contract() {
    let keys: Vec<String> = ["workspace_id", "event_contract"].iter().map(|s| s.to_string()).collect();
    assert_eq!(
        parse_event_registration_head(Some(&keys), Some("ws-a"), "ws-a", &MemberValue::Text("session_ephemeral".to_string()), true).ok(),
        Some(RegistrationScope::SessionEphemeral)
    );
    assert_eq!(
        refused(parse_event_registration_head(Some(&keys), Some("ws-a"), "ws-a", &MemberValue::Absent, false)),
        (422, "invalid_event_contract".to_string(), "event_contract is required".to_string())
    );
    assert_eq!(
        refused(parse_event_registration_head(Some(&keys), Some("ws-a"), "ws-a", &MemberValue::Text("forever".to_string()), true)),
        (422, "invalid_scope".to_string(), "scope must be workspace_persisted or session_ephemeral".to_string())
    );
}

#[test]
fn workflow_registration_head_files_system_workflows_publicly() {
    let keys: Vec<String> = ["workflow"].iter().map(|s| s.to_string()).collect();
    let (ws, scope, filed) = parse_workflow_registration_head(Some(&keys), true, None, Some("system"), None, None, true)
        .ok()
        .expect("valid");
    assert_eq!((ws.as_str(), scope, filed.as_str()), ("system", RegistrationScope::WorkspacePersisted, "public"));
    let (_, _, filed) = parse_workflow_registration_head(Some(&keys), true, None, Some("ws-a"), Some("session_ephemeral"), None, true)
        .ok()
        .expect("valid");
    assert_eq!(filed, "private");
    let (_, _, filed) = parse_workflow_registration_head(Some(&keys), true, None, Some("ws-a"), None, Some("public"), true)
        .ok()
        .expect("valid");
    assert_eq!(filed, "public");
    assert_eq!(
        refused(parse_workflow_registration_head(Some(&keys), true, None, Some("ws-a"), Some("forever"), None, true)),
        (422, "invalid_scope".to_string(), "scope must be workspace_persisted or session_ephemeral (got forever)".to_string())
    );
    assert_eq!(
        refused(parse_workflow_registration_head(Some(&keys), true, None, Some("ws-a"), None, None, false)),
        (400, "missing_workflow".to_string(), "workflow is required".to_string())
    );
}

#[test]
fn registration_bodies_are_read_from_bytes() {
    let (ws, scope, source) = parse_capability_registration_body(
        br#"{"workspace_id":"ws-a","scope":"session_ephemeral","contract":{"id":"x"},"tags":["a"]}"#,
        Some("ws-a"),
        true,
    )
    .ok()
    .expect("capability body");
    assert_eq!((ws.as_str(), scope, source), ("ws-a", RegistrationScope::SessionEphemeral, ContractSource::ContractMember));
    let (_, _, source) = parse_capability_registration_body(br#"{"kind":"capability_contract","id":"x"}"#, Some("ws-a"), true)
        .ok()
        .expect("bare contract");
    assert_eq!(source, ContractSource::WholeBody);
    assert_eq!(
        refused(parse_capability_registration_body(br#"{"contract":{},"extra":1}"#, Some("ws-a"), true)),
        (400, "unknown_field".to_string(), "unknown registration field `extra`".to_string())
    );
    assert_eq!(
        refused(parse_capability_registration_body(br#"{"scope":7,"contract":{}}"#, Some("ws-a"), true)),
        (422, "invalid_scope".to_string(), "scope must be a string".to_string())
    );
    let not_utf8 = refused(parse_capability_registration_body(&[0xff, 0xfe], Some("ws-a"), true));
    assert_eq!((not_utf8.0, not_utf8.1.as_str()), (400, "invalid_request"));
    assert!(not_utf8.2.starts_with("request body is not valid UTF-8: "));
    let not_json = refused(parse_capability_registration_body(b"{not json", Some("ws-a"), true));
    assert!(not_json.2.starts_with("invalid JSON body: "));
}

#[test]
fn event_workflow_and_bundle_bodies_are_read_from_bytes() {
    assert_eq!(
        parse_event_registration_body(br#"{"event_contract":{"id":"e"}}"#, "ws-a").ok(),
        Some(RegistrationScope::WorkspacePersisted)
    );
    assert_eq!(
        refused(parse_event_registration_body(br#"{"workspace_id":"ws-b","event_contract":{}}"#, "ws-a")),
        (400, "invalid_workspace_id".to_string(), "body workspace_id must match URL workspace_id".to_string())
    );
    let (ws, scope, filed) = parse_workflow_registration_body(br#"{"workflow":{},"scope":5}"#, Some("system"), true)
        .ok()
        .expect("workflow body");
    assert_eq!((ws.as_str(), scope, filed.as_str()), ("system", RegistrationScope::WorkspacePersisted, "public"));
    assert_eq!(
        parse_bundle_registration_body(br#"{"bundle":{"capabilities":[]}}"#, "ws-a").ok(),
        Some(RegistrationScope::WorkspacePersisted)
    );
    assert_eq!(
        refused(parse_bundle_registration_body(br#"{"bundle":[]}"#, "ws-a")),
        (400, "invalid_bundle".to_string(), "bundle must be a JSON object".to_string())
    );
    assert_eq!(
        refused(parse_bundle_registration_body(br#"[1,2]"#, "ws-a")),
        (400, "invalid_request".to_string(), "bundle registration body must be a JSON object".to_string())
    );
}
