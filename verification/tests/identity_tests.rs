use ed25519_dalek::Signer;
use traverse_cli::identity::{
    admit_to_workspace, authorize_workspace_member, check_jwt_time_claims, check_workspace_request,
    derive_identity_from_jwt, identity_has_scope, jwt_claims_admin, new_workspace_metadata,
    parse_ed25519_verifying_key, parse_jwt_scopes, require_scope, resolve_jwt_verification_key,
    scopes_optional_for_request, subject_from_request, validate_jwt_time_claims,
    warns_missing_verification_key, DerivedIdentity, JwtJson, WorkspaceMetadata,
    WORKSPACE_METADATA_SCHEMA_VERSION,
};
use traverse_cli::http::ServeError;

fn base64url_encode(input: &[u8]) -> String {
    const ALPHABET: &[u8; 64] = b"ABCDEFGHIJKLMNOPQRSTUVWXYZabcdefghijklmnopqrstuvwxyz0123456789-_";
    let mut out = String::new();
    let mut i = 0;
    while i + 3 <= input.len() {
        let n = (u32::from(input[i]) << 16) | (u32::from(input[i + 1]) << 8) | u32::from(input[i + 2]);
        for shift in [18, 12, 6, 0] {
            out.push(ALPHABET[((n >> shift) & 63) as usize] as char);
        }
        i += 3;
    }
    let rem = input.len() - i;
    if rem == 1 {
        let n = u32::from(input[i]) << 16;
        out.push(ALPHABET[((n >> 18) & 63) as usize] as char);
        out.push(ALPHABET[((n >> 12) & 63) as usize] as char);
    } else if rem == 2 {
        let n = (u32::from(input[i]) << 16) | (u32::from(input[i + 1]) << 8);
        out.push(ALPHABET[((n >> 18) & 63) as usize] as char);
        out.push(ALPHABET[((n >> 12) & 63) as usize] as char);
        out.push(ALPHABET[((n >> 6) & 63) as usize] as char);
    }
    out
}

fn signing_key() -> ed25519_dalek::SigningKey {
    ed25519_dalek::SigningKey::from_bytes(&[7_u8; 32])
}

fn verifying_key_hex() -> String {
    signing_key().verifying_key().to_bytes().iter().map(|b| format!("{b:02x}")).collect()
}

fn sign_jwt(payload: &str) -> String {
    let header = base64url_encode(br#"{"alg":"EdDSA","typ":"JWT"}"#);
    let payload_b64 = base64url_encode(payload.as_bytes());
    let input = format!("{header}.{payload_b64}");
    let signature = signing_key().sign(input.as_bytes());
    format!("{input}.{}", base64url_encode(&signature.to_bytes()))
}

fn future_exp() -> i64 {
    let now = std::time::SystemTime::now()
        .duration_since(std::time::UNIX_EPOCH)
        .expect("time must be valid")
        .as_secs();
    i64::try_from(now).expect("time must fit i64") + 3600
}

fn make_jwt(sub: &str, exp: i64, admin: bool) -> String {
    if admin {
        sign_jwt(&format!(r#"{{"sub":"{sub}","exp":{exp},"traverse_admin":true}}"#))
    } else {
        sign_jwt(&format!(r#"{{"sub":"{sub}","exp":{exp}}}"#))
    }
}

fn bearer(token: &str) -> Vec<(String, String)> {
    vec![("authorization".to_string(), format!("Bearer {token}"))]
}

fn identity(subject: &str, admin: bool, scopes: &[&str]) -> DerivedIdentity {
    DerivedIdentity {
        subject_id: subject.to_string(),
        is_admin: admin,
        scopes: scopes.iter().map(|s| s.to_string()).collect(),
    }
}

fn claims() -> JwtJson {
    JwtJson {
        alg: None,
        sub: None,
        exp: None,
        nbf: None,
        traverse_admin: None,
        roles: None,
        role: None,
        scope: None,
        scp: None,
        scopes: None,
    }
}

#[test]
fn parse_ed25519_verifying_key_rejects_wrong_length() {
    assert!(parse_ed25519_verifying_key("00ff").is_err());
    assert!(parse_ed25519_verifying_key("zz").is_err());
    assert!(parse_ed25519_verifying_key(&verifying_key_hex()).is_ok());
}

#[test]
fn resolve_jwt_verification_key_covers_all_modes() {
    let configured = resolve_jwt_verification_key(Some(&verifying_key_hex()), "bearer-required", false)
        .expect("valid key hex must resolve");
    assert!(configured.is_some());
    let invalid = resolve_jwt_verification_key(Some("zz"), "bearer-required", false);
    assert!(matches!(invalid, Err(ServeError::BindFailed(_))));
    let fail_closed = resolve_jwt_verification_key(None, "bearer-required", false)
        .expect("missing key must resolve to None (fail closed at request time)");
    assert!(fail_closed.is_none());
    let dev = resolve_jwt_verification_key(None, "dev-loopback", true)
        .expect("dev mode without key must resolve to None");
    assert!(dev.is_none());
    assert!(warns_missing_verification_key("bearer-required", false, false));
    assert!(!warns_missing_verification_key("bearer-required", true, false));
    assert!(!warns_missing_verification_key("dev-loopback", false, false));
}

#[test]
fn subject_from_request_rejects_oversized_opaque_subject() {
    let headers = bearer(&"s".repeat(300));
    let err = subject_from_request(&headers, "dev-loopback", false, true, None)
        .expect_err("oversized opaque subject must be rejected");
    assert_eq!(err.status, 401);
    assert!(err.message.contains("256"));
}

#[test]
fn derive_identity_from_jwt_rejects_malformed_tokens() {
    let malformed = derive_identity_from_jwt("a.b", "dev-loopback", None).expect_err("two-part token must be rejected");
    assert!(malformed.message.contains("malformed"));

    let header = base64url_encode(br#"{"alg":"EdDSA","typ":"JWT"}"#);

    let bad_b64 = derive_identity_from_jwt(&format!("{header}.!!!.sig"), "dev-loopback", None)
        .expect_err("non-base64url payload must be rejected");
    assert!(bad_b64.message.contains("invalid characters"));

    let not_json = base64url_encode(b"not-json");
    let bad_json = derive_identity_from_jwt(&format!("{header}.{not_json}.sig"), "dev-loopback", None)
        .expect_err("non-JSON payload must be rejected");
    assert!(bad_json.message.contains("invalid JWT payload"));

    let no_sub = base64url_encode(b"{}");
    let missing_sub = derive_identity_from_jwt(&format!("{header}.{no_sub}.sig"), "dev-loopback", None)
        .expect_err("payload without sub must be rejected");
    assert!(missing_sub.message.contains("'sub'"));

    let oversized = base64url_encode(format!(r#"{{"sub":"{}"}}"#, "s".repeat(257)).as_bytes());
    let bad_sub = derive_identity_from_jwt(&format!("{header}.{oversized}.sig"), "dev-loopback", None)
        .expect_err("oversized sub claim must be rejected");
    assert!(bad_sub.message.contains("256"));
}

#[test]
fn jwt_claims_admin_recognizes_admin_claims() {
    assert!(jwt_claims_admin(&JwtJson { traverse_admin: Some(true), ..claims() }));
    assert!(jwt_claims_admin(&JwtJson {
        roles: Some(vec![Some("viewer".to_string()), Some("traverse_admin".to_string())]),
        ..claims()
    }));
    assert!(jwt_claims_admin(&JwtJson { roles: Some(vec![Some("system_admin".to_string())]), ..claims() }));
    assert!(jwt_claims_admin(&JwtJson { role: Some("traverse_admin".to_string()), ..claims() }));
    assert!(jwt_claims_admin(&JwtJson { role: Some("system_admin".to_string()), ..claims() }));
    assert!(!jwt_claims_admin(&JwtJson {
        roles: Some(vec![Some("viewer".to_string())]),
        role: Some("viewer".to_string()),
        ..claims()
    }));
    assert!(!jwt_claims_admin(&claims()));
}

#[test]
fn validate_jwt_time_claims_allows_absent_claims() {
    validate_jwt_time_claims(None, None).expect("token without time claims must be valid");
}

#[test]
fn time_claims_bound_the_token_lifetime() {
    assert!(check_jwt_time_claims(Some(100), None, 100).is_ok());
    assert_eq!(check_jwt_time_claims(Some(100), None, 101).unwrap_err().code, "token_expired");
    assert_eq!(check_jwt_time_claims(Some(0), None, -5).unwrap_err().code, "token_expired");
    assert_eq!(check_jwt_time_claims(None, Some(50), 49).unwrap_err().code, "token_not_yet_valid");
    assert!(check_jwt_time_claims(None, Some(50), 50).is_ok());
}

#[test]
fn parse_jwt_scopes_merges_all_scope_claims() {
    let scopes = parse_jwt_scopes(&JwtJson {
        scope: Some("read write".to_string()),
        scp: Some(vec![Some("admin".to_string()), Some("  ".to_string()), Some("read".to_string())]),
        scopes: Some(vec![Some("write".to_string()), Some("extra".to_string())]),
        ..claims()
    });
    assert_eq!(scopes, vec!["admin", "extra", "read", "write"]);
}

#[test]
fn tampered_payload_of_signed_token_is_rejected() {
    let key = parse_ed25519_verifying_key(&verifying_key_hex()).ok().expect("test key must parse");
    let token = make_jwt("alice", future_exp(), false);
    let mut parts = token.split('.');
    let header = parts.next().expect("header");
    let signature = parts.nth(1).expect("signature");
    let forged = base64url_encode(format!(r#"{{"sub":"alice","exp":{},"traverse_admin":true}}"#, future_exp()).as_bytes());
    let tampered = format!("{header}.{forged}.{signature}");
    let err = subject_from_request(&bearer(&tampered), "bearer-required", false, false, Some(&key))
        .expect_err("tampered token must be rejected");
    assert_eq!(err.status, 401);
    assert_eq!(err.code, "signature_verification_failed");
}

#[test]
fn bearer_required_without_key_rejects_all_tokens() {
    let token = make_jwt("alice", future_exp(), false);
    let err = subject_from_request(&bearer(&token), "bearer-required", false, false, None)
        .expect_err("fail closed without a verification key");
    assert_eq!(err.status, 401);
    assert_eq!(err.code, "jwt_verification_unavailable");
}

#[test]
fn bearer_required_rejects_opaque_non_jwt_token() {
    let err = subject_from_request(&bearer("system_admin"), "bearer-required", false, false, None)
        .expect_err("opaque tokens are not accepted on a network listener");
    assert_eq!(err.status, 401);
    assert_eq!(err.code, "unauthorized");
}

#[test]
fn dev_mode_unverified_jwt_cannot_be_admin() {
    let token = make_jwt("admin-user", future_exp(), true);
    let identity = subject_from_request(&bearer(&token), "dev-loopback", false, true, None)
        .expect("dev token must resolve to a subject");
    assert_eq!(identity.subject_id, "admin-user");
    assert!(!identity.is_admin);
}

#[test]
fn verified_jwt_yields_admin_when_signed() {
    let key = parse_ed25519_verifying_key(&verifying_key_hex()).ok().expect("test key must parse");
    let token = make_jwt("admin-user", future_exp(), true);
    let identity = subject_from_request(&bearer(&token), "bearer-required", false, false, Some(&key))
        .expect("verified token must resolve");
    assert_eq!(identity.subject_id, "admin-user");
    assert!(identity.is_admin);
}

#[test]
fn nbf_in_future_rejects_token() {
    let key = parse_ed25519_verifying_key(&verifying_key_hex()).ok().expect("test key must parse");
    let token = sign_jwt(&format!(r#"{{"sub":"alice","exp":{},"nbf":{}}}"#, future_exp(), future_exp()));
    let err = subject_from_request(&bearer(&token), "bearer-required", false, false, Some(&key))
        .expect_err("not-yet-valid token must be rejected");
    assert_eq!(err.code, "token_not_yet_valid");
}

#[test]
fn execute_endpoint_rejects_expired_jwt() {
    let key = parse_ed25519_verifying_key(&verifying_key_hex()).ok().expect("test key must parse");
    let token = make_jwt("alice", 1, false);
    let err = subject_from_request(&bearer(&token), "bearer-required", false, false, Some(&key))
        .expect_err("expired token must be rejected");
    assert_eq!(err.code, "token_expired");
}

#[test]
fn alg_none_is_refused_before_any_claim_is_read() {
    let header = base64url_encode(br#"{"alg":"none","typ":"JWT"}"#);
    let payload = base64url_encode(br#"{"sub":"mallory","traverse_admin":true}"#);
    let err = derive_identity_from_jwt(&format!("{header}.{payload}.sig"), "dev-loopback", None)
        .expect_err("alg none must be refused");
    assert_eq!(err.code, "token_alg_not_allowed");
    assert_eq!(err.message, "JWT alg 'none' is not allowed; only EdDSA is accepted");
}

#[test]
fn signed_scoped_token_carries_sorted_scopes() {
    let key = parse_ed25519_verifying_key(&verifying_key_hex()).ok().expect("test key must parse");
    let token = sign_jwt(&format!(r#"{{"sub":"bob","exp":{},"scope":"runtime:execute registry:read runtime:execute"}}"#, future_exp()));
    let identity = subject_from_request(&bearer(&token), "bearer-required", false, false, Some(&key)).expect("resolves");
    assert_eq!(identity.scopes, vec!["registry:read", "runtime:execute"]);
    assert!(identity_has_scope(&identity, "registry:read"));
    assert!(!identity_has_scope(&identity, "grants:approve"));
}

#[test]
fn tokenless_callers_are_local_only_on_an_open_loopback_listener() {
    let local = subject_from_request(&Vec::new(), "dev-loopback", true, true, None).expect("local");
    assert_eq!(local.subject_id, "local");
    assert!(!local.is_admin);
    let err = subject_from_request(&Vec::new(), "dev-loopback", true, false, None).expect_err("remote");
    assert_eq!(err.message, "Bearer token required");
    let opaque = subject_from_request(&bearer("system_admin"), "dev-any", false, false, None).expect("dev opaque");
    assert!(opaque.is_admin);
}

#[test]
fn scopes_are_checked_unless_optional() {
    let plain = identity("carol", false, &["registry:read"]);
    assert!(require_scope(&plain, "registry:read", false).is_ok());
    let err = require_scope(&plain, "registry:write", false).expect_err("missing scope");
    assert_eq!(err.status, 403);
    assert_eq!(err.message, "missing required scope `registry:write`");
    assert!(require_scope(&plain, "registry:write", true).is_ok());
    assert!(identity_has_scope(&identity("w", false, &["*"]), "anything"));
    assert!(identity_has_scope(&identity("a", true, &[]), "anything"));
    assert!(scopes_optional_for_request(false, true, &plain));
    assert!(scopes_optional_for_request(false, false, &identity("local", false, &[])));
    assert!(!scopes_optional_for_request(true, false, &plain));
}

#[test]
fn system_workspace_requires_privileged_claim() {
    let err = check_workspace_request("system", &identity("alice", false, &[])).expect_err("not admin");
    assert_eq!(err.status, 403);
    assert_eq!(err.code, "insufficient_privileges");
    assert!(check_workspace_request("system", &identity("root", true, &[])).is_ok());
}

#[test]
fn ensure_workspace_access_enforces_membership_rules() {
    let owner = identity("owner", false, &[]);
    let invalid = check_workspace_request("bad/ws", &owner).expect_err("invalid workspace id must be rejected");
    assert_eq!(invalid.code, "workspace_id_invalid");

    let shared = WorkspaceMetadata {
        schema_version: WORKSPACE_METADATA_SCHEMA_VERSION.to_string(),
        workspace_id: "shared-ws".to_string(),
        owner_subject: "owner".to_string(),
        shared: true,
        members: vec!["member".to_string()],
    };
    authorize_workspace_member(&shared, &identity("member", false, &[])).expect("shared workspace member must be authorized");
    let denied = authorize_workspace_member(&shared, &identity("stranger", false, &[]))
        .expect_err("non-member must be rejected from shared workspace");
    assert_eq!(denied.code, "unauthorized_workspace");

    let fresh = new_workspace_metadata("new-ws", &owner);
    assert_eq!(fresh.owner_subject, "owner");
    assert!(!fresh.shared);
    assert!(authorize_workspace_member(&fresh, &owner).is_ok());
    let private = WorkspaceMetadata { shared: false, ..shared };
    assert!(authorize_workspace_member(&private, &identity("member", false, &[])).is_err());
}

fn shared_metadata() -> WorkspaceMetadata {
    WorkspaceMetadata {
        schema_version: WORKSPACE_METADATA_SCHEMA_VERSION.to_string(),
        workspace_id: "shared-ws".to_string(),
        owner_subject: "owner".to_string(),
        shared: true,
        members: vec!["member".to_string()],
    }
}

#[test]
fn workspace_admission_decides_on_stored_metadata() {
    let owner = identity("owner", false, &[]);
    let invalid = admit_to_workspace("bad/ws", &owner, None).err().expect("invalid id refused");
    assert_eq!(invalid.code, "workspace_id_invalid");
    let system = admit_to_workspace("system", &owner, Some(shared_metadata())).err().expect("system needs admin");
    assert_eq!(system.code, "insufficient_privileges");

    let admitted = admit_to_workspace("shared-ws", &identity("member", false, &[]), Some(shared_metadata())).ok().expect("member admitted");
    assert!(!admitted.create);
    assert_eq!(admitted.metadata.owner_subject, "owner");
    let denied = admit_to_workspace("shared-ws", &identity("stranger", false, &[]), Some(shared_metadata())).err().expect("stranger refused");
    assert_eq!((denied.status, denied.code.as_str()), (403, "unauthorized_workspace"));

    let created = admit_to_workspace("new-ws", &owner, None).ok().expect("first caller admitted");
    assert!(created.create);
    assert_eq!(created.metadata.owner_subject, "owner");
    assert_eq!(created.metadata.workspace_id, "new-ws");
    assert!(!created.metadata.shared);
    assert!(created.metadata.members.is_empty());
}
