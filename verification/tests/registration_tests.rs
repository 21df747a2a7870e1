use traverse_cli::registration::{
    derive_event_registration, derive_registration, derive_workflow_registration, parse_registry_scope,
    RegistryScopeKind,
};

#[test]
fn capability_registration_is_filed_by_scope() {
    let f = derive_registration("ws-1", "private", "core.price", "1.1.0", "bin/price.wasm", true).expect("filed");
    assert_eq!(f.scope, RegistryScopeKind::Private);
    assert_eq!(f.contract_path, "workspaces/ws-1/registry/private/core.price@1.1.0/contract.json");
    assert_eq!(f.artifact_ref, "workspace:ws-1:core.price:1.1.0");
    assert_eq!(f.source_digest, "sha256:source-core.price-1.1.0");
    assert_eq!(f.binary_digest, "sha256:binary-core.price-1.1.0");
}

#[test]
fn registration_refusals() {
    let e = derive_registration("ws-1", "shared", "c", "1", "b", true).err().expect("bad scope");
    assert_eq!(e.status, 422);
    assert_eq!(e.code, "invalid_registry_scope");
    assert_eq!(e.message, "registry_scope must be public or private (got shared)");
    let e = derive_registration("ws-1", "public", "c", "1", "bin/x.wasm", false).err().expect("no binary");
    assert_eq!(e.code, "artifact_not_found");
    assert_eq!(e.message, "binary artifact not found at bin/x.wasm");
    assert!(parse_registry_scope("Public").is_err());
}

#[test]
fn event_and_workflow_paths() {
    let (scope, path) = derive_event_registration("ws", "public", "ev.created", "1.0.0").expect("filed");
    assert_eq!(scope, RegistryScopeKind::Public);
    assert_eq!(path, "workspaces/ws/events/public/ev.created@1.0.0/event.json");
    let (_, path) = derive_workflow_registration("ws", "private", "wf", "2.0.0").expect("filed");
    assert_eq!(path, "workspaces/ws/workflows/private/wf@2.0.0/workflow.json");
}
