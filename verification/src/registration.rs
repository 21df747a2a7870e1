//! The registry records derived from a persisted registration: its scope,
//! and the paths and references it is filed under.

use vstd::prelude::*;
use crate::text::{owned, push_str, str_equals};
use crate::http::{api_error, make_api_error, ApiError, ApiErrorView};

verus! {

/// Where a registration is visible.
#[derive(Clone, Copy, Debug, PartialEq, Eq, Structural)]
pub enum RegistryScopeKind {
    Public,
    Private,
}

pub open spec fn scope_name(s: RegistryScopeKind) -> Seq<char> {
    match s {
        RegistryScopeKind::Public => "public"@,
        RegistryScopeKind::Private => "private"@,
    }
}

/// `public` or `private`; anything else is refused with 422.
pub open spec fn registry_scope_of(value: Seq<char>) -> Result<RegistryScopeKind, ApiErrorView> {
    if value == "public"@ {
        Ok(RegistryScopeKind::Public)
    } else if value == "private"@ {
        Ok(RegistryScopeKind::Private)
    } else {
        Err(api_error(422, "Unprocessable Entity"@, "invalid_registry_scope"@,
            "registry_scope must be public or private (got "@ + value + ")"@))
    }
}

pub fn parse_registry_scope(value: &str) -> (r: Result<RegistryScopeKind, ApiError>)
    ensures
        match (r, registry_scope_of(value@)) {
            (Ok(a), Ok(b)) => a == b,
            (Err(e), Err(v)) => e@ == v,
            _ => false,
        },
{
    if str_equals(value, "public") {
        Ok(RegistryScopeKind::Public)
    } else if str_equals(value, "private") {
        Ok(RegistryScopeKind::Private)
    } else {
        let mut m = owned("registry_scope must be public or private (got ");
        push_str(&mut m, value);
        push_str(&mut m, ")");
        Err(make_api_error(422, "Unprocessable Entity", "invalid_registry_scope", m))
    }
}

pub fn scope_label(s: RegistryScopeKind) -> (r: &'static str)
    ensures
        r@ == scope_name(s),
{
    match s {
        RegistryScopeKind::Public => "public",
        RegistryScopeKind::Private => "private",
    }
}

/// `workspaces/<ws>/<area>/<scope>/<id>@<version>/<file>`.
pub open spec fn filed_path(workspace_id: Seq<char>, area: Seq<char>, scope: RegistryScopeKind, id: Seq<char>, version: Seq<char>, file: Seq<char>) -> Seq<char> {
    "workspaces/"@ + workspace_id + "/"@ + area + "/"@ + scope_name(scope) + "/"@ + id + "@"@ + version + "/"@ + file
}

fn file_path(workspace_id: &str, area: &str, scope: RegistryScopeKind, id: &str, version: &str, file: &str) -> (s: String)
    ensures
        s@ == filed_path(workspace_id@, area@, scope, id@, version@, file@),
{
    let mut s = owned("workspaces/");
    push_str(&mut s, workspace_id);
    push_str(&mut s, "/");
    push_str(&mut s, area);
    push_str(&mut s, "/");
    push_str(&mut s, scope_label(scope));
    push_str(&mut s, "/");
    push_str(&mut s, id);
    push_str(&mut s, "@");
    push_str(&mut s, version);
    push_str(&mut s, "/");
    push_str(&mut s, file);
    assert(s@ =~= filed_path(workspace_id@, area@, scope, id@, version@, file@));
    s
}

/// How a capability registration is filed.
pub struct CapabilityFiling {
    pub scope: RegistryScopeKind,
    pub contract_path: String,
    pub artifact_ref: String,
    pub source_digest: String,
    pub binary_digest: String,
}

/// A capability registration of a workspace: its scope must parse and its
/// binary (the contract's entrypoint) must exist; it is filed under the
/// registry area with the artifact reference `workspace:<ws>:<id>:<version>`.
pub fn derive_registration(
    workspace_id: &str,
    registry_scope: &str,
    contract_id: &str,
    contract_version: &str,
    entrypoint: &str,
    binary_exists: bool,
) -> (r: Result<CapabilityFiling, ApiError>)
    ensures
        match registry_scope_of(registry_scope@) {
            Err(v) => r matches Err(e) && e@ == v,
            Ok(scope) => if !binary_exists {
                r matches Err(e) && e@ == api_error(422, "Unprocessable Entity"@, "artifact_not_found"@,
                    "binary artifact not found at "@ + entrypoint@)
            } else {
                r matches Ok(f) && f.scope == scope
                    && f.contract_path@ == filed_path(workspace_id@, "registry"@, scope, contract_id@, contract_version@, "contract.json"@)
                    && f.artifact_ref@ == "workspace:"@ + workspace_id@ + ":"@ + contract_id@ + ":"@ + contract_version@
                    && f.source_digest@ == "sha256:source-"@ + contract_id@ + "-"@ + contract_version@
                    && f.binary_digest@ == "sha256:binary-"@ + contract_id@ + "-"@ + contract_version@
            },
        },
{
    let scope = match parse_registry_scope(registry_scope) {
        Ok(s) => s,
        Err(e) => return Err(e),
    };
    if !binary_exists {
        let mut m = owned("binary artifact not found at ");
        push_str(&mut m, entrypoint);
        return Err(make_api_error(422, "Unprocessable Entity", "artifact_not_found", m));
    }
    let contract_path = file_path(workspace_id, "registry", scope, contract_id, contract_version, "contract.json");
    let mut artifact_ref = owned("workspace:");
    push_str(&mut artifact_ref, workspace_id);
    push_str(&mut artifact_ref, ":");
    push_str(&mut artifact_ref, contract_id);
    push_str(&mut artifact_ref, ":");
    push_str(&mut artifact_ref, contract_version);
    let mut source_digest = owned("sha256:source-");
    push_str(&mut source_digest, contract_id);
    push_str(&mut source_digest, "-");
    push_str(&mut source_digest, contract_version);
    let mut binary_digest = owned("sha256:binary-");
    push_str(&mut binary_digest, contract_id);
    push_str(&mut binary_digest, "-");
    push_str(&mut binary_digest, contract_version);
    Ok(CapabilityFiling { scope, contract_path, artifact_ref, source_digest, binary_digest })
}

/// An event contract registration is filed under `events/.../event.json`.
pub fn derive_event_registration(workspace_id: &str, registry_scope: &str, id: &str, version: &str) -> (r: Result<(RegistryScopeKind, String), ApiError>)
    ensures
        match registry_scope_of(registry_scope@) {
            Err(v) => r matches Err(e) && e@ == v,
            Ok(scope) => r matches Ok(p) && p.0 == scope
                && p.1@ == filed_path(workspace_id@, "events"@, scope, id@, version@, "event.json"@),
        },
{
    let scope = match parse_registry_scope(registry_scope) {
        Ok(s) => s,
        Err(e) => return Err(e),
    };
    Ok((scope, file_path(workspace_id, "events", scope, id, version, "event.json")))
}

/// A workflow registration is filed under `workflows/.../workflow.json`.
pub fn derive_workflow_registration(workspace_id: &str, registry_scope: &str, id: &str, version: &str) -> (r: Result<(RegistryScopeKind, String), ApiError>)
    ensures
        match registry_scope_of(registry_scope@) {
            Err(v) => r matches Err(e) && e@ == v,
            Ok(scope) => r matches Ok(p) && p.0 == scope
                && p.1@ == filed_path(workspace_id@, "workflows"@, scope, id@, version@, "workflow.json"@),
        },
{
    let scope = match parse_registry_scope(registry_scope) {
        Ok(s) => s,
        Err(e) => return Err(e),
    };
    Ok((scope, file_path(workspace_id, "workflows", scope, id, version, "workflow.json")))
}

} // verus!
