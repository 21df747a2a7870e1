//! Request-body checks of the registration endpoints, and runtime grants:
//! how a grant request is read, how grants are approved, expire, and are
//! consumed by the execution they were granted for.

use vstd::prelude::*;
use crate::json_members::{
    body_keys, body_member, body_member_names, body_text, body_unsigned, has_member, json_members,
    opt_members_view, read_json_members, text_member, unsigned_member, MemberShape, MemberShapeView,
};
use crate::text::{
    blank, chars_of, decimal, owned, parse_unsigned, parse_unsigned_chars, push_decimal,
    push_str, str_equals, str_is_blank, strip_prefix, strip_prefix_vec, texts,
};
use crate::http::{api_error, make_api_error, ApiError, ApiErrorView};

verus! {

/// A JSON body whose members are checked against an allow-list: the names
/// of its members, or `None` when it is not an object.
pub open spec fn first_unknown(keys: Seq<Seq<char>>, allowed: Seq<Seq<char>>) -> Option<Seq<char>>
    decreases keys.len(),
{
    if keys.len() == 0 {
        None
    } else if !allowed.contains(keys[0]) {
        Some(keys[0])
    } else {
        first_unknown(keys.drop_first(), allowed)
    }
}

/// Why a body is refused by an allow-list of member names: it must be an
/// object, and its first member outside the list is named.
pub open spec fn unknown_fields_error(
    keys: Option<Seq<Seq<char>>>,
    allowed: Seq<Seq<char>>,
    not_object_code: Seq<char>,
    not_object: Seq<char>,
    unknown_label: Seq<char>,
) -> Option<ApiErrorView> {
    match keys {
        None => Some(api_error(400, "Bad Request"@, not_object_code, not_object)),
        Some(k) => match first_unknown(k, allowed) {
            Some(key) => Some(
                api_error(
                    400,
                    "Bad Request"@,
                    "unknown_field"@,
                    "unknown "@ + unknown_label + " field `"@ + key + "`"@,
                ),
            ),
            None => None,
        },
    }
}

pub open spec fn opt_keys(keys: Option<&Vec<String>>) -> Option<Seq<Seq<char>>> {
    match keys {
        Some(k) => Some(texts(k@)),
        None => None,
    }
}

/// Checks the member names of a body against an allow-list.
pub fn reject_unknown_fields(
    keys: Option<&Vec<String>>,
    allowed: &Vec<String>,
    not_object_code: &str,
    not_object: &str,
    unknown_label: &str,
) -> (r: Result<(), ApiError>)
    ensures
        match r {
            Ok(()) => unknown_fields_error(
                opt_keys(keys),
                texts(allowed@),
                not_object_code@,
                not_object@,
                unknown_label@,
            ) is None,
            Err(e) => unknown_fields_error(
                opt_keys(keys),
                texts(allowed@),
                not_object_code@,
                not_object@,
                unknown_label@,
            ) == Some(e@),
        },
{
    let Some(key_list) = keys else {
        return Err(make_api_error(400, "Bad Request", not_object_code, owned(not_object)));
    };
    let ghost k = texts(key_list@);
    let n = key_list.len();
    let mut i: usize = 0;
    assert(k.skip(0) =~= k);
    while i < n
        invariant
            n == key_list@.len(),
            k == texts(key_list@),
            keys == Some(key_list),
            i <= n,
            first_unknown(k, texts(allowed@)) == first_unknown(k.skip(i as int), texts(allowed@)),
        decreases n - i,
    {
        proof {
            assert(k.skip(i as int).drop_first() =~= k.skip(i + 1));
            assert(k.skip(i as int)[0] == key_list@[i as int]@);
        }
        if !crate::text::contains_text(allowed, key_list[i].as_str()) {
            let mut m = owned("unknown ");
            push_str(&mut m, unknown_label);
            push_str(&mut m, " field `");
            push_str(&mut m, key_list[i].as_str());
            push_str(&mut m, "`");
            return Err(make_api_error(400, "Bad Request", "unknown_field", m));
        }
        i = i + 1;
    }
    Ok(())
}

fn names(list: &[&str]) -> (r: Vec<String>)
    ensures
        r@.len() == list@.len(),
        forall|i: int| 0 <= i < list@.len() ==> #[trigger] r@[i]@ == list@[i]@,
{
    let mut r: Vec<String> = Vec::new();
    let n = list.len();
    let mut i: usize = 0;
    while i < n
        invariant
            n == list@.len(),
            i <= n,
            r@.len() == i,
            forall|j: int| 0 <= j < i ==> #[trigger] r@[j]@ == list@[j]@,
        decreases n - i,
    {
        r.push(owned(list[i]));
        i = i + 1;
    }
    r
}

/// The members a capability registration body may hold.
pub open spec fn registration_fields() -> Seq<Seq<char>> {
    seq!["workspace_id"@, "scope"@, "registry_scope"@, "tags"@, "contract"@]
}

pub open spec fn event_registration_fields() -> Seq<Seq<char>> {
    seq!["workspace_id"@, "scope"@, "registry_scope"@, "event_contract"@]
}

pub open spec fn workflow_registration_fields() -> Seq<Seq<char>> {
    seq![
        "workspace_id"@,
        "scope"@,
        "registry_scope"@,
        "workflow"@,
        "registered_at"@,
        "validator_version"@,
    ]
}

pub open spec fn bundle_registration_fields() -> Seq<Seq<char>> {
    seq!["workspace_id"@, "scope"@, "bundle"@]
}

pub open spec fn bundle_fields() -> Seq<Seq<char>> {
    seq!["capabilities"@, "event_contracts"@, "workflows"@]
}

pub open spec fn runtime_grant_fields() -> Seq<Seq<char>> {
    seq!["capability_id"@, "grant_scope"@, "resource"@, "lifetime"@, "expires_in_seconds"@]
}

/// A capability registration body holds only its known members.
pub fn reject_unknown_registration_wrapper_fields(keys: Option<&Vec<String>>) -> (r: Result<(), ApiError>)
    ensures
        match r {
            Ok(()) => unknown_fields_error(
                opt_keys(keys),
                registration_fields(),
                "invalid_request"@,
                "registration body must be a JSON object"@,
                "registration"@,
            ) is None,
            Err(e) => unknown_fields_error(
                opt_keys(keys),
                registration_fields(),
                "invalid_request"@,
                "registration body must be a JSON object"@,
                "registration"@,
            ) == Some(e@),
        },
{
    let allowed = names(&["workspace_id", "scope", "registry_scope", "tags", "contract"]);
    assert(texts(allowed@) =~= registration_fields());
    reject_unknown_fields(
        keys,
        &allowed,
        "invalid_request",
        "registration body must be a JSON object",
        "registration",
    )
}

pub fn reject_unknown_event_registration_wrapper_fields(keys: Option<&Vec<String>>) -> (r: Result<(), ApiError>)
    ensures
        match r {
            Ok(()) => unknown_fields_error(
                opt_keys(keys),
                event_registration_fields(),
                "invalid_request"@,
                "event registration body must be a JSON object"@,
                "event registration"@,
            ) is None,
            Err(e) => unknown_fields_error(
                opt_keys(keys),
                event_registration_fields(),
                "invalid_request"@,
                "event registration body must be a JSON object"@,
                "event registration"@,
            ) == Some(e@),
        },
{
    let allowed = names(&["workspace_id", "scope", "registry_scope", "event_contract"]);
    assert(texts(allowed@) =~= event_registration_fields());
    reject_unknown_fields(
        keys,
        &allowed,
        "invalid_request",
        "event registration body must be a JSON object",
        "event registration",
    )
}

pub fn reject_unknown_workflow_registration_wrapper_fields(keys: Option<&Vec<String>>) -> (r: Result<(), ApiError>)
    ensures
        match r {
            Ok(()) => unknown_fields_error(
                opt_keys(keys),
                workflow_registration_fields(),
                "invalid_request"@,
                "workflow registration body must be a JSON object"@,
                "workflow registration"@,
            ) is None,
            Err(e) => unknown_fields_error(
                opt_keys(keys),
                workflow_registration_fields(),
                "invalid_request"@,
                "workflow registration body must be a JSON object"@,
                "workflow registration"@,
            ) == Some(e@),
        },
{
    let allowed = names(
        &[
            "workspace_id",
            "scope",
            "registry_scope",
            "workflow",
            "registered_at",
            "validator_version",
        ],
    );
    assert(texts(allowed@) =~= workflow_registration_fields());
    reject_unknown_fields(
        keys,
        &allowed,
        "invalid_request",
        "workflow registration body must be a JSON object",
        "workflow registration",
    )
}

pub fn reject_unknown_bundle_registration_wrapper_fields(keys: Option<&Vec<String>>) -> (r: Result<(), ApiError>)
    ensures
        match r {
            Ok(()) => unknown_fields_error(
                opt_keys(keys),
                bundle_registration_fields(),
                "invalid_request"@,
                "bundle registration body must be a JSON object"@,
                "bundle registration"@,
            ) is None,
            Err(e) => unknown_fields_error(
                opt_keys(keys),
                bundle_registration_fields(),
                "invalid_request"@,
                "bundle registration body must be a JSON object"@,
                "bundle registration"@,
            ) == Some(e@),
        },
{
    let allowed = names(&["workspace_id", "scope", "bundle"]);
    assert(texts(allowed@) =~= bundle_registration_fields());
    reject_unknown_fields(
        keys,
        &allowed,
        "invalid_request",
        "bundle registration body must be a JSON object",
        "bundle registration",
    )
}

pub fn reject_unknown_bundle_fields(keys: Option<&Vec<String>>) -> (r: Result<(), ApiError>)
    ensures
        match r {
            Ok(()) => unknown_fields_error(
                opt_keys(keys),
                bundle_fields(),
                "invalid_bundle"@,
                "bundle must be a JSON object"@,
                "bundle"@,
            ) is None,
            Err(e) => unknown_fields_error(
                opt_keys(keys),
                bundle_fields(),
                "invalid_bundle"@,
                "bundle must be a JSON object"@,
                "bundle"@,
            ) == Some(e@),
        },
{
    let allowed = names(&["capabilities", "event_contracts", "workflows"]);
    assert(texts(allowed@) =~= bundle_fields());
    reject_unknown_fields(keys, &allowed, "invalid_bundle", "bundle must be a JSON object", "bundle")
}

pub fn reject_unknown_runtime_grant_fields(keys: Option<&Vec<String>>) -> (r: Result<(), ApiError>)
    ensures
        match r {
            Ok(()) => unknown_fields_error(
                opt_keys(keys),
                runtime_grant_fields(),
                "invalid_request"@,
                "runtime grant body must be a JSON object"@,
                "runtime grant"@,
            ) is None,
            Err(e) => unknown_fields_error(
                opt_keys(keys),
                runtime_grant_fields(),
                "invalid_request"@,
                "runtime grant body must be a JSON object"@,
                "runtime grant"@,
            ) == Some(e@),
        },
{
    let allowed = names(
        &["capability_id", "grant_scope", "resource", "lifetime", "expires_in_seconds"],
    );
    assert(texts(allowed@) =~= runtime_grant_fields());
    reject_unknown_fields(
        keys,
        &allowed,
        "invalid_request",
        "runtime grant body must be a JSON object",
        "runtime grant",
    )
}

/// Where a registration is kept.
#[derive(Clone, Copy, Debug, PartialEq, Eq, Structural)]
pub enum RegistrationScope {
    WorkspacePersisted,
    SessionEphemeral,
}

/// A JSON member as the checks read it.
#[derive(Debug, PartialEq, Eq)]
pub enum MemberValue {
    Absent,
    Text(String),
    /// Present, but not a string.
    NotText,
}

pub open spec fn registration_scope_of(value: MemberValue) -> Result<RegistrationScope, Seq<char>> {
    match value {
        MemberValue::Absent => Ok(RegistrationScope::WorkspacePersisted),
        MemberValue::NotText => Err("scope must be a string"@),
        MemberValue::Text(s) => if s@ == "workspace_persisted"@ {
            Ok(RegistrationScope::WorkspacePersisted)
        } else if s@ == "session_ephemeral"@ {
            Ok(RegistrationScope::SessionEphemeral)
        } else {
            Err("scope must be workspace_persisted or session_ephemeral"@)
        },
    }
}

/// The `scope` member of a registration: workspace-persisted when absent.
pub fn parse_registration_scope(value: &MemberValue) -> (r: Result<RegistrationScope, String>)
    ensures
        match r {
            Ok(s) => registration_scope_of(*value) == Ok::<RegistrationScope, Seq<char>>(s),
            Err(m) => registration_scope_of(*value) == Err::<RegistrationScope, Seq<char>>(m@),
        },
{
    match value {
        MemberValue::Absent => Ok(RegistrationScope::WorkspacePersisted),
        MemberValue::NotText => Err(owned("scope must be a string")),
        MemberValue::Text(s) => {
            if str_equals(s.as_str(), "workspace_persisted") {
                Ok(RegistrationScope::WorkspacePersisted)
            } else if str_equals(s.as_str(), "session_ephemeral") {
                Ok(RegistrationScope::SessionEphemeral)
            } else {
                Err(owned("scope must be workspace_persisted or session_ephemeral"))
            }
        },
    }
}

pub open spec fn scope_value(s: RegistrationScope) -> Seq<char> {
    match s {
        RegistrationScope::WorkspacePersisted => "workspace_persisted"@,
        RegistrationScope::SessionEphemeral => "session_ephemeral"@,
    }
}

/// The wire name of a registration scope.
pub fn registration_scope_value(scope: RegistrationScope) -> (s: &'static str)
    ensures
        s@ == scope_value(scope),
{
    match scope {
        RegistrationScope::WorkspacePersisted => "workspace_persisted",
        RegistrationScope::SessionEphemeral => "session_ephemeral",
    }
}

/// Every registration-scope name parses back to its scope.
pub proof fn lemma_registration_scope_round_trip(s: RegistrationScope, text: String)
    requires
        text@ == scope_value(s),
    ensures
        registration_scope_of(MemberValue::Text(text)) == Ok::<RegistrationScope, Seq<char>>(s),
{
    reveal_strlit("workspace_persisted");
    reveal_strlit("session_ephemeral");
    if s is SessionEphemeral {
        assert(text@[0] != "workspace_persisted"@[0]);
    }
}

/// Why a bundle is refused for holding one artifact twice.
pub open spec fn duplicate_artifact_error(artifact_type: Seq<char>, id: Seq<char>, version: Seq<char>) -> ApiErrorView {
    api_error(
        409,
        "Conflict"@,
        "duplicate_bundle_artifact"@,
        "bundle contains duplicate "@ + artifact_type + " "@ + id + "@"@ + version,
    )
}

pub open spec fn bundle_key(artifact_type: Seq<char>, id: Seq<char>, version: Seq<char>) -> Seq<char> {
    artifact_type + ":"@ + id + ":"@ + version
}

/// Records an artifact of a bundle in the keys seen so far; a key seen
/// before refuses the bundle.
pub fn reject_duplicate_bundle_key(
    seen: &mut Vec<String>,
    artifact_type: &str,
    artifact_id: &str,
    version: &str,
) -> (r: Result<(), ApiError>)
    ensures
        texts(old(seen)@).contains(bundle_key(artifact_type@, artifact_id@, version@)) ==> (r matches Err(
            e,
        ) && e@ == duplicate_artifact_error(artifact_type@, artifact_id@, version@) && final(seen)@
            == old(seen)@),
        !texts(old(seen)@).contains(bundle_key(artifact_type@, artifact_id@, version@)) ==> (r is Ok
            && texts(final(seen)@) == texts(old(seen)@).push(
            bundle_key(artifact_type@, artifact_id@, version@),
        )),
{
    let mut key = owned(artifact_type);
    push_str(&mut key, ":");
    push_str(&mut key, artifact_id);
    push_str(&mut key, ":");
    push_str(&mut key, version);
    if crate::text::contains_text(seen, key.as_str()) {
        let mut m = owned("bundle contains duplicate ");
        push_str(&mut m, artifact_type);
        push_str(&mut m, " ");
        push_str(&mut m, artifact_id);
        push_str(&mut m, "@");
        push_str(&mut m, version);
        return Err(make_api_error(409, "Conflict", "duplicate_bundle_artifact", m));
    }
    let ghost before = seen@;
    let ghost kv = key@;
    seen.push(key);
    assert(texts(seen@) =~= texts(before).push(kv));
    Ok(())
}

} // verus!

verus! {

/// How long a runtime grant lasts: one execution, or until it expires.
#[derive(Clone, Copy, Debug, PartialEq, Eq, Structural)]
pub enum RuntimeGrantLifetime {
    Execution,
    Session,
}

/// An approved runtime grant of a workspace.
#[derive(Debug, PartialEq, Eq)]
pub struct RuntimeGrantRecord {
    pub grant_id: String,
    pub capability_id: String,
    pub grant_scope: String,
    pub resource: String,
    pub lifetime: RuntimeGrantLifetime,
    pub approved_by: String,
    pub granted_at: String,
    pub expires_at: String,
}

pub struct GrantView {
    pub grant_id: Seq<char>,
    pub capability_id: Seq<char>,
    pub grant_scope: Seq<char>,
    pub resource: Seq<char>,
    pub lifetime: RuntimeGrantLifetime,
    pub approved_by: Seq<char>,
    pub granted_at: Seq<char>,
    pub expires_at: Seq<char>,
}

impl View for RuntimeGrantRecord {
    type V = GrantView;

    open spec fn view(&self) -> GrantView {
        GrantView {
            grant_id: self.grant_id@,
            capability_id: self.capability_id@,
            grant_scope: self.grant_scope@,
            resource: self.resource@,
            lifetime: self.lifetime,
            approved_by: self.approved_by@,
            granted_at: self.granted_at@,
            expires_at: self.expires_at@,
        }
    }
}

pub open spec fn grant_views(v: Seq<RuntimeGrantRecord>) -> Seq<GrantView> {
    v.map_values(|g: RuntimeGrantRecord| g@)
}

impl RuntimeGrantRecord {
    pub fn copy(&self) -> (r: Self)
        ensures
            r@ == self@,
    {
        RuntimeGrantRecord {
            grant_id: self.grant_id.clone(),
            capability_id: self.capability_id.clone(),
            grant_scope: self.grant_scope.clone(),
            resource: self.resource.clone(),
            lifetime: self.lifetime,
            approved_by: self.approved_by.clone(),
            granted_at: self.granted_at.clone(),
            expires_at: self.expires_at.clone(),
        }
    }
}

/// The expiry of a grant stamped `unix:<seconds>`; any other stamp never
/// expires.
pub open spec fn expiration(expires_at: Seq<char>) -> Option<nat> {
    match strip_prefix(expires_at, "unix:"@) {
        Some(d) => parse_unsigned(d, u64::MAX as nat),
        None => None,
    }
}

pub fn grant_expiration_seconds(grant: &RuntimeGrantRecord) -> (r: Option<u64>)
    ensures
        match r {
            Some(s) => expiration(grant@.expires_at) == Some(s as nat),
            None => expiration(grant@.expires_at) is None,
        },
{
    let e = chars_of(grant.expires_at.as_str());
    let p = chars_of("unix:");
    match strip_prefix_vec(e.as_slice(), p.as_slice()) {
        Some(d) => parse_unsigned_chars(d.as_slice(), u64::MAX),
        None => None,
    }
}

/// A grant whose expiry is at or before `now`.
pub open spec fn grant_expired(g: GrantView, now: u64) -> bool {
    match expiration(g.expires_at) {
        Some(e) => e <= now,
        None => false,
    }
}

/// The grants not expired at `now`, in order.
pub open spec fn unexpired(gs: Seq<GrantView>, now: u64) -> Seq<GrantView>
    decreases gs.len(),
{
    if gs.len() == 0 {
        Seq::empty()
    } else if grant_expired(gs.last(), now) {
        unexpired(gs.drop_last(), now)
    } else {
        unexpired(gs.drop_last(), now).push(gs.last())
    }
}

/// The grants expired at `now`, in order.
pub open spec fn expired_grants(gs: Seq<GrantView>, now: u64) -> Seq<GrantView>
    decreases gs.len(),
{
    if gs.len() == 0 {
        Seq::empty()
    } else if grant_expired(gs.last(), now) {
        expired_grants(gs.drop_last(), now).push(gs.last())
    } else {
        expired_grants(gs.drop_last(), now)
    }
}

/// The grants for one capability, in order.
pub open spec fn for_capability(gs: Seq<GrantView>, capability_id: Seq<char>) -> Seq<GrantView>
    decreases gs.len(),
{
    if gs.len() == 0 {
        Seq::empty()
    } else if gs.last().capability_id == capability_id {
        for_capability(gs.drop_last(), capability_id).push(gs.last())
    } else {
        for_capability(gs.drop_last(), capability_id)
    }
}

/// The ids of the single-execution grants.
pub open spec fn execution_ids(gs: Seq<GrantView>) -> Seq<Seq<char>>
    decreases gs.len(),
{
    if gs.len() == 0 {
        Seq::empty()
    } else if gs.last().lifetime is Execution {
        execution_ids(gs.drop_last()).push(gs.last().grant_id)
    } else {
        execution_ids(gs.drop_last())
    }
}

/// The grants whose id is not among `ids`, in order.
pub open spec fn without_ids(gs: Seq<GrantView>, ids: Seq<Seq<char>>) -> Seq<GrantView>
    decreases gs.len(),
{
    if gs.len() == 0 {
        Seq::empty()
    } else if ids.contains(gs.last().grant_id) {
        without_ids(gs.drop_last(), ids)
    } else {
        without_ids(gs.drop_last(), ids).push(gs.last())
    }
}

fn push_copy(out: &mut Vec<RuntimeGrantRecord>, g: &RuntimeGrantRecord)
    ensures
        grant_views(final(out)@) == grant_views(old(out)@).push(g@),
{
    out.push(g.copy());
    assert(grant_views(out@) =~= grant_views(old(out)@).push(g@));
}

/// Approves a grant: it gets the id `grant_<n>`, `n` being the number of
/// grants after it, and the approving subject, and is appended.
pub fn approve_runtime_grant(
    grants: &mut Vec<RuntimeGrantRecord>,
    approved_by: &str,
    grant: RuntimeGrantRecord,
) -> (r: RuntimeGrantRecord)
    requires
        old(grants)@.len() < u64::MAX,
    ensures
        r@ == (GrantView {
            grant_id: "grant_"@ + decimal((old(grants)@.len() + 1) as nat),
            approved_by: approved_by@,
            ..grant@
        }),
        grant_views(final(grants)@) == grant_views(old(grants)@).push(r@),
{
    let mut grant = grant;
    let mut id = owned("grant_");
    push_decimal(&mut id, (grants.len() as u64) + 1);
    grant.grant_id = id;
    grant.approved_by = owned(approved_by);
    push_copy(grants, &grant);
    grant
}

/// Removes the grants expired at `now` and returns them.
pub fn prune_expired_grants(grants: &mut Vec<RuntimeGrantRecord>, now: u64) -> (expired: Vec<RuntimeGrantRecord>)
    ensures
        grant_views(final(grants)@) == unexpired(grant_views(old(grants)@), now),
        grant_views(expired@) == expired_grants(grant_views(old(grants)@), now),
{
    let ghost g = grant_views(grants@);
    let mut kept: Vec<RuntimeGrantRecord> = Vec::new();
    let mut expired: Vec<RuntimeGrantRecord> = Vec::new();
    let n = grants.len();
    let mut i: usize = 0;
    while i < n
        invariant
            n == grants@.len(),
            g == grant_views(grants@),
            i <= n,
            grant_views(kept@) == unexpired(g.take(i as int), now),
            grant_views(expired@) == expired_grants(g.take(i as int), now),
        decreases n - i,
    {
        proof {
            assert(g.take(i + 1).drop_last() =~= g.take(i as int));
            assert(g.take(i + 1).last() == grants@[i as int]@);
        }
        let gone = match grant_expiration_seconds(&grants[i]) {
            Some(e) => e <= now,
            None => false,
        };
        if gone {
            push_copy(&mut expired, &grants[i]);
        } else {
            push_copy(&mut kept, &grants[i]);
        }
        i = i + 1;
    }
    assert(g.take(n as int) =~= g);
    *grants = kept;
    expired
}

/// Copies of the grants for one capability.
pub fn grants_for_capability(grants: &Vec<RuntimeGrantRecord>, capability_id: &str) -> (r: Vec<RuntimeGrantRecord>)
    ensures
        grant_views(r@) == for_capability(grant_views(grants@), capability_id@),
{
    let ghost g = grant_views(grants@);
    let mut r: Vec<RuntimeGrantRecord> = Vec::new();
    let n = grants.len();
    let mut i: usize = 0;
    while i < n
        invariant
            n == grants@.len(),
            g == grant_views(grants@),
            i <= n,
            grant_views(r@) == for_capability(g.take(i as int), capability_id@),
        decreases n - i,
    {
        proof {
            assert(g.take(i + 1).drop_last() =~= g.take(i as int));
            assert(g.take(i + 1).last() == grants@[i as int]@);
        }
        if str_equals(grants[i].capability_id.as_str(), capability_id) {
            push_copy(&mut r, &grants[i]);
        }
        i = i + 1;
    }
    assert(g.take(n as int) =~= g);
    r
}

/// Before an execution: the expired grants are removed (and returned, to
/// be audited), and the grants of the executed capability are the active
/// ones; without a capability there are none.
pub fn active_runtime_grants(
    grants: &mut Vec<RuntimeGrantRecord>,
    now: u64,
    capability_id: Option<&str>,
) -> (r: (Vec<RuntimeGrantRecord>, Vec<RuntimeGrantRecord>))
    ensures
        grant_views(final(grants)@) == unexpired(grant_views(old(grants)@), now),
        grant_views(r.1@) == expired_grants(grant_views(old(grants)@), now),
        match capability_id {
            Some(c) => grant_views(r.0@) == for_capability(
                unexpired(grant_views(old(grants)@), now),
                c@,
            ),
            None => r.0@.len() == 0,
        },
{
    let expired = prune_expired_grants(grants, now);
    match capability_id {
        Some(c) => (grants_for_capability(grants, c), expired),
        None => (Vec::new(), expired),
    }
}

/// The single-execution grants among those an execution used.
pub fn execution_grants_used(used: &Vec<RuntimeGrantRecord>) -> (r: Vec<String>)
    ensures
        texts(r@) == execution_ids(grant_views(used@)),
{
    let ghost g = grant_views(used@);
    let mut r: Vec<String> = Vec::new();
    let n = used.len();
    let mut i: usize = 0;
    while i < n
        invariant
            n == used@.len(),
            g == grant_views(used@),
            i <= n,
            texts(r@) == execution_ids(g.take(i as int)),
        decreases n - i,
    {
        proof {
            assert(g.take(i + 1).drop_last() =~= g.take(i as int));
            assert(g.take(i + 1).last() == used@[i as int]@);
        }
        if used[i].lifetime == RuntimeGrantLifetime::Execution {
            let ghost before = r@;
            r.push(used[i].grant_id.clone());
            assert(texts(r@) =~= texts(before).push(used@[i as int].grant_id@));
        }
        i = i + 1;
    }
    assert(g.take(n as int) =~= g);
    r
}

/// After an execution: every single-execution grant it used is removed;
/// session grants stay until they expire.
pub fn consume_execution_runtime_grants(grants: &mut Vec<RuntimeGrantRecord>, used: &Vec<RuntimeGrantRecord>)
    ensures
        grant_views(final(grants)@) == without_ids(
            grant_views(old(grants)@),
            execution_ids(grant_views(used@)),
        ),
{
    let ids = execution_grants_used(used);
    let ghost g = grant_views(grants@);
    let mut kept: Vec<RuntimeGrantRecord> = Vec::new();
    let n = grants.len();
    let mut i: usize = 0;
    while i < n
        invariant
            n == grants@.len(),
            g == grant_views(grants@),
            texts(ids@) == execution_ids(grant_views(used@)),
            i <= n,
            grant_views(kept@) == without_ids(g.take(i as int), texts(ids@)),
        decreases n - i,
    {
        proof {
            assert(g.take(i + 1).drop_last() =~= g.take(i as int));
            assert(g.take(i + 1).last() == grants@[i as int]@);
        }
        if !crate::text::contains_text(&ids, grants[i].grant_id.as_str()) {
            push_copy(&mut kept, &grants[i]);
        }
        i = i + 1;
    }
    assert(g.take(n as int) =~= g);
    *grants = kept;
}

} // verus!

verus! {

proof fn lemma_without_ids_members(gs: Seq<GrantView>, ids: Seq<Seq<char>>)
    ensures
        forall|x: GrantView| #[trigger] without_ids(gs, ids).contains(x) <==> (gs.contains(x)
            && !ids.contains(x.grant_id)),
    decreases gs.len(),
{
    if gs.len() > 0 {
        lemma_without_ids_members(gs.drop_last(), ids);
        assert forall|x: GrantView| #[trigger] without_ids(gs, ids).contains(x) <==> (gs.contains(x)
            && !ids.contains(x.grant_id)) by {
            assert(gs =~= gs.drop_last().push(gs.last()));
            if gs.contains(x) {
                let k = choose|k: int| 0 <= k < gs.len() && gs[k] == x;
                if k < gs.len() - 1 {
                    assert(gs.drop_last()[k] == x);
                }
            }
            if gs.drop_last().contains(x) {
                let k = choose|k: int| 0 <= k < gs.drop_last().len() && gs.drop_last()[k] == x;
                assert(gs[k] == x);
            }
            let w = without_ids(gs.drop_last(), ids);
            if w.push(gs.last()).contains(x) {
                let k = choose|k: int| 0 <= k < w.push(gs.last()).len() && w.push(gs.last())[k] == x;
                if k < w.len() {
                    assert(w[k] == x);
                }
            }
            if w.contains(x) {
                let k = choose|k: int| 0 <= k < w.len() && w[k] == x;
                assert(w.push(gs.last())[k] == x);
            }
            assert(w.push(gs.last())[w.len() as int] == gs.last());
        }
    }
}

proof fn lemma_for_capability_members(gs: Seq<GrantView>, c: Seq<char>)
    ensures
        forall|x: GrantView| #[trigger] for_capability(gs, c).contains(x) <==> (gs.contains(x)
            && x.capability_id == c),
    decreases gs.len(),
{
    if gs.len() > 0 {
        lemma_for_capability_members(gs.drop_last(), c);
        assert forall|x: GrantView| #[trigger] for_capability(gs, c).contains(x) <==> (gs.contains(x)
            && x.capability_id == c) by {
            if gs.contains(x) {
                let k = choose|k: int| 0 <= k < gs.len() && gs[k] == x;
                if k < gs.len() - 1 {
                    assert(gs.drop_last()[k] == x);
                }
            }
            if gs.drop_last().contains(x) {
                let k = choose|k: int| 0 <= k < gs.drop_last().len() && gs.drop_last()[k] == x;
                assert(gs[k] == x);
            }
            let w = for_capability(gs.drop_last(), c);
            if w.push(gs.last()).contains(x) {
                let k = choose|k: int| 0 <= k < w.push(gs.last()).len() && w.push(gs.last())[k] == x;
                if k < w.len() {
                    assert(w[k] == x);
                }
            }
            if w.contains(x) {
                let k = choose|k: int| 0 <= k < w.len() && w[k] == x;
                assert(w.push(gs.last())[k] == x);
            }
            assert(w.push(gs.last())[w.len() as int] == gs.last());
        }
    }
}

proof fn lemma_execution_ids_members(gs: Seq<GrantView>)
    ensures
        forall|x: GrantView| gs.contains(x) && x.lifetime is Execution ==> #[trigger] execution_ids(
            gs,
        ).contains(x.grant_id),
    decreases gs.len(),
{
    if gs.len() > 0 {
        lemma_execution_ids_members(gs.drop_last());
        assert forall|x: GrantView| gs.contains(x) && x.lifetime is Execution implies #[trigger] execution_ids(
            gs,
        ).contains(x.grant_id) by {
            let k = choose|k: int| 0 <= k < gs.len() && gs[k] == x;
            let e = execution_ids(gs.drop_last());
            if k < gs.len() - 1 {
                assert(gs.drop_last()[k] == x);
                assert(gs.drop_last().contains(x));
                assert(e.contains(x.grant_id));
                let j = choose|j: int| 0 <= j < e.len() && e[j] == x.grant_id;
                assert(e.push(gs.last().grant_id)[j] == x.grant_id);
            } else {
                assert(e.push(gs.last().grant_id)[e.len() as int] == x.grant_id);
            }
        }
    }
}

/// A single-execution grant serves one execution: once the grants of the
/// executed capability have been consumed, none of that capability's
/// single-execution grants is left.
pub proof fn lemma_execution_grant_used_once(gs: Seq<GrantView>, capability_id: Seq<char>)
    ensures
        forall|x: GrantView| #[trigger] without_ids(gs, execution_ids(for_capability(gs, capability_id))).contains(x)
            ==> !(x.capability_id == capability_id && x.lifetime is Execution),
{
    let active = for_capability(gs, capability_id);
    lemma_without_ids_members(gs, execution_ids(active));
    lemma_for_capability_members(gs, capability_id);
    lemma_execution_ids_members(active);
    assert forall|x: GrantView| #[trigger] without_ids(gs, execution_ids(active)).contains(x) implies !(
    x.capability_id == capability_id && x.lifetime is Execution) by {
        if x.capability_id == capability_id && x.lifetime is Execution {
            assert(active.contains(x));
            assert(execution_ids(active).contains(x.grant_id));
        }
    }
}

/// Consuming the grants of an execution never removes a session grant
/// whose id no single-execution grant of it shares.
pub proof fn lemma_session_grant_outlives_executions(gs: Seq<GrantView>, used: Seq<GrantView>, g: GrantView)
    requires
        gs.contains(g),
        g.lifetime is Session,
        !execution_ids(used).contains(g.grant_id),
    ensures
        without_ids(gs, execution_ids(used)).contains(g),
{
    lemma_without_ids_members(gs, execution_ids(used));
}

} // verus!

verus! {

/// The members of a runtime grant request that this library reads: the
/// member names (`None` when the body is not an object), the string
/// members, and `expires_in_seconds` when it is an unsigned integer.
#[derive(Debug)]
pub struct GrantRequestJson {
    pub keys: Option<Vec<String>>,
    pub capability_id: Option<String>,
    pub grant_scope: Option<String>,
    pub resource: Option<String>,
    pub lifetime: Option<String>,
    pub expires_in_seconds: Option<u64>,
}

pub struct GrantRequestView {
    pub keys: Option<Seq<Seq<char>>>,
    pub capability_id: Option<Seq<char>>,
    pub grant_scope: Option<Seq<char>>,
    pub resource: Option<Seq<char>>,
    pub lifetime: Option<Seq<char>>,
    pub expires_in_seconds: Option<u64>,
}

impl View for GrantRequestJson {
    type V = GrantRequestView;

    open spec fn view(&self) -> GrantRequestView {
        GrantRequestView {
            keys: match self.keys {
                Some(k) => Some(texts(k@)),
                None => None,
            },
            capability_id: crate::text::opt_view(self.capability_id),
            grant_scope: crate::text::opt_view(self.grant_scope),
            resource: crate::text::opt_view(self.resource),
            lifetime: crate::text::opt_view(self.lifetime),
            expires_in_seconds: self.expires_in_seconds,
        }
    }
}

/// The members of a grant request's text that the grant is read from: the
/// member names (`None` when the JSON value is no object), the four string
/// members, and `expires_in_seconds` when it is a non-negative integer; or
/// the text of the JSON error.
pub open spec fn grant_request_members(text: Seq<char>) -> Result<GrantRequestView, Seq<char>> {
    match json_members(text) {
        Err(e) => Err(e),
        Ok(m) => Ok(
            GrantRequestView {
                keys: body_keys(m),
                capability_id: body_text(m, "capability_id"@),
                grant_scope: body_text(m, "grant_scope"@),
                resource: body_text(m, "resource"@),
                lifetime: body_text(m, "lifetime"@),
                expires_in_seconds: body_unsigned(m, "expires_in_seconds"@),
            },
        ),
    }
}

fn parse_grant_request_json(text: &str) -> (r: Result<GrantRequestJson, String>)
    ensures
        match r {
            Ok(j) => grant_request_members(text@) == Ok::<GrantRequestView, Seq<char>>(j@),
            Err(e) => grant_request_members(text@) == Err::<GrantRequestView, Seq<char>>(e@),
        },
{
    let members = read_json_members(text)?;
    let keys = body_member_names(&members);
    let j = GrantRequestJson {
        keys,
        capability_id: text_member(&members, "capability_id"),
        grant_scope: text_member(&members, "grant_scope"),
        resource: text_member(&members, "resource"),
        lifetime: text_member(&members, "lifetime"),
        expires_in_seconds: unsigned_member(&members, "expires_in_seconds"),
    };
    assert(j@.keys == body_keys(opt_members_view(members)));
    Ok(j)
}

/// A required string member: present, a string, and not blank.
pub open spec fn required_member(o: Option<Seq<char>>, key: Seq<char>) -> Result<Seq<char>, ApiErrorView> {
    match o {
        Some(v) => if blank(v) {
            Err(api_error(422, "Unprocessable Entity"@, "invalid_runtime_grant"@, key + " is required"@))
        } else {
            Ok(v)
        },
        None => Err(api_error(422, "Unprocessable Entity"@, "invalid_runtime_grant"@, key + " is required"@)),
    }
}

fn required_non_empty_string(o: &Option<String>, key: &str) -> (r: Result<String, ApiError>)
    ensures
        match r {
            Ok(v) => required_member(crate::text::opt_view(*o), key@) == Ok::<Seq<char>, ApiErrorView>(v@),
            Err(e) => required_member(crate::text::opt_view(*o), key@) == Err::<Seq<char>, ApiErrorView>(e@),
        },
{
    match o {
        Some(v) => {
            if str_is_blank(v.as_str()) {
                let mut m = owned(key);
                push_str(&mut m, " is required");
                Err(make_api_error(422, "Unprocessable Entity", "invalid_runtime_grant", m))
            } else {
                Ok(v.clone())
            }
        },
        None => {
            let mut m = owned(key);
            push_str(&mut m, " is required");
            Err(make_api_error(422, "Unprocessable Entity", "invalid_runtime_grant", m))
        },
    }
}

/// The grant a request body asks for, given the clock reading: the body
/// must be UTF-8 JSON with only the known members, the four strings are
/// required, the lifetime is `execution` or `session`, and the grant
/// expires `expires_in_seconds` (one hour by default) from now, saturating.
pub open spec fn grant_request_outcome(body: Seq<u8>, clock: Result<u64, Seq<char>>) -> Result<GrantView, ApiErrorView> {
    if !vstd::utf8::valid_utf8(body) {
        Err(
            api_error(
                400,
                "Bad Request"@,
                "invalid_request"@,
                "request body is not valid UTF-8: "@ + crate::http::utf8_error_text(body),
            ),
        )
    } else {
        match grant_request_members(vstd::utf8::decode_utf8(body)) {
            Err(e) => Err(api_error(400, "Bad Request"@, "invalid_request"@, "invalid JSON body: "@ + e)),
            Ok(j) => match unknown_fields_error(
                j.keys,
                runtime_grant_fields(),
                "invalid_request"@,
                "runtime grant body must be a JSON object"@,
                "runtime grant"@,
            ) {
                Some(e) => Err(e),
                None => match (
                    required_member(j.capability_id, "capability_id"@),
                    required_member(j.grant_scope, "grant_scope"@),
                    required_member(j.resource, "resource"@),
                    required_member(j.lifetime, "lifetime"@),
                ) {
                    (Err(e), _, _, _) => Err(e),
                    (Ok(_), Err(e), _, _) => Err(e),
                    (Ok(_), Ok(_), Err(e), _) => Err(e),
                    (Ok(_), Ok(_), Ok(_), Err(e)) => Err(e),
                    (Ok(c), Ok(s), Ok(res), Ok(l)) => {
                        if l != "execution"@ && l != "session"@ {
                            Err(
                                api_error(
                                    422,
                                    "Unprocessable Entity"@,
                                    "invalid_grant_lifetime"@,
                                    "lifetime must be execution or session (got "@ + l + ")"@,
                                ),
                            )
                        } else {
                            match clock {
                                Err(e) => Err(
                                    api_error(
                                        500,
                                        "Internal Server Error"@,
                                        "internal_error"@,
                                        "failed to read system time: "@ + e,
                                    ),
                                ),
                                Ok(now) => {
                                    let ttl: nat = match j.expires_in_seconds {
                                        Some(t) => t as nat,
                                        None => 3600,
                                    };
                                    let expires: nat = if now + ttl > u64::MAX {
                                        u64::MAX as nat
                                    } else {
                                        (now + ttl) as nat
                                    };
                                    Ok(
                                        GrantView {
                                            grant_id: Seq::empty(),
                                            capability_id: c,
                                            grant_scope: s,
                                            resource: res,
                                            lifetime: if l == "execution"@ {
                                                RuntimeGrantLifetime::Execution
                                            } else {
                                                RuntimeGrantLifetime::Session
                                            },
                                            approved_by: Seq::empty(),
                                            granted_at: "unix:"@ + decimal(now as nat),
                                            expires_at: "unix:"@ + decimal(expires),
                                        },
                                    )
                                },
                            }
                        }
                    },
                },
            },
        }
    }
}

pub open spec fn grant_outcome_is(r: Result<RuntimeGrantRecord, ApiError>, o: Result<GrantView, ApiErrorView>) -> bool {
    match r {
        Ok(g) => o == Ok::<GrantView, ApiErrorView>(g@),
        Err(e) => o == Err::<GrantView, ApiErrorView>(e@),
    }
}

/// Reads the grant a runtime-grant request asks for; the clock is read
/// once the request is known to be well formed.
pub fn parse_runtime_grant_request(body: &[u8]) -> (r: Result<RuntimeGrantRecord, ApiError>)
    ensures
        exists|clock: Result<u64, Seq<char>>| grant_outcome_is(r, grant_request_outcome(body@, clock)),
{
    let text = match crate::http::utf8_text(body) {
        Ok(t) => t,
        Err(e) => {
            let mut m = owned("request body is not valid UTF-8: ");
            push_str(&mut m, e.as_str());
            let err = make_api_error(400, "Bad Request", "invalid_request", m);
            assert(grant_outcome_is(Err(err), grant_request_outcome(body@, Ok(0))));
            return Err(err);
        },
    };
    let j = match parse_grant_request_json(text.as_str()) {
        Ok(j) => j,
        Err(e) => {
            let mut m = owned("invalid JSON body: ");
            push_str(&mut m, e.as_str());
            let err = make_api_error(400, "Bad Request", "invalid_request", m);
            assert(grant_outcome_is(Err(err), grant_request_outcome(body@, Ok(0))));
            return Err(err);
        },
    };
    if let Err(e) = reject_unknown_runtime_grant_fields(j.keys.as_ref()) {
        assert(grant_outcome_is(Err(e), grant_request_outcome(body@, Ok(0))));
        return Err(e);
    }
    let capability_id = match required_non_empty_string(&j.capability_id, "capability_id") {
        Ok(v) => v,
        Err(e) => {
            assert(grant_outcome_is(Err(e), grant_request_outcome(body@, Ok(0))));
            return Err(e);
        },
    };
    let grant_scope = match required_non_empty_string(&j.grant_scope, "grant_scope") {
        Ok(v) => v,
        Err(e) => {
            assert(grant_outcome_is(Err(e), grant_request_outcome(body@, Ok(0))));
            return Err(e);
        },
    };
    let resource = match required_non_empty_string(&j.resource, "resource") {
        Ok(v) => v,
        Err(e) => {
            assert(grant_outcome_is(Err(e), grant_request_outcome(body@, Ok(0))));
            return Err(e);
        },
    };
    let lifetime_text = match required_non_empty_string(&j.lifetime, "lifetime") {
        Ok(v) => v,
        Err(e) => {
            assert(grant_outcome_is(Err(e), grant_request_outcome(body@, Ok(0))));
            return Err(e);
        },
    };
    let lifetime = if str_equals(lifetime_text.as_str(), "execution") {
        RuntimeGrantLifetime::Execution
    } else if str_equals(lifetime_text.as_str(), "session") {
        RuntimeGrantLifetime::Session
    } else {
        let mut m = owned("lifetime must be execution or session (got ");
        push_str(&mut m, lifetime_text.as_str());
        push_str(&mut m, ")");
        let err = make_api_error(422, "Unprocessable Entity", "invalid_grant_lifetime", m);
        assert(grant_outcome_is(Err(err), grant_request_outcome(body@, Ok(0))));
        return Err(err);
    };
    let ttl: u64 = match j.expires_in_seconds {
        Some(t) => t,
        None => 3600,
    };
    let reading = crate::availability::unix_seconds_now();
    let now = match reading {
        Ok(s) => s,
        Err(e) => {
            let mut m = owned("failed to read system time: ");
            push_str(&mut m, e.as_str());
            let err = make_api_error(500, "Internal Server Error", "internal_error", m);
            assert(grant_outcome_is(Err(err), grant_request_outcome(body@, Err(e@))));
            return Err(err);
        },
    };
    let expires_at = now.saturating_add(ttl);
    let mut granted_at_text = owned("unix:");
    push_decimal(&mut granted_at_text, now);
    let mut expires_at_text = owned("unix:");
    push_decimal(&mut expires_at_text, expires_at);
    let g = RuntimeGrantRecord {
        grant_id: String::new(),
        capability_id,
        grant_scope,
        resource,
        lifetime,
        approved_by: String::new(),
        granted_at: granted_at_text,
        expires_at: expires_at_text,
    };
    assert(grant_outcome_is(Ok(g), grant_request_outcome(body@, Ok(now))));
    Ok(g)
}

} // verus!

verus! {

/// The workspace a registration body is for: the path's, which a
/// `workspace_id` member of the body must then match, or else the body's
/// non-blank `workspace_id`; either way a valid workspace id.
pub open spec fn registration_workspace(body_workspace_id: Option<Seq<char>>, path_workspace_id: Option<Seq<char>>) -> Result<Seq<char>, ApiErrorView> {
    let chosen: Result<Seq<char>, ApiErrorView> = match path_workspace_id {
        Some(p) => match body_workspace_id {
            Some(b) => if b != p {
                Err(api_error(400, "Bad Request"@, "invalid_workspace_id"@, "body workspace_id must match URL workspace_id"@))
            } else {
                Ok(p)
            },
            None => Ok(p),
        },
        None => match body_workspace_id {
            Some(b) => if blank(b) {
                Err(api_error(400, "Bad Request"@, "workspace_id_required"@, "workspace_id is required"@))
            } else {
                Ok(b)
            },
            None => Err(api_error(400, "Bad Request"@, "workspace_id_required"@, "workspace_id is required"@)),
        },
    };
    match chosen {
        Err(e) => Err(e),
        Ok(w) => match crate::auth::workspace_id_error(w) {
            Some(m) => Err(api_error(400, "Bad Request"@, "invalid_workspace_id"@, m)),
            None => Ok(w),
        },
    }
}

/// `body_workspace_id` is the body's `workspace_id` member when it is a
/// string.
pub fn registration_workspace_id(body_workspace_id: Option<&str>, path_workspace_id: Option<&str>) -> (r: Result<String, ApiError>)
    ensures
        match (r, registration_workspace(crate::routes::opt_str_view(body_workspace_id), crate::routes::opt_str_view(path_workspace_id))) {
            (Ok(w), Ok(v)) => w@ == v,
            (Err(e), Err(v)) => e@ == v,
            _ => false,
        },
{
    let workspace_id = match path_workspace_id {
        Some(p) => {
            if let Some(b) = body_workspace_id {
                if !str_equals(b, p) {
                    return Err(make_api_error(400, "Bad Request", "invalid_workspace_id",
                        owned("body workspace_id must match URL workspace_id")));
                }
            }
            owned(p)
        },
        None => match body_workspace_id {
            Some(b) => {
                if str_is_blank(b) {
                    return Err(make_api_error(400, "Bad Request", "workspace_id_required", owned("workspace_id is required")));
                }
                owned(b)
            },
            None => return Err(make_api_error(400, "Bad Request", "workspace_id_required", owned("workspace_id is required"))),
        },
    };
    match crate::auth::validate_workspace_id(workspace_id.as_str()) {
        Ok(()) => Ok(workspace_id),
        Err(m) => Err(make_api_error(400, "Bad Request", "invalid_workspace_id", m)),
    }
}

/// The checks of a bundle registration body before its artifacts are read,
/// in the order they are made: only `workspace_id`, `scope` and `bundle` may
/// stand in the body, its workspace must be the path's, its scope must be
/// known (422 otherwise), and a `bundle` object holding only
/// `capabilities`, `event_contracts` and `workflows` must be there.  `bundle`
/// is `None` when the member is absent, `Some(None)` when it is not an
/// object.
pub open spec fn bundle_registration_head(
    body_keys: Option<Seq<Seq<char>>>,
    body_workspace_id: Option<Seq<char>>,
    path_workspace_id: Seq<char>,
    scope: MemberValue,
    bundle: Option<Option<Seq<Seq<char>>>>,
) -> Result<RegistrationScope, ApiErrorView> {
    match unknown_fields_error(
        body_keys,
        bundle_registration_fields(),
        "invalid_request"@,
        "bundle registration body must be a JSON object"@,
        "bundle registration"@,
    ) {
        Some(e) => Err(e),
        None => match registration_workspace(body_workspace_id, Some(path_workspace_id)) {
            Err(e) => Err(e),
            Ok(_) => match registration_scope_of(scope) {
                Err(m) => Err(api_error(422, "Unprocessable Entity"@, "invalid_scope"@, m)),
                Ok(s) => match bundle {
                    None => Err(api_error(400, "Bad Request"@, "missing_bundle"@, "bundle is required"@)),
                    Some(keys) => match unknown_fields_error(
                        keys,
                        bundle_fields(),
                        "invalid_bundle"@,
                        "bundle must be a JSON object"@,
                        "bundle"@,
                    ) {
                        Some(e) => Err(e),
                        None => Ok(s),
                    },
                },
            },
        },
    }
}

pub open spec fn opt_opt_keys(bundle: Option<Option<&Vec<String>>>) -> Option<Option<Seq<Seq<char>>>> {
    match bundle {
        Some(k) => Some(opt_keys(k)),
        None => None,
    }
}

/// Checks a bundle registration body up to its artifacts and gives the
/// scope its artifacts are registered with.
pub fn parse_bundle_registration_head(
    body_keys: Option<&Vec<String>>,
    body_workspace_id: Option<&str>,
    path_workspace_id: &str,
    scope: &MemberValue,
    bundle: Option<Option<&Vec<String>>>,
) -> (r: Result<RegistrationScope, ApiError>)
    ensures
        match (r, bundle_registration_head(
            opt_keys(body_keys),
            crate::routes::opt_str_view(body_workspace_id),
            path_workspace_id@,
            *scope,
            opt_opt_keys(bundle),
        )) {
            (Ok(s), Ok(t)) => s == t,
            (Err(e), Err(v)) => e@ == v,
            _ => false,
        },
{
    reject_unknown_bundle_registration_wrapper_fields(body_keys)?;
    registration_workspace_id(body_workspace_id, Some(path_workspace_id))?;
    let s = match parse_registration_scope(scope) {
        Ok(s) => s,
        Err(m) => return Err(make_api_error(422, "Unprocessable Entity", "invalid_scope", m)),
    };
    match bundle {
        None => Err(make_api_error(400, "Bad Request", "missing_bundle", owned("bundle is required"))),
        Some(keys) => {
            reject_unknown_bundle_fields(keys)?;
            Ok(s)
        },
    }
}

/// Where a capability registration finds its contract: the body is the
/// contract itself (its `kind` is `capability_contract`), or its `contract`
/// member holds it.
#[derive(Clone, Copy, Debug, PartialEq, Eq, Structural)]
pub enum ContractSource {
    WholeBody,
    ContractMember,
}

/// The checks of a capability registration body before its contract is
/// parsed: the wrapper members (when asked, and only for a body with a
/// `contract` member), the workspace, the scope (422 otherwise), and where
/// the contract is.
pub open spec fn capability_registration_head(
    body_keys: Option<Seq<Seq<char>>>,
    reject_unknown_wrapper: bool,
    body_workspace_id: Option<Seq<char>>,
    path_workspace_id: Option<Seq<char>>,
    scope: MemberValue,
    kind: Option<Seq<char>>,
    has_contract: bool,
) -> Result<(Seq<char>, RegistrationScope, ContractSource), ApiErrorView> {
    let wrapper = if reject_unknown_wrapper && has_contract {
        unknown_fields_error(
            body_keys,
            registration_fields(),
            "invalid_request"@,
            "registration body must be a JSON object"@,
            "registration"@,
        )
    } else {
        None
    };
    match wrapper {
        Some(e) => Err(e),
        None => match registration_workspace(body_workspace_id, path_workspace_id) {
            Err(e) => Err(e),
            Ok(w) => match registration_scope_of(scope) {
                Err(m) => Err(api_error(422, "Unprocessable Entity"@, "invalid_scope"@, m)),
                Ok(s) => if kind == Some("capability_contract"@) {
                    Ok((w, s, ContractSource::WholeBody))
                } else if has_contract {
                    Ok((w, s, ContractSource::ContractMember))
                } else {
                    Err(api_error(422, "Unprocessable Entity"@, "invalid_contract"@,
                        "expected body to be a capability contract or to contain a `contract` field"@))
                },
            },
        },
    }
}

/// `kind` is the body's `kind` member when it is a string; `has_contract`
/// tells whether the body has a `contract` member.
pub fn parse_capability_registration_head(
    body_keys: Option<&Vec<String>>,
    reject_unknown_wrapper: bool,
    body_workspace_id: Option<&str>,
    path_workspace_id: Option<&str>,
    scope: &MemberValue,
    kind: Option<&str>,
    has_contract: bool,
) -> (r: Result<(String, RegistrationScope, ContractSource), ApiError>)
    ensures
        match (r, capability_registration_head(
            opt_keys(body_keys),
            reject_unknown_wrapper,
            crate::routes::opt_str_view(body_workspace_id),
            crate::routes::opt_str_view(path_workspace_id),
            *scope,
            crate::routes::opt_str_view(kind),
            has_contract,
        )) {
            (Ok((w, s, c)), Ok((v, t, d))) => w@ == v && s == t && c == d,
            (Err(e), Err(v)) => e@ == v,
            _ => false,
        },
{
    if reject_unknown_wrapper && has_contract {
        reject_unknown_registration_wrapper_fields(body_keys)?;
    }
    let workspace_id = registration_workspace_id(body_workspace_id, path_workspace_id)?;
    let s = match parse_registration_scope(scope) {
        Ok(s) => s,
        Err(m) => return Err(make_api_error(422, "Unprocessable Entity", "invalid_scope", m)),
    };
    let is_contract = match kind {
        Some(k) => str_equals(k, "capability_contract"),
        None => false,
    };
    if is_contract {
        Ok((workspace_id, s, ContractSource::WholeBody))
    } else if has_contract {
        Ok((workspace_id, s, ContractSource::ContractMember))
    } else {
        Err(make_api_error(422, "Unprocessable Entity", "invalid_contract",
            owned("expected body to be a capability contract or to contain a `contract` field")))
    }
}

/// The checks of an event contract registration body before its contract is
/// parsed: wrapper members, workspace, scope (422 otherwise), and an
/// `event_contract` member (422 otherwise).
pub open spec fn event_registration_head(
    body_keys: Option<Seq<Seq<char>>>,
    body_workspace_id: Option<Seq<char>>,
    path_workspace_id: Seq<char>,
    scope: MemberValue,
    has_event_contract: bool,
) -> Result<RegistrationScope, ApiErrorView> {
    match unknown_fields_error(
        body_keys,
        event_registration_fields(),
        "invalid_request"@,
        "event registration body must be a JSON object"@,
        "event registration"@,
    ) {
        Some(e) => Err(e),
        None => match registration_workspace(body_workspace_id, Some(path_workspace_id)) {
            Err(e) => Err(e),
            Ok(_) => match registration_scope_of(scope) {
                Err(m) => Err(api_error(422, "Unprocessable Entity"@, "invalid_scope"@, m)),
                Ok(s) => if has_event_contract {
                    Ok(s)
                } else {
                    Err(api_error(422, "Unprocessable Entity"@, "invalid_event_contract"@, "event_contract is required"@))
                },
            },
        },
    }
}

pub fn parse_event_registration_head(
    body_keys: Option<&Vec<String>>,
    body_workspace_id: Option<&str>,
    path_workspace_id: &str,
    scope: &MemberValue,
    has_event_contract: bool,
) -> (r: Result<RegistrationScope, ApiError>)
    ensures
        match (r, event_registration_head(
            opt_keys(body_keys),
            crate::routes::opt_str_view(body_workspace_id),
            path_workspace_id@,
            *scope,
            has_event_contract,
        )) {
            (Ok(s), Ok(t)) => s == t,
            (Err(e), Err(v)) => e@ == v,
            _ => false,
        },
{
    reject_unknown_event_registration_wrapper_fields(body_keys)?;
    registration_workspace_id(body_workspace_id, Some(path_workspace_id))?;
    let s = match parse_registration_scope(scope) {
        Ok(s) => s,
        Err(m) => return Err(make_api_error(422, "Unprocessable Entity", "invalid_scope", m)),
    };
    if has_event_contract {
        Ok(s)
    } else {
        Err(make_api_error(422, "Unprocessable Entity", "invalid_event_contract", owned("event_contract is required")))
    }
}

/// A workflow registration reads its scope leniently: a `scope` that is not
/// a string counts as absent.
pub open spec fn workflow_scope_of(scope: Option<Seq<char>>) -> Result<RegistrationScope, Seq<char>> {
    match scope {
        None => Ok(RegistrationScope::WorkspacePersisted),
        Some(t) => if t == "workspace_persisted"@ {
            Ok(RegistrationScope::WorkspacePersisted)
        } else if t == "session_ephemeral"@ {
            Ok(RegistrationScope::SessionEphemeral)
        } else {
            Err("scope must be workspace_persisted or session_ephemeral (got "@ + t + ")"@)
        },
    }
}

/// The registry a workflow goes to when its body names none: the system
/// workspace's workflows are public, every other workspace's private.
pub open spec fn workflow_registry_scope(registry_scope: Option<Seq<char>>, workspace_id: Seq<char>) -> Seq<char> {
    match registry_scope {
        Some(r) => r,
        None => if workspace_id == "system"@ {
            "public"@
        } else {
            "private"@
        },
    }
}

/// The checks of a workflow registration body before its definition is
/// parsed: wrapper members (when asked), workspace, scope (422 otherwise),
/// and a `workflow` member (400 otherwise); with the workspace, scope and
/// registry scope the workflow is filed under.
pub open spec fn workflow_registration_head(
    body_keys: Option<Seq<Seq<char>>>,
    reject_unknown_wrapper: bool,
    body_workspace_id: Option<Seq<char>>,
    path_workspace_id: Option<Seq<char>>,
    scope: Option<Seq<char>>,
    registry_scope: Option<Seq<char>>,
    has_workflow: bool,
) -> Result<(Seq<char>, RegistrationScope, Seq<char>), ApiErrorView> {
    let wrapper = if reject_unknown_wrapper {
        unknown_fields_error(
            body_keys,
            workflow_registration_fields(),
            "invalid_request"@,
            "workflow registration body must be a JSON object"@,
            "workflow registration"@,
        )
    } else {
        None
    };
    match wrapper {
        Some(e) => Err(e),
        None => match registration_workspace(body_workspace_id, path_workspace_id) {
            Err(e) => Err(e),
            Ok(w) => match workflow_scope_of(scope) {
                Err(m) => Err(api_error(422, "Unprocessable Entity"@, "invalid_scope"@, m)),
                Ok(s) => if has_workflow {
                    Ok((w, s, workflow_registry_scope(registry_scope, w)))
                } else {
                    Err(api_error(400, "Bad Request"@, "missing_workflow"@, "workflow is required"@))
                },
            },
        },
    }
}

/// `scope` and `registry_scope` are the body's members of those names when
/// they are strings; `has_workflow` tells whether it has a `workflow`
/// member.
pub fn parse_workflow_registration_head(
    body_keys: Option<&Vec<String>>,
    reject_unknown_wrapper: bool,
    body_workspace_id: Option<&str>,
    path_workspace_id: Option<&str>,
    scope: Option<&str>,
    registry_scope: Option<&str>,
    has_workflow: bool,
) -> (r: Result<(String, RegistrationScope, String), ApiError>)
    ensures
        match (r, workflow_registration_head(
            opt_keys(body_keys),
            reject_unknown_wrapper,
            crate::routes::opt_str_view(body_workspace_id),
            crate::routes::opt_str_view(path_workspace_id),
            crate::routes::opt_str_view(scope),
            crate::routes::opt_str_view(registry_scope),
            has_workflow,
        )) {
            (Ok((w, s, g)), Ok((v, t, h))) => w@ == v && s == t && g@ == h,
            (Err(e), Err(v)) => e@ == v,
            _ => false,
        },
{
    if reject_unknown_wrapper {
        reject_unknown_workflow_registration_wrapper_fields(body_keys)?;
    }
    let workspace_id = registration_workspace_id(body_workspace_id, path_workspace_id)?;
    let s = match scope {
        None => RegistrationScope::WorkspacePersisted,
        Some(t) => {
            if str_equals(t, "workspace_persisted") {
                RegistrationScope::WorkspacePersisted
            } else if str_equals(t, "session_ephemeral") {
                RegistrationScope::SessionEphemeral
            } else {
                let mut m = owned("scope must be workspace_persisted or session_ephemeral (got ");
                push_str(&mut m, t);
                push_str(&mut m, ")");
                assert(m@ =~= "scope must be workspace_persisted or session_ephemeral (got "@ + t@ + ")"@);
                return Err(make_api_error(422, "Unprocessable Entity", "invalid_scope", m));
            }
        },
    };
    if !has_workflow {
        return Err(make_api_error(400, "Bad Request", "missing_workflow", owned("workflow is required")));
    }
    let filed = match registry_scope {
        Some(r) => owned(r),
        None => {
            if str_equals(workspace_id.as_str(), crate::http::SYSTEM_WORKSPACE_ID) {
                owned("public")
            } else {
                owned("private")
            }
        },
    };
    Ok((workspace_id, s, filed))
}

/// A registration body read as JSON: UTF-8 text, then a JSON value, whose
/// members (none when it is no object) the checks read.
pub open spec fn json_body(body: Seq<u8>) -> Result<Option<Seq<(Seq<char>, MemberShapeView)>>, ApiErrorView> {
    if !vstd::utf8::valid_utf8(body) {
        Err(api_error(400, "Bad Request"@, "invalid_request"@,
            "request body is not valid UTF-8: "@ + crate::http::utf8_error_text(body)))
    } else {
        match json_members(vstd::utf8::decode_utf8(body)) {
            Err(e) => Err(api_error(400, "Bad Request"@, "invalid_request"@, "invalid JSON body: "@ + e)),
            Ok(m) => Ok(m),
        }
    }
}

fn read_json_body(body: &[u8]) -> (r: Result<Option<Vec<(String, MemberShape)>>, ApiError>)
    ensures
        match (r, json_body(body@)) {
            (Ok(m), Ok(v)) => opt_members_view(m) == v,
            (Err(e), Err(v)) => e@ == v,
            _ => false,
        },
{
    let text = match crate::http::utf8_text(body) {
        Ok(t) => t,
        Err(e) => {
            let mut m = owned("request body is not valid UTF-8: ");
            push_str(&mut m, e.as_str());
            return Err(make_api_error(400, "Bad Request", "invalid_request", m));
        },
    };
    match read_json_members(text.as_str()) {
        Ok(m) => Ok(m),
        Err(e) => {
            let mut m = owned("invalid JSON body: ");
            push_str(&mut m, e.as_str());
            Err(make_api_error(400, "Bad Request", "invalid_request", m))
        },
    }
}

/// `mv` is how the checks take a member: absent, a string, or present but
/// no string.
pub open spec fn member_value_is(mv: MemberValue, shape: Option<MemberShapeView>) -> bool {
    match (mv, shape) {
        (MemberValue::Absent, None) => true,
        (MemberValue::Text(s), Some(MemberShapeView::Text(t))) => s@ == t,
        (MemberValue::NotText, Some(x)) => !(x is Text),
        _ => false,
    }
}

fn member_value(ms: &Option<Vec<(String, MemberShape)>>, key: &str) -> (mv: MemberValue)
    ensures
        member_value_is(mv, body_member(opt_members_view(*ms), key@)),
{
    let found = match ms {
        Some(v) => crate::json_members::find_member(v, key),
        None => None,
    };
    match found {
        None => MemberValue::Absent,
        Some(MemberShape::Text(s)) => MemberValue::Text(s.clone()),
        Some(_) => MemberValue::NotText,
    }
}

/// The `bundle` member as the bundle head takes it: absent, no object, or
/// an object's member names.
pub open spec fn bundle_member_keys(shape: Option<MemberShapeView>) -> Option<Option<Seq<Seq<char>>>> {
    match shape {
        None => None,
        Some(MemberShapeView::Object(keys)) => Some(Some(keys)),
        Some(_) => Some(None),
    }
}

fn as_str_opt(o: &Option<String>) -> (r: Option<&str>)
    ensures
        crate::routes::opt_str_view(r) == crate::text::opt_view(*o),
{
    match o {
        Some(s) => Some(s.as_str()),
        None => None,
    }
}

fn as_ref_opt(o: &Option<Vec<String>>) -> (r: Option<&Vec<String>>)
    ensures
        opt_keys(r) == match *o {
            Some(k) => Some(texts(k@)),
            None => None::<Seq<Seq<char>>>,
        },
{
    match o {
        Some(k) => Some(k),
        None => None,
    }
}

/// Reads a capability registration body and makes its checks up to the
/// contract.
pub fn parse_capability_registration_body(
    body: &[u8],
    path_workspace_id: Option<&str>,
    reject_unknown_wrapper: bool,
) -> (r: Result<(String, RegistrationScope, ContractSource), ApiError>)
    ensures
        match json_body(body@) {
            Err(e) => r matches Err(x) && x@ == e,
            Ok(m) => exists|mv: MemberValue|
                #[trigger] member_value_is(mv, body_member(m, "scope"@)) && match (r, capability_registration_head(
                    body_keys(m),
                    reject_unknown_wrapper,
                    body_text(m, "workspace_id"@),
                    crate::routes::opt_str_view(path_workspace_id),
                    mv,
                    body_text(m, "kind"@),
                    body_member(m, "contract"@) is Some,
                )) {
                    (Ok((w, s, c)), Ok((v, t, d))) => w@ == v && s == t && c == d,
                    (Err(e), Err(v)) => e@ == v,
                    _ => false,
                },
        },
{
    let members = read_json_body(body)?;
    let keys = body_member_names(&members);
    let workspace_id = text_member(&members, "workspace_id");
    let scope = member_value(&members, "scope");
    let kind = text_member(&members, "kind");
    let has_contract = has_member(&members, "contract");
    parse_capability_registration_head(
        as_ref_opt(&keys),
        reject_unknown_wrapper,
        as_str_opt(&workspace_id),
        path_workspace_id,
        &scope,
        as_str_opt(&kind),
        has_contract,
    )
}

/// Reads an event contract registration body and makes its checks up to
/// the contract.
pub fn parse_event_registration_body(body: &[u8], path_workspace_id: &str) -> (r: Result<RegistrationScope, ApiError>)
    ensures
        match json_body(body@) {
            Err(e) => r matches Err(x) && x@ == e,
            Ok(m) => exists|mv: MemberValue|
                #[trigger] member_value_is(mv, body_member(m, "scope"@)) && match (r, event_registration_head(
                    body_keys(m),
                    body_text(m, "workspace_id"@),
                    path_workspace_id@,
                    mv,
                    body_member(m, "event_contract"@) is Some,
                )) {
                    (Ok(s), Ok(t)) => s == t,
                    (Err(e), Err(v)) => e@ == v,
                    _ => false,
                },
        },
{
    let members = read_json_body(body)?;
    let keys = body_member_names(&members);
    let workspace_id = text_member(&members, "workspace_id");
    let scope = member_value(&members, "scope");
    let has_contract = has_member(&members, "event_contract");
    parse_event_registration_head(as_ref_opt(&keys), as_str_opt(&workspace_id), path_workspace_id, &scope, has_contract)
}

/// Reads a workflow registration body and makes its checks up to the
/// definition.
pub fn parse_workflow_registration_body(
    body: &[u8],
    path_workspace_id: Option<&str>,
    reject_unknown_wrapper: bool,
) -> (r: Result<(String, RegistrationScope, String), ApiError>)
    ensures
        match json_body(body@) {
            Err(e) => r matches Err(x) && x@ == e,
            Ok(m) => match (r, workflow_registration_head(
                body_keys(m),
                reject_unknown_wrapper,
                body_text(m, "workspace_id"@),
                crate::routes::opt_str_view(path_workspace_id),
                body_text(m, "scope"@),
                body_text(m, "registry_scope"@),
                body_member(m, "workflow"@) is Some,
            )) {
                (Ok((w, s, g)), Ok((v, t, h))) => w@ == v && s == t && g@ == h,
                (Err(e), Err(v)) => e@ == v,
                _ => false,
            },
        },
{
    let members = read_json_body(body)?;
    let keys = body_member_names(&members);
    let workspace_id = text_member(&members, "workspace_id");
    let scope = text_member(&members, "scope");
    let registry_scope = text_member(&members, "registry_scope");
    let has_workflow = has_member(&members, "workflow");
    parse_workflow_registration_head(
        as_ref_opt(&keys),
        reject_unknown_wrapper,
        as_str_opt(&workspace_id),
        path_workspace_id,
        as_str_opt(&scope),
        as_str_opt(&registry_scope),
        has_workflow,
    )
}

/// Reads a bundle registration body and makes its checks up to the
/// artifacts.
pub fn parse_bundle_registration_body(body: &[u8], path_workspace_id: &str) -> (r: Result<RegistrationScope, ApiError>)
    ensures
        match json_body(body@) {
            Err(e) => r matches Err(x) && x@ == e,
            Ok(m) => exists|mv: MemberValue|
                #[trigger] member_value_is(mv, body_member(m, "scope"@)) && match (r, bundle_registration_head(
                    body_keys(m),
                    body_text(m, "workspace_id"@),
                    path_workspace_id@,
                    mv,
                    bundle_member_keys(body_member(m, "bundle"@)),
                )) {
                    (Ok(s), Ok(t)) => s == t,
                    (Err(e), Err(v)) => e@ == v,
                    _ => false,
                },
        },
{
    let members = read_json_body(body)?;
    let keys = body_member_names(&members);
    let workspace_id = text_member(&members, "workspace_id");
    let scope = member_value(&members, "scope");
    let bundle = match &members {
        Some(v) => crate::json_members::find_member(v, "bundle"),
        None => None,
    };
    let bundle_keys = match bundle {
        None => None,
        Some(MemberShape::Object(k)) => Some(Some(k)),
        Some(_) => Some(None),
    };
    assert(opt_opt_keys(bundle_keys) == bundle_member_keys(body_member(opt_members_view(members), "bundle"@)));
    parse_bundle_registration_head(as_ref_opt(&keys), as_str_opt(&workspace_id), path_workspace_id, &scope, bundle_keys)
}

/// The `workspace_id` query parameter, which the request must carry.
pub fn require_workspace_id_query(request: &crate::http::HttpRequest) -> (r: Result<String, ApiError>)
    ensures
        match crate::http::lookup(request@.query, "workspace_id"@) {
            Some(w) => r matches Ok(v) && v@ == w,
            None => r matches Err(e) && e@ == api_error(400, "Bad Request"@, "workspace_id_required"@,
                "workspace_id is required (add ?workspace_id=<id>)"@),
        },
{
    match request.query_param("workspace_id") {
        Some(w) => Ok(w.clone()),
        None => Err(make_api_error(400, "Bad Request", "workspace_id_required",
            owned("workspace_id is required (add ?workspace_id=<id>)"))),
    }
}

} // verus!

verus! {

/// The artifacts of a bundle as the duplicate check reads them: artifact
/// type, id and version.
pub open spec fn artifact_keys(entries: Seq<(Seq<char>, Seq<char>, Seq<char>)>) -> Seq<Seq<char>> {
    entries.map_values(|e: (Seq<char>, Seq<char>, Seq<char>)| bundle_key(e.0, e.1, e.2))
}

/// The first artifact whose key an earlier artifact has.
pub open spec fn first_duplicate(keys: Seq<Seq<char>>, i: int) -> Option<int>
    decreases keys.len() - i,
{
    if i < 0 || i >= keys.len() {
        None
    } else if keys.take(i).contains(keys[i]) {
        Some(i)
    } else {
        first_duplicate(keys, i + 1)
    }
}

pub open spec fn tagged(artifact_type: Seq<char>, pairs: Seq<(String, String)>) -> Seq<(Seq<char>, Seq<char>, Seq<char>)> {
    pairs.map_values(|p: (String, String)| (artifact_type, p.0@, p.1@))
}

/// The artifacts of a bundle in checking order: capabilities, event
/// contracts, workflows.
pub open spec fn bundle_artifacts(
    capabilities: Seq<(String, String)>,
    events: Seq<(String, String)>,
    workflows: Seq<(String, String)>,
) -> Seq<(Seq<char>, Seq<char>, Seq<char>)> {
    tagged("capability"@, capabilities) + tagged("event_contract"@, events) + tagged("workflow"@, workflows)
}

fn check_tagged(
    seen: &mut Vec<String>,
    artifact_type: &str,
    pairs: &Vec<(String, String)>,
    Ghost(done): Ghost<Seq<(Seq<char>, Seq<char>, Seq<char>)>>,
) -> (r: Result<(), ApiError>)
    requires
        texts(old(seen)@) == artifact_keys(done),
        first_duplicate(artifact_keys(done), 0) is None,
    ensures
        ({
            let all = done + tagged(artifact_type@, pairs@);
            match r {
                Ok(()) => first_duplicate(artifact_keys(all), 0) is None && texts(final(seen)@) == artifact_keys(all),
                Err(e) => match first_duplicate(artifact_keys(all), 0) {
                    Some(i) => e@ == duplicate_artifact_error(all[i].0, all[i].1, all[i].2),
                    None => false,
                },
            }
        }),
{
    let ghost t = tagged(artifact_type@, pairs@);
    let mut i: usize = 0;
    proof {
        assert(done + t.take(0) =~= done);
    }
    while i < pairs.len()
        invariant
            i <= pairs@.len(),
            t == tagged(artifact_type@, pairs@),
            texts(seen@) == artifact_keys(done + t.take(i as int)),
            first_duplicate(artifact_keys(done + t.take(i as int)), 0) is None,
        decreases pairs.len() - i,
    {
        let ghost cur = done + t.take(i as int);
        let ghost next = done + t.take(i + 1);
        proof {
            assert(next =~= cur.push((artifact_type@, pairs@[i as int].0@, pairs@[i as int].1@)));
            lemma_first_duplicate_push(artifact_keys(cur), bundle_key(artifact_type@, pairs@[i as int].0@, pairs@[i as int].1@));
            assert(artifact_keys(next) =~= artifact_keys(cur).push(bundle_key(artifact_type@, pairs@[i as int].0@, pairs@[i as int].1@)));
        }
        match reject_duplicate_bundle_key(seen, artifact_type, pairs[i].0.as_str(), pairs[i].1.as_str()) {
            Ok(()) => {},
            Err(e) => {
                proof {
                    let all = done + t;
                    assert(next =~= all.take(next.len() as int));
                    assert(artifact_keys(next) =~= artifact_keys(all).take(next.len() as int));
                    lemma_first_duplicate_prefix(artifact_keys(next), artifact_keys(all), cur.len() as int);
                    assert(all[cur.len() as int] == next[cur.len() as int]);
                }
                return Err(e);
            },
        }
        i = i + 1;
    }
    proof {
        assert(t.take(i as int) =~= t);
    }
    Ok(())
}

proof fn lemma_first_duplicate_ge(keys: Seq<Seq<char>>, i: int)
    ensures
        match first_duplicate(keys, i) {
            Some(j) => i <= j < keys.len() && 0 <= j,
            None => true,
        },
    decreases keys.len() - i,
{
    if 0 <= i < keys.len() && !keys.take(i).contains(keys[i]) {
        lemma_first_duplicate_ge(keys, i + 1);
    }
}

proof fn lemma_first_duplicate_from(keys: Seq<Seq<char>>, i: int)
    requires
        0 <= i <= keys.len(),
        forall|j: int| 0 <= j < i ==> !keys.take(j).contains(#[trigger] keys[j]),
    ensures
        first_duplicate(keys, 0) == first_duplicate(keys, i),
    decreases i,
{
    if i > 0 {
        lemma_first_duplicate_from(keys, i - 1);
    }
}

proof fn lemma_first_duplicate_none(keys: Seq<Seq<char>>, i: int)
    requires
        0 <= i <= keys.len(),
        first_duplicate(keys, i) is None,
    ensures
        forall|j: int| i <= j < keys.len() ==> !keys.take(j).contains(#[trigger] keys[j]),
    decreases keys.len() - i,
{
    if i < keys.len() {
        lemma_first_duplicate_none(keys, i + 1);
    }
}

proof fn lemma_first_duplicate_push(keys: Seq<Seq<char>>, k: Seq<char>)
    requires
        first_duplicate(keys, 0) is None,
    ensures
        keys.contains(k) ==> first_duplicate(keys.push(k), 0) == Some(keys.len() as int),
        !keys.contains(k) ==> first_duplicate(keys.push(k), 0) is None,
{
    let p = keys.push(k);
    lemma_first_duplicate_none(keys, 0);
    assert forall|j: int| 0 <= j < keys.len() implies !p.take(j).contains(#[trigger] p[j]) by {
        assert(p.take(j) =~= keys.take(j));
        assert(p[j] == keys[j]);
    }
    lemma_first_duplicate_from(p, keys.len() as int);
    assert(p.take(keys.len() as int) =~= keys);
    assert(p[keys.len() as int] == k);
    assert(first_duplicate(p, keys.len() as int + 1) is None);
}

proof fn lemma_first_duplicate_prefix(a: Seq<Seq<char>>, b: Seq<Seq<char>>, n: int)
    requires
        0 <= n < a.len() <= b.len(),
        a == b.take(a.len() as int),
        first_duplicate(a, 0) == Some(n),
    ensures
        first_duplicate(b, 0) == Some(n),
{
    lemma_first_duplicate_ge(a, 0);
    assert forall|j: int| 0 <= j < n implies !b.take(j).contains(#[trigger] b[j]) by {
        lemma_first_duplicate_scan(a, 0, n);
        assert(a.take(j) =~= b.take(j));
        assert(a[j] == b[j]);
    }
    lemma_first_duplicate_from(b, n);
    lemma_first_duplicate_scan(a, 0, n);
    assert(a.take(n) =~= b.take(n));
    assert(a[n] == b[n]);
}

proof fn lemma_first_duplicate_scan(keys: Seq<Seq<char>>, i: int, n: int)
    requires
        0 <= i <= n,
        first_duplicate(keys, i) == Some(n),
    ensures
        forall|j: int| i <= j < n ==> !keys.take(j).contains(#[trigger] keys[j]),
        0 <= n < keys.len(),
        keys.take(n).contains(keys[n]),
    decreases n - i,
{
    lemma_first_duplicate_ge(keys, i);
    if i < n {
        if keys.take(i).contains(keys[i]) {
            assert(first_duplicate(keys, i) == Some(i));
        }
        lemma_first_duplicate_scan(keys, i + 1, n);
    } else {
        lemma_first_duplicate_ge(keys, n + 1);
        if !keys.take(n).contains(keys[n]) {
            assert(first_duplicate(keys, n) == first_duplicate(keys, n + 1));
        }
    }
}

/// Refuses a bundle that holds an artifact twice (same type, id and
/// version), naming the first repeated one in checking order.
pub fn reject_internal_bundle_duplicates(
    capabilities: &Vec<(String, String)>,
    events: &Vec<(String, String)>,
    workflows: &Vec<(String, String)>,
) -> (r: Result<(), ApiError>)
    ensures
        ({
            let all = bundle_artifacts(capabilities@, events@, workflows@);
            match first_duplicate(artifact_keys(all), 0) {
                None => r is Ok,
                Some(i) => r matches Err(e) && e@ == duplicate_artifact_error(all[i].0, all[i].1, all[i].2),
            }
        }),
{
    let mut seen: Vec<String> = Vec::new();
    let ghost none: Seq<(Seq<char>, Seq<char>, Seq<char>)> = Seq::empty();
    proof {
        assert(texts(seen@) =~= artifact_keys(none));
    }
    let ghost a = tagged("capability"@, capabilities@);
    let ghost b = tagged("event_contract"@, events@);
    let ghost c = tagged("workflow"@, workflows@);
    match check_tagged(&mut seen, "capability", capabilities, Ghost(none)) {
        Ok(()) => {},
        Err(e) => {
            proof {
                assert(none + a =~= a);
                let all = a + b + c;
                assert(all =~= bundle_artifacts(capabilities@, events@, workflows@));
                assert(artifact_keys(a) =~= artifact_keys(all).take(a.len() as int));
                lemma_prefix_duplicate(artifact_keys(a), artifact_keys(all));
                let n = first_duplicate(artifact_keys(a), 0).unwrap();
                lemma_first_duplicate_ge(artifact_keys(a), 0);
                assert(all[n] == a[n]);
            }
            return Err(e);
        },
    }
    assert(none + a =~= a);
    match check_tagged(&mut seen, "event_contract", events, Ghost(a)) {
        Ok(()) => {},
        Err(e) => {
            proof {
                let all = a + b + c;
                assert(all =~= bundle_artifacts(capabilities@, events@, workflows@));
                assert(artifact_keys(a + b) =~= artifact_keys(all).take((a + b).len() as int));
                lemma_prefix_duplicate(artifact_keys(a + b), artifact_keys(all));
                let n = first_duplicate(artifact_keys(a + b), 0).unwrap();
                lemma_first_duplicate_ge(artifact_keys(a + b), 0);
                assert(all[n] == (a + b)[n]);
            }
            return Err(e);
        },
    }
    let r = check_tagged(&mut seen, "workflow", workflows, Ghost(a + b));
    proof {
        assert(a + b + c =~= bundle_artifacts(capabilities@, events@, workflows@));
    }
    r
}

proof fn lemma_prefix_duplicate(a: Seq<Seq<char>>, b: Seq<Seq<char>>)
    requires
        a.len() <= b.len(),
        a =~= b.take(a.len() as int),
        first_duplicate(a, 0) is Some,
    ensures
        first_duplicate(b, 0) == first_duplicate(a, 0),
{
    let n = first_duplicate(a, 0).unwrap();
    lemma_first_duplicate_ge(a, 0);
    lemma_first_duplicate_scan(a, 0, n);
    lemma_first_duplicate_prefix(a, b, n);
}

} // verus!
