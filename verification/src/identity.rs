//! Who a request comes from: the identity a bearer token yields, the scopes
//! it carries, and which workspaces it may reach.

use vstd::prelude::*;
use serde_json::Value;
use crate::text::{
    blank, chars_of, contains_text, opt_view, owned, push_str, split_whitespace, str_equals, str_is_blank, string_of, texts, ws_tokens,
};
use crate::auth::{
    base64url_decoded, subject_id_error, validate_subject_id, validate_workspace_id,
    workspace_id_error,
};
use crate::http::{
    api_error, make_api_error, ApiError, ApiErrorView, SYSTEM_ADMIN_SUBJECT, SYSTEM_WORKSPACE_ID,
};

verus! {

pub const WORKSPACE_METADATA_SCHEMA_VERSION: &'static str = "1.0.0";

pub const SCOPE_RUNTIME_EXECUTE: &'static str = "runtime:execute";

pub const SCOPE_RUNTIME_TRACE_READ: &'static str = "runtime:trace:read";

pub const SCOPE_RUNTIME_EVENTS_READ: &'static str = "runtime:events:read";

pub const SCOPE_REGISTRY_READ: &'static str = "registry:read";

pub const SCOPE_REGISTRY_WRITE: &'static str = "registry:write";

pub const SCOPE_GRANTS_APPROVE: &'static str = "grants:approve";

/// The caller a request is attributed to.
#[derive(Debug)]
pub struct DerivedIdentity {
    pub subject_id: String,
    pub is_admin: bool,
    pub scopes: Vec<String>,
}

pub struct IdentityView {
    pub subject_id: Seq<char>,
    pub is_admin: bool,
    pub scopes: Seq<Seq<char>>,
}

impl View for DerivedIdentity {
    type V = IdentityView;

    open spec fn view(&self) -> IdentityView {
        IdentityView {
            subject_id: self.subject_id@,
            is_admin: self.is_admin,
            scopes: texts(self.scopes@),
        }
    }
}

/// An admin has every scope; otherwise the scope, or `*`, must be granted.
pub open spec fn has_scope(id: IdentityView, required: Seq<char>) -> bool {
    id.is_admin || id.scopes.contains(required) || id.scopes.contains("*"@)
}

pub fn identity_has_scope(identity: &DerivedIdentity, required_scope: &str) -> (b: bool)
    ensures
        b == has_scope(identity@, required_scope@),
{
    identity.is_admin || contains_text(&identity.scopes, required_scope) || contains_text(
        &identity.scopes,
        "*",
    )
}

/// Scopes are not checked for a trusted local caller, nor for the implicit
/// `local` subject of an unauthenticated loopback listener.
pub fn scopes_optional_for_request(
    allow_unauthenticated: bool,
    loopback: bool,
    identity: &DerivedIdentity,
) -> (b: bool)
    ensures
        b == (loopback || identity@.subject_id == "local"@),
{
    loopback || str_equals(identity.subject_id.as_str(), "local")
}

/// A scope that is neither optional nor granted is refused with 403.
pub fn require_scope(identity: &DerivedIdentity, required_scope: &str, scopes_optional: bool) -> (r: Result<(), ApiError>)
    ensures
        (!scopes_optional && !has_scope(identity@, required_scope@)) ==> (r matches Err(e) && e@
            == api_error(
            403,
            "Forbidden"@,
            "unauthorized"@,
            "missing required scope `"@ + required_scope@ + "`"@,
        )),
        (scopes_optional || has_scope(identity@, required_scope@)) ==> r is Ok,
{
    if !scopes_optional && !identity_has_scope(identity, required_scope) {
        let mut m = owned("missing required scope `");
        push_str(&mut m, required_scope);
        push_str(&mut m, "`");
        return Err(make_api_error(403, "Forbidden", "unauthorized", m));
    }
    Ok(())
}

/// The owner and members of a workspace.
#[derive(Debug)]
pub struct WorkspaceMetadata {
    pub schema_version: String,
    pub workspace_id: String,
    pub owner_subject: String,
    pub shared: bool,
    pub members: Vec<String>,
}

pub struct WorkspaceMetadataView {
    pub schema_version: Seq<char>,
    pub workspace_id: Seq<char>,
    pub owner_subject: Seq<char>,
    pub shared: bool,
    pub members: Seq<Seq<char>>,
}

impl View for WorkspaceMetadata {
    type V = WorkspaceMetadataView;

    open spec fn view(&self) -> WorkspaceMetadataView {
        WorkspaceMetadataView {
            schema_version: self.schema_version@,
            workspace_id: self.workspace_id@,
            owner_subject: self.owner_subject@,
            shared: self.shared,
            members: texts(self.members@),
        }
    }
}

/// Why a request for a workspace is refused before its metadata is read:
/// the `system` workspace needs an admin, and the id must be valid.
pub open spec fn workspace_request_error(workspace_id: Seq<char>, id: IdentityView) -> Option<ApiErrorView> {
    if workspace_id == SYSTEM_WORKSPACE_ID@ && !id.is_admin {
        Some(
            api_error(
                403,
                "Forbidden"@,
                "insufficient_privileges"@,
                "system workspace requires privileged role claim"@,
            ),
        )
    } else {
        match workspace_id_error(workspace_id) {
            Some(m) => Some(api_error(400, "Bad Request"@, "workspace_id_invalid"@, m)),
            None => None,
        }
    }
}

pub fn check_workspace_request(workspace_id: &str, identity: &DerivedIdentity) -> (r: Result<(), ApiError>)
    ensures
        match r {
            Ok(()) => workspace_request_error(workspace_id@, identity@) is None,
            Err(e) => workspace_request_error(workspace_id@, identity@) == Some(e@),
        },
{
    if str_equals(workspace_id, SYSTEM_WORKSPACE_ID) && !identity.is_admin {
        return Err(
            make_api_error(
                403,
                "Forbidden",
                "insufficient_privileges",
                owned("system workspace requires privileged role claim"),
            ),
        );
    }
    match validate_workspace_id(workspace_id) {
        Ok(()) => Ok(()),
        Err(m) => Err(make_api_error(400, "Bad Request", "workspace_id_invalid", m)),
    }
}

/// The metadata of a workspace first reached by `identity`: owned by it,
/// not shared, without members.
pub fn new_workspace_metadata(workspace_id: &str, identity: &DerivedIdentity) -> (m: WorkspaceMetadata)
    ensures
        m@ == (WorkspaceMetadataView {
            schema_version: WORKSPACE_METADATA_SCHEMA_VERSION@,
            workspace_id: workspace_id@,
            owner_subject: identity@.subject_id,
            shared: false,
            members: Seq::empty(),
        }),
{
    let m = WorkspaceMetadata {
        schema_version: owned(WORKSPACE_METADATA_SCHEMA_VERSION),
        workspace_id: owned(workspace_id),
        owner_subject: identity.subject_id.clone(),
        shared: false,
        members: Vec::new(),
    };
    assert(m@.members =~= Seq::<Seq<char>>::empty());
    m
}

/// The owner may use a workspace; so may a member, when it is shared.
pub open spec fn workspace_member(m: WorkspaceMetadataView, subject: Seq<char>) -> bool {
    m.owner_subject == subject || (m.shared && m.members.contains(subject))
}

pub fn authorize_workspace_member(metadata: &WorkspaceMetadata, identity: &DerivedIdentity) -> (r: Result<(), ApiError>)
    ensures
        workspace_member(metadata@, identity@.subject_id) ==> r is Ok,
        !workspace_member(metadata@, identity@.subject_id) ==> (r matches Err(e) && e@ == api_error(
            403,
            "Forbidden"@,
            "unauthorized_workspace"@,
            "subject is not authorized for workspace"@,
        )),
{
    let subject = identity.subject_id.as_str();
    if str_equals(metadata.owner_subject.as_str(), subject) || (metadata.shared && contains_text(
        &metadata.members,
        subject,
    )) {
        return Ok(());
    }
    Err(
        make_api_error(
            403,
            "Forbidden",
            "unauthorized_workspace",
            owned("subject is not authorized for workspace"),
        ),
    )
}

/// A workspace first reached by a caller is usable by that caller.
pub proof fn lemma_new_workspace_admits_creator(m: WorkspaceMetadataView, subject: Seq<char>)
    requires
        m.owner_subject == subject,
        m.shared == false,
    ensures
        workspace_member(m, subject),
{
}


/// What admitting a caller to a workspace decides, given the metadata
/// stored for it (if any): the request's own checks come first; a workspace
/// without metadata gets new metadata owned by the caller, to be stored;
/// otherwise the stored metadata's membership rule decides.
pub struct WorkspaceAdmission {
    pub metadata: WorkspaceMetadata,
    /// The metadata is new and must be stored.
    pub create: bool,
}

pub fn admit_to_workspace(
    workspace_id: &str,
    identity: &DerivedIdentity,
    stored: Option<WorkspaceMetadata>,
) -> (r: Result<WorkspaceAdmission, ApiError>)
    ensures
        match workspace_request_error(workspace_id@, identity@) {
            Some(e) => r matches Err(x) && x@ == e,
            None => match stored {
                None => r matches Ok(a) && a.create && a.metadata@ == (WorkspaceMetadataView {
                    schema_version: WORKSPACE_METADATA_SCHEMA_VERSION@,
                    workspace_id: workspace_id@,
                    owner_subject: identity@.subject_id,
                    shared: false,
                    members: Seq::empty(),
                }),
                Some(m) => if workspace_member(m@, identity@.subject_id) {
                    r matches Ok(a) && !a.create && a.metadata == m
                } else {
                    r matches Err(x) && x@ == api_error(
                        403,
                        "Forbidden"@,
                        "unauthorized_workspace"@,
                        "subject is not authorized for workspace"@,
                    )
                },
            },
        },
        r matches Ok(a) ==> {
            &&& (workspace_id@ != SYSTEM_WORKSPACE_ID@ || identity@.is_admin)
            &&& crate::auth::workspace_id_error(workspace_id@) is None
            &&& workspace_member(a.metadata@, identity@.subject_id)
        },
{
    check_workspace_request(workspace_id, identity)?;
    match stored {
        None => {
            let metadata = new_workspace_metadata(workspace_id, identity);
            proof {
                lemma_new_workspace_admits_creator(metadata@, identity@.subject_id);
            }
            Ok(WorkspaceAdmission { metadata, create: true })
        },
        Some(m) => {
            authorize_workspace_member(&m, identity)?;
            Ok(WorkspaceAdmission { metadata: m, create: false })
        },
    }
}

} // verus!

verus! {

/// The members of a JWT header or payload that this library reads; each is
/// `None` when absent or of another JSON kind, and an array entry is `None`
/// when it is not a string.
#[derive(Debug)]
pub struct JwtJson {
    pub alg: Option<String>,
    pub sub: Option<String>,
    pub exp: Option<i64>,
    pub nbf: Option<i64>,
    pub traverse_admin: Option<bool>,
    pub roles: Option<Vec<Option<String>>>,
    pub role: Option<String>,
    pub scope: Option<String>,
    pub scp: Option<Vec<Option<String>>>,
    pub scopes: Option<Vec<Option<String>>>,
}

pub struct JwtJsonView {
    pub alg: Option<Seq<char>>,
    pub sub: Option<Seq<char>>,
    pub exp: Option<i64>,
    pub nbf: Option<i64>,
    pub traverse_admin: Option<bool>,
    pub roles: Option<Seq<Option<Seq<char>>>>,
    pub role: Option<Seq<char>>,
    pub scope: Option<Seq<char>>,
    pub scp: Option<Seq<Option<Seq<char>>>>,
    pub scopes: Option<Seq<Option<Seq<char>>>>,
}

pub open spec fn opt_texts(o: Option<Vec<Option<String>>>) -> Option<Seq<Option<Seq<char>>>> {
    match o {
        Some(v) => Some(v@.map_values(|x: Option<String>| opt_view(x))),
        None => None,
    }
}

impl View for JwtJson {
    type V = JwtJsonView;

    open spec fn view(&self) -> JwtJsonView {
        JwtJsonView {
            alg: opt_view(self.alg),
            sub: opt_view(self.sub),
            exp: self.exp,
            nbf: self.nbf,
            traverse_admin: self.traverse_admin,
            roles: opt_texts(self.roles),
            role: opt_view(self.role),
            scope: opt_view(self.scope),
            scp: opt_texts(self.scp),
            scopes: opt_texts(self.scopes),
        }
    }
}

/// What `serde_json` makes of a JWT segment's bytes: the members read, or
/// the text of its error.
pub uninterp spec fn jwt_json_members(bytes: Seq<u8>) -> Result<JwtJsonView, Seq<char>>;

/// Calls `serde_json::from_slice::<Value>` and picks, with `Value::get` and
/// `as_str`, `as_i64`, `as_bool` and `as_array`, the members of `JwtJson`.
/// The claim: the outcome, members or error text, is `jwt_json_members` of
/// the bytes; what serde_json accepts as JSON is not stated here.
#[verifier::external_body]
fn parse_jwt_json(bytes: &[u8]) -> (r: Result<JwtJson, String>)
    ensures
        match r {
            Ok(j) => jwt_json_members(bytes@) == Ok::<JwtJsonView, Seq<char>>(j@),
            Err(e) => jwt_json_members(bytes@) == Err::<JwtJsonView, Seq<char>>(e@),
        },
{
    let v: Value = serde_json::from_slice(bytes).map_err(|e| e.to_string())?;
    let text = |k| v.get(k).and_then(Value::as_str).map(str::to_string);
    let list = |k| v.get(k).and_then(Value::as_array)
        .map(|a| a.iter().map(|x| x.as_str().map(str::to_string)).collect());
    Ok(JwtJson { alg: text("alg"), sub: text("sub"), exp: v.get("exp").and_then(Value::as_i64),
        nbf: v.get("nbf").and_then(Value::as_i64), roles: list("roles"), role: text("role"),
        traverse_admin: v.get("traverse_admin").and_then(Value::as_bool), scope: text("scope"),
        scp: list("scp"), scopes: list("scopes") })
}

/// The names that carry the admin role.
pub open spec fn admin_name(s: Seq<char>) -> bool {
    s == "traverse_admin"@ || s == SYSTEM_ADMIN_SUBJECT@
}

/// An entry that is an admin name.
pub open spec fn admin_entry(e: Option<Seq<char>>) -> bool {
    match e {
        Some(s) => admin_name(s),
        None => false,
    }
}

/// An array holding an admin name.
pub open spec fn admin_roles(roles: Option<Seq<Option<Seq<char>>>>) -> bool {
    match roles {
        Some(r) => exists|i: int| 0 <= i < r.len() && admin_entry(#[trigger] r[i]),
        None => false,
    }
}

/// A token claims admin by `traverse_admin: true`, by an admin name in
/// `roles`, or by an admin `role`.
pub open spec fn claims_admin(c: JwtJsonView) -> bool {
    c.traverse_admin == Some(true) || admin_roles(c.roles) || admin_entry(c.role)
}

fn is_admin_name(s: &String) -> (b: bool)
    ensures
        b == admin_name(s@),
{
    str_equals(s.as_str(), "traverse_admin") || str_equals(s.as_str(), SYSTEM_ADMIN_SUBJECT)
}

pub fn jwt_claims_admin(claims: &JwtJson) -> (b: bool)
    ensures
        b == claims_admin(claims@),
{
    if claims.traverse_admin == Some(true) {
        return true;
    }
    if let Some(roles) = &claims.roles {
        let n = roles.len();
        let mut i: usize = 0;
        while i < n
            invariant
                n == roles@.len(),
                claims.roles == Some(*roles),
                i <= n,
                forall|j: int| 0 <= j < i ==> !admin_entry(opt_view(#[trigger] roles@[j])),
            decreases n - i,
        {
            if let Some(s) = &roles[i] {
                if is_admin_name(s) {
                    assert(opt_texts(claims.roles)->0[i as int] == Some(s@));
                    assert(admin_entry(opt_texts(claims.roles)->0[i as int]));
                    return true;
                }
            }
            i = i + 1;
        }
        proof {
            let r = opt_texts(claims.roles)->0;
            assert forall|j: int| 0 <= j < r.len() implies !admin_entry(#[trigger] r[j]) by {
                assert(r[j] == opt_view(roles@[j]));
            }
        }
    }
    match &claims.role {
        Some(s) => is_admin_name(s),
        None => false,
    }
}

/// A scope listed in a `scp` or `scopes` array: a non-blank string entry.
pub open spec fn listed_scope(items: Option<Seq<Option<Seq<char>>>>, x: Seq<char>) -> bool {
    match items {
        Some(v) => exists|i: int| 0 <= i < v.len() && #[trigger] v[i] == Some(x) && !blank(x),
        None => false,
    }
}

/// A word of the space-separated `scope` claim.
pub open spec fn scope_word(scope: Option<Seq<char>>, x: Seq<char>) -> bool {
    match scope {
        Some(s) => ws_tokens(s).contains(x),
        None => false,
    }
}

/// The scopes a token grants: the words of `scope`, and the entries of
/// `scp` and `scopes`.
pub open spec fn claimed_scope(c: JwtJsonView, x: Seq<char>) -> bool {
    ||| scope_word(c.scope, x)
    ||| listed_scope(c.scp, x)
    ||| listed_scope(c.scopes, x)
}

fn add_listed_scopes(out: &mut Vec<String>, items: &Option<Vec<Option<String>>>)
    requires
        crate::text::strictly_sorted(texts(old(out)@)),
    ensures
        crate::text::strictly_sorted(texts(final(out)@)),
        forall|x: Seq<char>| #[trigger] texts(final(out)@).contains(x) <==> (texts(old(out)@).contains(x)
            || listed_scope(opt_texts(*items), x)),
{
    let Some(v) = items else {
        return;
    };
    let ghost o = opt_texts(*items)->0;
    let n = v.len();
    let mut i: usize = 0;
    while i < n
        invariant
            n == v@.len(),
            o == opt_texts(*items)->0,
            items == Some(*v),
            i <= n,
            crate::text::strictly_sorted(texts(out@)),
            forall|x: Seq<char>| #[trigger] texts(out@).contains(x) <==> (texts(old(out)@).contains(x)
                || exists|j: int| 0 <= j < i && #[trigger] o[j] == Some(x) && !blank(x)),
        decreases n - i,
    {
        assert(o[i as int] == opt_view(v@[i as int]));
        if let Some(s) = &v[i] {
            if !str_is_blank(s.as_str()) {
                crate::text::insert_sorted(out, s.clone());
            }
        }
        assert forall|x: Seq<char>| #[trigger] texts(out@).contains(x) <==> (texts(old(out)@).contains(
            x,
        ) || exists|j: int| 0 <= j < i + 1 && #[trigger] o[j] == Some(x) && !blank(x)) by {
            if exists|j: int| 0 <= j < i + 1 && #[trigger] o[j] == Some(x) && !blank(x) {
                let j = choose|j: int| 0 <= j < i + 1 && #[trigger] o[j] == Some(x) && !blank(x);
                if j < i {
                    assert(exists|j: int| 0 <= j < i && #[trigger] o[j] == Some(x) && !blank(x));
                }
            }
        }
        i = i + 1;
    }
}

/// The scopes a token grants, sorted and without repetitions.
pub fn parse_jwt_scopes(claims: &JwtJson) -> (r: Vec<String>)
    ensures
        crate::text::strictly_sorted(texts(r@)),
        forall|x: Seq<char>| #[trigger] texts(r@).contains(x) <==> claimed_scope(claims@, x),
{
    let mut out: Vec<String> = Vec::new();
    assert(texts(out@) =~= Seq::<Seq<char>>::empty());
    if let Some(scope) = &claims.scope {
        let sv = chars_of(scope.as_str());
        let words = split_whitespace(sv.as_slice());
        let ghost w = ws_tokens(scope@);
        let n = words.len();
        let mut i: usize = 0;
        while i < n
            invariant
                n == words@.len(),
                n == w.len(),
                w == ws_tokens(scope@),
                forall|k: int| 0 <= k < n ==> #[trigger] words@[k]@ == w[k],
                i <= n,
                crate::text::strictly_sorted(texts(out@)),
                forall|x: Seq<char>| #[trigger] texts(out@).contains(x) <==> w.take(i as int).contains(x),
            decreases n - i,
        {
            crate::text::insert_sorted(&mut out, string_of(words[i].as_slice()));
            assert forall|x: Seq<char>| #[trigger] texts(out@).contains(x) <==> w.take(i + 1).contains(
                x,
            ) by {
                let wi = w.take(i + 1);
                let wp = w.take(i as int);
                if wi.contains(x) {
                    let k = choose|k: int| 0 <= k < wi.len() && #[trigger] wi[k] == x;
                    if k < i {
                        assert(wp[k] == x);
                    }
                }
                if wp.contains(x) {
                    let k = choose|k: int| 0 <= k < wp.len() && #[trigger] wp[k] == x;
                    assert(wi[k] == x);
                }
                assert(w.take(i + 1)[i as int] == w[i as int]);
            }
            i = i + 1;
        }
        assert(w.take(n as int) =~= w);
    }
    add_listed_scopes(&mut out, &claims.scp);
    add_listed_scopes(&mut out, &claims.scopes);
    out
}

} // verus!

verus! {

/// Why the time claims refuse a token at `now` (seconds since the Unix
/// epoch): `exp` not positive or already past, or `nbf` still ahead.
pub open spec fn time_claims_error(exp: Option<i64>, nbf: Option<i64>, now: int) -> Option<ApiErrorView> {
    if exp matches Some(e) && (e <= 0 || now > e) {
        Some(api_error(401, "Unauthorized"@, "token_expired"@, "token is expired"@))
    } else if nbf matches Some(n) && now < n {
        Some(api_error(401, "Unauthorized"@, "token_not_yet_valid"@, "token is not yet valid"@))
    } else {
        None
    }
}

pub fn check_jwt_time_claims(exp: Option<i64>, nbf: Option<i64>, now: i64) -> (r: Result<(), ApiError>)
    ensures
        match r {
            Ok(()) => time_claims_error(exp, nbf, now as int) is None,
            Err(e) => time_claims_error(exp, nbf, now as int) == Some(e@),
        },
{
    if let Some(e) = exp {
        if e <= 0 || now > e {
            return Err(make_api_error(401, "Unauthorized", "token_expired", owned("token is expired")));
        }
    }
    if let Some(n) = nbf {
        if now < n {
            return Err(
                make_api_error(
                    401,
                    "Unauthorized",
                    "token_not_yet_valid",
                    owned("token is not yet valid"),
                ),
            );
        }
    }
    Ok(())
}

/// The time-claims check given a clock reading (seconds since the Unix
/// epoch, or the clock's error text): no claim needs no clock; a clock
/// error or a reading beyond `i64` is an internal error.
pub open spec fn time_claims_outcome(exp: Option<i64>, nbf: Option<i64>, clock: Result<u64, Seq<char>>) -> Option<ApiErrorView> {
    if exp is None && nbf is None {
        None
    } else {
        match clock {
            Err(e) => Some(
                api_error(
                    500,
                    "Internal Server Error"@,
                    "internal_error"@,
                    "failed to read system time: "@ + e,
                ),
            ),
            Ok(s) => if s > i64::MAX {
                Some(
                    api_error(
                        500,
                        "Internal Server Error"@,
                        "internal_error"@,
                        "system time overflow"@,
                    ),
                )
            } else {
                time_claims_error(exp, nbf, s as int)
            },
        }
    }
}

pub open spec fn clock_view(r: Result<u64, String>) -> Result<u64, Seq<char>> {
    match r {
        Ok(s) => Ok(s),
        Err(e) => Err(e@),
    }
}

/// Checks `exp` and `nbf` against the current time; the clock is read only
/// when one of them is present. The outcome is the one
/// `time_claims_outcome` gives for the reading that came back.
pub fn validate_jwt_time_claims(exp: Option<i64>, nbf: Option<i64>) -> (r: Result<(), ApiError>)
    ensures
        exists|clock: Result<u64, Seq<char>>|
            match r {
                Ok(()) => time_claims_outcome(exp, nbf, clock) is None,
                Err(e) => time_claims_outcome(exp, nbf, clock) == Some(e@),
            },
{
    if exp.is_none() && nbf.is_none() {
        assert(time_claims_outcome(exp, nbf, Ok(0)) is None);
        return Ok(());
    }
    let reading = crate::availability::unix_seconds_now();
    let ghost clock = clock_view(reading);
    let now_secs = match reading {
        Ok(s) => s,
        Err(e) => {
            let mut m = owned("failed to read system time: ");
            push_str(&mut m, e.as_str());
            let err = make_api_error(500, "Internal Server Error", "internal_error", m);
            assert(time_claims_outcome(exp, nbf, clock) == Some(err@));
            return Err(err);
        },
    };
    if now_secs > i64::MAX as u64 {
        let err = make_api_error(
            500,
            "Internal Server Error",
            "internal_error",
            owned("system time overflow"),
        );
        assert(time_claims_outcome(exp, nbf, clock) == Some(err@));
        return Err(err);
    }
    let r = check_jwt_time_claims(exp, nbf, now_secs as i64);
    assert(match r {
        Ok(()) => time_claims_outcome(exp, nbf, clock) is None,
        Err(e) => time_claims_outcome(exp, nbf, clock) == Some(e@),
    });
    r
}

/// What `VerifyingKey::from_bytes` makes of 32 key bytes: `None` when it
/// accepts them as an Ed25519 public key, otherwise the text of its error.
pub uninterp spec fn ed25519_key_error(key: Seq<u8>) -> Option<Seq<char>>;

/// Calls `ed25519_dalek::VerifyingKey::from_bytes` on 32 bytes. The claim:
/// the outcome, acceptance or error text, is `ed25519_key_error` of the
/// bytes; which points it accepts is not stated here.
#[verifier::external_body]
fn ed25519_key_check(key: &[u8]) -> (r: Result<(), String>)
    requires
        key@.len() == 32,
    ensures
        match r {
            Ok(()) => ed25519_key_error(key@) is None,
            Err(e) => ed25519_key_error(key@) == Some(e@),
        },
{
    let bytes: [u8; 32] = key.try_into().unwrap_or([0; 32]);
    match ed25519_dalek::VerifyingKey::from_bytes(&bytes) {
        Ok(_) => Ok(()),
        Err(e) => Err(e.to_string()),
    }
}

/// Whether an Ed25519 signature over `message` verifies under `key`.
pub uninterp spec fn ed25519_signature_valid(key: Seq<u8>, message: Seq<u8>, signature: Seq<u8>) -> bool;

/// Calls `ed25519_dalek::VerifyingKey::from_bytes` on the key,
/// `Signature::from_bytes` on the signature and `Verifier::verify` on the
/// message. The claim: the answer is `ed25519_signature_valid` of the three
/// byte strings; the verification equation is not stated here.
#[verifier::external_body]
fn ed25519_verify(key: &[u8], message: &[u8], signature: &[u8]) -> (ok: bool)
    requires
        key@.len() == 32,
        signature@.len() == 64,
    ensures
        ok == ed25519_signature_valid(key@, message@, signature@),
{
    let key: [u8; 32] = key.try_into().unwrap_or([0; 32]);
    let signature: [u8; 64] = signature.try_into().unwrap_or([0; 64]);
    let signature = ed25519_dalek::Signature::from_bytes(&signature);
    match ed25519_dalek::VerifyingKey::from_bytes(&key) {
        Ok(k) => ed25519_dalek::Verifier::verify(&k, message, &signature).is_ok(),
        Err(_) => false,
    }
}

/// A configured Ed25519 public key for JWT signatures: 32 bytes that
/// `VerifyingKey::from_bytes` accepts.
pub struct JwtVerificationKey {
    bytes: Vec<u8>,
}

impl JwtVerificationKey {
    #[verifier::type_invariant]
    spec fn accepted(self) -> bool {
        self.bytes@.len() == 32 && ed25519_key_error(self.bytes@) is None
    }

    pub closed spec fn key_bytes(self) -> Seq<u8> {
        self.bytes@
    }

    /// Whether `signature` over `message` verifies under this key.
    pub fn verify(&self, message: &[u8], signature: &[u8]) -> (ok: bool)
        requires
            signature@.len() == 64,
        ensures
            ok == ed25519_signature_valid(self.key_bytes(), message@, signature@),
    {
        proof {
            use_type_invariant(self);
        }
        ed25519_verify(self.bytes.as_slice(), message, signature)
    }
}

pub open spec fn hex_text_bytes(s: Seq<char>) -> Seq<u8> {
    vstd::utf8::encode_utf8(s)
}

/// Why a hex-encoded verification key is refused, or its bytes.
pub open spec fn verifying_key_bytes(hex: Seq<char>) -> Result<Seq<u8>, Seq<char>> {
    match crate::auth::hex_decoded(hex_text_bytes(hex)) {
        Err(m) => Err("invalid JWT verification key: "@ + m),
        Ok(b) => if b.len() != 32 {
            Err("JWT verification key must be 32 bytes (Ed25519 public key)"@)
        } else {
            match ed25519_key_error(b) {
                Some(e) => Err("invalid Ed25519 verification key: "@ + e),
                None => Ok(b),
            }
        },
    }
}

/// Parses the hex-encoded Ed25519 public key that verifies JWT signatures.
pub fn parse_ed25519_verifying_key(hex: &str) -> (r: Result<JwtVerificationKey, String>)
    ensures
        match r {
            Ok(k) => verifying_key_bytes(hex@) == Ok::<Seq<u8>, Seq<char>>(k.key_bytes()),
            Err(m) => verifying_key_bytes(hex@) == Err::<Seq<u8>, Seq<char>>(m@),
        },
{
    let bytes = match crate::auth::hex_decode(hex) {
        Ok(b) => b,
        Err(m) => {
            let mut e = owned("invalid JWT verification key: ");
            push_str(&mut e, m.as_str());
            return Err(e);
        },
    };
    if bytes.len() != 32 {
        return Err(owned("JWT verification key must be 32 bytes (Ed25519 public key)"));
    }
    match ed25519_key_check(bytes.as_slice()) {
        Ok(()) => Ok(JwtVerificationKey { bytes }),
        Err(m) => {
            let mut e = owned("invalid Ed25519 verification key: ");
            push_str(&mut e, m.as_str());
            Err(e)
        },
    }
}

} // verus!

verus! {

pub open spec fn unauthorized_view(code: Seq<char>, message: Seq<char>) -> ApiErrorView {
    api_error(401, "Unauthorized"@, code, message)
}

/// Why a JWT header is refused: it must decode, parse, and name the `EdDSA`
/// algorithm, the only one allowed.
pub open spec fn header_alg_error(header_b64: Seq<char>) -> Option<ApiErrorView> {
    match base64url_decoded(header_b64) {
        Err(m) => Some(unauthorized_view("unauthorized"@, "invalid JWT header: "@ + m)),
        Ok(b) => match jwt_json_members(b) {
            Err(m) => Some(unauthorized_view("unauthorized"@, "invalid JWT header: "@ + m)),
            Ok(h) => match h.alg {
                None => Some(unauthorized_view("token_alg_not_allowed"@, "JWT header missing 'alg'"@)),
                Some(a) => if a == "EdDSA"@ {
                    None
                } else {
                    Some(
                        unauthorized_view(
                            "token_alg_not_allowed"@,
                            "JWT alg '"@ + a + "' is not allowed; only EdDSA is accepted"@,
                        ),
                    )
                },
            },
        },
    }
}

/// The bytes a JWT signature covers: `header.payload`.
pub open spec fn signing_input(header_b64: Seq<char>, payload_b64: Seq<char>) -> Seq<u8> {
    vstd::utf8::encode_utf8(header_b64 + "."@ + payload_b64)
}

/// Why a JWT signature is refused under `key`.
pub open spec fn signature_error(
    header_b64: Seq<char>,
    payload_b64: Seq<char>,
    signature_b64: Seq<char>,
    key: Seq<u8>,
) -> Option<ApiErrorView> {
    match base64url_decoded(signature_b64) {
        Err(_) => Some(unauthorized_view("signature_verification_failed"@, "invalid JWT signature"@)),
        Ok(sig) => if sig.len() != 64 {
            Some(unauthorized_view("signature_verification_failed"@, "invalid JWT signature"@))
        } else if !ed25519_signature_valid(key, signing_input(header_b64, payload_b64), sig) {
            Some(
                unauthorized_view(
                    "signature_verification_failed"@,
                    "JWT signature verification failed"@,
                ),
            )
        } else {
            None
        },
    }
}

/// Whether the token's signature was verified: with a key it must verify;
/// without one, only the dev auth modes accept the token, unverified.
pub open spec fn jwt_key_step(parts: Seq<Seq<char>>, auth_mode: Seq<char>, key: Option<Seq<u8>>) -> Result<bool, ApiErrorView> {
    match key {
        Some(k) => match signature_error(parts[0], parts[1], parts[2], k) {
            Some(e) => Err(e),
            None => Ok(true),
        },
        None => if crate::http::dev_auth_mode(auth_mode) {
            Ok(false)
        } else {
            Err(
                unauthorized_view(
                    "jwt_verification_unavailable"@,
                    "server has no JWT verification key configured; bearer tokens are rejected"@,
                ),
            )
        },
    }
}

/// The caller a request is attributed to: its subject, whether it is an
/// admin, and the claims its scopes come from (`None`: no scopes).
pub struct IdentityOutcome {
    pub subject: Seq<char>,
    pub is_admin: bool,
    pub claims: Option<JwtJsonView>,
}

pub open spec fn granted(claims: Option<JwtJsonView>, x: Seq<char>) -> bool {
    match claims {
        Some(c) => claimed_scope(c, x),
        None => false,
    }
}

/// An identity is the outcome: same subject and admin flag, and the granted
/// scopes sorted without repetitions.
pub open spec fn identity_is(id: IdentityView, o: IdentityOutcome) -> bool {
    &&& id.subject_id == o.subject
    &&& id.is_admin == o.is_admin
    &&& crate::text::strictly_sorted(id.scopes)
    &&& forall|x: Seq<char>| #[trigger] id.scopes.contains(x) <==> granted(o.claims, x)
}

pub open spec fn missing_sub() -> ApiErrorView {
    unauthorized_view("unauthorized"@, "JWT missing required 'sub' claim"@)
}

/// The identity a JWT payload names once its signature step passed.
pub open spec fn jwt_payload_identity(payload_b64: Seq<char>, verified: bool, clock: Result<u64, Seq<char>>) -> Result<IdentityOutcome, ApiErrorView> {
    match base64url_decoded(payload_b64) {
        Err(m) => Err(unauthorized_view("unauthorized"@, m)),
        Ok(pb) => match jwt_json_members(pb) {
            Err(m) => Err(unauthorized_view("unauthorized"@, "invalid JWT payload: "@ + m)),
            Ok(c) => match c.sub {
                None => Err(missing_sub()),
                Some(s) => if blank(s) {
                    Err(missing_sub())
                } else {
                    match subject_id_error(s) {
                        Some(m) => Err(unauthorized_view("unauthorized"@, m)),
                        None => match time_claims_outcome(c.exp, c.nbf, clock) {
                            Some(e) => Err(e),
                            None => Ok(
                                IdentityOutcome {
                                    subject: s,
                                    is_admin: verified && claims_admin(c),
                                    claims: Some(c),
                                },
                            ),
                        },
                    }
                },
            },
        },
    }
}

/// The identity a JWT bearer token yields, given the clock reading.
/// Admin is only ever granted by a token whose signature verified.
pub open spec fn jwt_identity(token: Seq<char>, auth_mode: Seq<char>, key: Option<Seq<u8>>, clock: Result<u64, Seq<char>>) -> Result<IdentityOutcome, ApiErrorView> {
    let parts = crate::text::split_on(token, '.');
    if parts.len() != 3 {
        Err(unauthorized_view("unauthorized"@, "malformed JWT bearer token"@))
    } else if header_alg_error(parts[0]) is Some {
        Err(header_alg_error(parts[0])->0)
    } else {
        match jwt_key_step(parts, auth_mode, key) {
            Err(e) => Err(e),
            Ok(verified) => jwt_payload_identity(parts[1], verified, clock),
        }
    }
}

pub open spec fn key_view(k: Option<&JwtVerificationKey>) -> Option<Seq<u8>> {
    match k {
        Some(k) => Some(k.key_bytes()),
        None => None,
    }
}

pub open spec fn outcome_is(r: Result<DerivedIdentity, ApiError>, o: Result<IdentityOutcome, ApiErrorView>) -> bool {
    match r {
        Ok(id) => o matches Ok(out) && identity_is(id@, out),
        Err(e) => o == Err::<IdentityOutcome, ApiErrorView>(e@),
    }
}

/// Calls `zeroize::Zeroize::zeroize` on decoded token bytes once they have
/// been read, overwriting them before they are freed.  Nothing is promised
/// of it: the bytes are not used afterwards.
#[verifier::external_body]
fn wipe_secret_bytes(bytes: Vec<u8>) {
    let mut bytes = bytes;
    zeroize::Zeroize::zeroize(&mut bytes);
}

fn check_header_alg(header_b64: &str) -> (r: Result<(), ApiError>)
    ensures
        match r {
            Ok(()) => header_alg_error(header_b64@) is None,
            Err(e) => header_alg_error(header_b64@) == Some(e@),
        },
{
    let bytes = match crate::auth::base64url_decode(header_b64) {
        Ok(b) => b,
        Err(m) => {
            let mut e = owned("invalid JWT header: ");
            push_str(&mut e, m.as_str());
            return Err(crate::http::unauthorized("unauthorized", e));
        },
    };
    let parsed = parse_jwt_json(bytes.as_slice());
    wipe_secret_bytes(bytes);
    let header = match parsed {
        Ok(h) => h,
        Err(m) => {
            let mut e = owned("invalid JWT header: ");
            push_str(&mut e, m.as_str());
            return Err(crate::http::unauthorized("unauthorized", e));
        },
    };
    match &header.alg {
        None => Err(crate::http::unauthorized("token_alg_not_allowed", owned("JWT header missing 'alg'"))),
        Some(a) => {
            if str_equals(a.as_str(), "EdDSA") {
                Ok(())
            } else {
                let mut e = owned("JWT alg '");
                push_str(&mut e, a.as_str());
                push_str(&mut e, "' is not allowed; only EdDSA is accepted");
                Err(crate::http::unauthorized("token_alg_not_allowed", e))
            }
        },
    }
}

fn check_signature(
    header_b64: &str,
    payload_b64: &str,
    signature_b64: &str,
    key: &JwtVerificationKey,
) -> (r: Result<(), ApiError>)
    ensures
        match r {
            Ok(()) => signature_error(header_b64@, payload_b64@, signature_b64@, key.key_bytes()) is None,
            Err(e) => signature_error(header_b64@, payload_b64@, signature_b64@, key.key_bytes())
                == Some(e@),
        },
{
    let sig = match crate::auth::base64url_decode(signature_b64) {
        Ok(s) => s,
        Err(_) => {
            return Err(
                crate::http::unauthorized("signature_verification_failed", owned("invalid JWT signature")),
            );
        },
    };
    if sig.len() != 64 {
        wipe_secret_bytes(sig);
        return Err(
            crate::http::unauthorized("signature_verification_failed", owned("invalid JWT signature")),
        );
    }
    let mut input = owned(header_b64);
    push_str(&mut input, ".");
    push_str(&mut input, payload_b64);
    let verified = key.verify(input.as_str().as_bytes(), sig.as_slice());
    wipe_secret_bytes(sig);
    if !verified {
        return Err(
            crate::http::unauthorized(
                "signature_verification_failed",
                owned("JWT signature verification failed"),
            ),
        );
    }
    Ok(())
}

/// Derives the caller identity from a JWT bearer token. The signature is
/// checked against the configured key before any claim is trusted; in the
/// dev auth modes a token without a configured key is read unverified and
/// never yields an admin; otherwise a missing key refuses every token.
pub fn derive_identity_from_jwt(
    token: &str,
    auth_mode: &str,
    jwt_key: Option<&JwtVerificationKey>,
) -> (r: Result<DerivedIdentity, ApiError>)
    ensures
        exists|clock: Result<u64, Seq<char>>|
            outcome_is(r, jwt_identity(token@, auth_mode@, key_view(jwt_key), clock)),
{
    let tv = chars_of(token);
    let parts = crate::text::split_chars(tv.as_slice(), '.');
    if parts.len() != 3 {
        let e = crate::http::unauthorized("unauthorized", owned("malformed JWT bearer token"));
        assert(outcome_is(Err(e), jwt_identity(token@, auth_mode@, key_view(jwt_key), Ok(0))));
        return Err(e);
    }
    let header_b64 = string_of(parts[0].as_slice());
    let payload_b64 = string_of(parts[1].as_slice());
    let signature_b64 = string_of(parts[2].as_slice());
    let ghost ps = crate::text::split_on(token@, '.');
    assert(header_b64@ == ps[0] && payload_b64@ == ps[1] && signature_b64@ == ps[2]);
    if let Err(e) = check_header_alg(header_b64.as_str()) {
        assert(outcome_is(Err(e), jwt_identity(token@, auth_mode@, key_view(jwt_key), Ok(0))));
        return Err(e);
    }
    let verified = match jwt_key {
        Some(key) => {
            if let Err(e) = check_signature(
                header_b64.as_str(),
                payload_b64.as_str(),
                signature_b64.as_str(),
                key,
            ) {
                assert(outcome_is(Err(e), jwt_identity(token@, auth_mode@, key_view(jwt_key), Ok(0))));
                return Err(e);
            }
            true
        },
        None => {
            if crate::http::is_dev_auth_mode(auth_mode) {
                false
            } else {
                let e = crate::http::unauthorized(
                    "jwt_verification_unavailable",
                    owned("server has no JWT verification key configured; bearer tokens are rejected"),
                );
                assert(outcome_is(Err(e), jwt_identity(token@, auth_mode@, key_view(jwt_key), Ok(0))));
                return Err(e);
            }
        },
    };
    assert(jwt_key_step(ps, auth_mode@, key_view(jwt_key)) == Ok::<bool, ApiErrorView>(verified));
    let r = identity_from_payload(payload_b64.as_str(), verified);
    proof {
        let clock = choose|clock: Result<u64, Seq<char>>|
            outcome_is(r, jwt_payload_identity(payload_b64@, verified, clock));
        assert(outcome_is(r, jwt_identity(token@, auth_mode@, key_view(jwt_key), clock)));
    }
    r
}

fn identity_from_payload(payload_b64: &str, verified: bool) -> (r: Result<DerivedIdentity, ApiError>)
    ensures
        exists|clock: Result<u64, Seq<char>>|
            outcome_is(r, jwt_payload_identity(payload_b64@, verified, clock)),
{
    let payload = match crate::auth::base64url_decode(payload_b64) {
        Ok(p) => p,
        Err(m) => {
            let e = crate::http::unauthorized("unauthorized", m);
            assert(outcome_is(Err(e), jwt_payload_identity(payload_b64@, verified, Ok(0))));
            return Err(e);
        },
    };
    let parsed = parse_jwt_json(payload.as_slice());
    wipe_secret_bytes(payload);
    let claims = match parsed {
        Ok(c) => c,
        Err(m) => {
            let mut msg = owned("invalid JWT payload: ");
            push_str(&mut msg, m.as_str());
            let e = crate::http::unauthorized("unauthorized", msg);
            assert(outcome_is(Err(e), jwt_payload_identity(payload_b64@, verified, Ok(0))));
            return Err(e);
        },
    };
    let subject = match &claims.sub {
        Some(s) => {
            if str_is_blank(s.as_str()) {
                let e = crate::http::unauthorized("unauthorized", owned("JWT missing required 'sub' claim"));
                assert(outcome_is(Err(e), jwt_payload_identity(payload_b64@, verified, Ok(0))));
                return Err(e);
            }
            s.clone()
        },
        None => {
            let e = crate::http::unauthorized("unauthorized", owned("JWT missing required 'sub' claim"));
            assert(outcome_is(Err(e), jwt_payload_identity(payload_b64@, verified, Ok(0))));
            return Err(e);
        },
    };
    if let Err(m) = validate_subject_id(subject.as_str()) {
        let e = crate::http::unauthorized("unauthorized", m);
        assert(outcome_is(Err(e), jwt_payload_identity(payload_b64@, verified, Ok(0))));
        return Err(e);
    }
    let t = validate_jwt_time_claims(claims.exp, claims.nbf);
    let ghost clock = choose|clock: Result<u64, Seq<char>>|
        match t {
            Ok(()) => time_claims_outcome(claims.exp, claims.nbf, clock) is None,
            Err(e) => time_claims_outcome(claims.exp, claims.nbf, clock) == Some(e@),
        };
    if let Err(e) = t {
        assert(outcome_is(Err(e), jwt_payload_identity(payload_b64@, verified, clock)));
        return Err(e);
    }
    let is_admin = verified && jwt_claims_admin(&claims);
    let scopes = parse_jwt_scopes(&claims);
    let id = DerivedIdentity { subject_id: subject, is_admin, scopes };
    assert(outcome_is(Ok(id), jwt_payload_identity(payload_b64@, verified, clock)));
    Ok(id)
}

} // verus!

verus! {

/// The bearer token of the `authorization` header: after `Bearer `,
/// trimmed, and not empty.
pub open spec fn bearer_token(headers: Seq<(Seq<char>, Seq<char>)>) -> Option<Seq<char>> {
    match crate::http::lookup(headers, "authorization"@) {
        Some(v) => match crate::text::strip_prefix(v, "Bearer "@) {
            Some(t) => if crate::text::trimmed(t).len() > 0 {
                Some(crate::text::trimmed(t))
            } else {
                None
            },
            None => None,
        },
        None => None,
    }
}

/// The identity a request yields, given the clock reading. A JWT-shaped
/// bearer token goes through `jwt_identity`; an opaque token names the
/// subject directly, and only in the dev auth modes; without a token only
/// an unauthenticated loopback listener admits the caller, as `local`.
pub open spec fn request_identity(
    headers: Seq<(Seq<char>, Seq<char>)>,
    auth_mode: Seq<char>,
    allow_unauthenticated: bool,
    loopback: bool,
    key: Option<Seq<u8>>,
    clock: Result<u64, Seq<char>>,
) -> Result<IdentityOutcome, ApiErrorView> {
    match bearer_token(headers) {
        Some(t) => if crate::auth::jwt_shaped(t) {
            jwt_identity(t, auth_mode, key, clock)
        } else if !crate::http::dev_auth_mode(auth_mode) {
            Err(unauthorized_view("unauthorized"@, "a signed JWT bearer token is required"@))
        } else {
            match subject_id_error(t) {
                Some(m) => Err(unauthorized_view("unauthorized"@, m)),
                None => Ok(
                    IdentityOutcome {
                        subject: t,
                        is_admin: t == SYSTEM_ADMIN_SUBJECT@,
                        claims: None,
                    },
                ),
            }
        },
        None => if loopback && allow_unauthenticated {
            Ok(IdentityOutcome { subject: "local"@, is_admin: false, claims: None })
        } else {
            Err(unauthorized_view("unauthorized"@, "Bearer token required"@))
        },
    }
}

fn request_bearer_token(headers: &Vec<(String, String)>) -> (r: Option<String>)
    ensures
        opt_view(r) == bearer_token(crate::http::pair_views(headers@)),
{
    let v = match crate::http::find_value(headers, "authorization") {
        Some(v) => v,
        None => {
            return None;
        },
    };
    let vc = chars_of(v.as_str());
    let prefix = chars_of("Bearer ");
    match crate::text::strip_prefix_vec(vc.as_slice(), prefix.as_slice()) {
        Some(t) => {
            let (s, e) = crate::text::trim_bounds(t.as_slice());
            if e > s {
                Some(crate::text::substring(t.as_slice(), s, e))
            } else {
                None
            }
        },
        None => None,
    }
}

/// The identity of the caller of a request.
pub fn subject_from_request(
    headers: &Vec<(String, String)>,
    auth_mode: &str,
    allow_unauthenticated: bool,
    loopback: bool,
    jwt_key: Option<&JwtVerificationKey>,
) -> (r: Result<DerivedIdentity, ApiError>)
    ensures
        exists|clock: Result<u64, Seq<char>>|
            outcome_is(
                r,
                request_identity(
                    crate::http::pair_views(headers@),
                    auth_mode@,
                    allow_unauthenticated,
                    loopback,
                    key_view(jwt_key),
                    clock,
                ),
            ),
{
    let ghost h = crate::http::pair_views(headers@);
    match request_bearer_token(headers) {
        Some(token) => {
            if crate::auth::is_jwt_shaped(token.as_str()) {
                let r = derive_identity_from_jwt(token.as_str(), auth_mode, jwt_key);
                proof {
                    let clock = choose|clock: Result<u64, Seq<char>>|
                        outcome_is(r, jwt_identity(token@, auth_mode@, key_view(jwt_key), clock));
                    assert(outcome_is(
                        r,
                        request_identity(h, auth_mode@, allow_unauthenticated, loopback, key_view(jwt_key), clock),
                    ));
                }
                return r;
            }
            if !crate::http::is_dev_auth_mode(auth_mode) {
                let e = crate::http::unauthorized(
                    "unauthorized",
                    owned("a signed JWT bearer token is required"),
                );
                assert(outcome_is(
                    Err(e),
                    request_identity(h, auth_mode@, allow_unauthenticated, loopback, key_view(jwt_key), Ok(0)),
                ));
                return Err(e);
            }
            if let Err(m) = validate_subject_id(token.as_str()) {
                let e = crate::http::unauthorized("unauthorized", m);
                assert(outcome_is(
                    Err(e),
                    request_identity(h, auth_mode@, allow_unauthenticated, loopback, key_view(jwt_key), Ok(0)),
                ));
                return Err(e);
            }
            let is_admin = str_equals(token.as_str(), SYSTEM_ADMIN_SUBJECT);
            let id = DerivedIdentity { subject_id: token, is_admin, scopes: Vec::new() };
            assert(id@.scopes =~= Seq::<Seq<char>>::empty());
            assert(outcome_is(
                Ok(id),
                request_identity(h, auth_mode@, allow_unauthenticated, loopback, key_view(jwt_key), Ok(0)),
            ));
            Ok(id)
        },
        None => {
            if loopback && allow_unauthenticated {
                let id = DerivedIdentity { subject_id: owned("local"), is_admin: false, scopes: Vec::new() };
                assert(id@.scopes =~= Seq::<Seq<char>>::empty());
                assert(outcome_is(
                    Ok(id),
                    request_identity(h, auth_mode@, allow_unauthenticated, loopback, key_view(jwt_key), Ok(0)),
                ));
                return Ok(id);
            }
            let e = crate::http::unauthorized("unauthorized", owned("Bearer token required"));
            assert(outcome_is(
                Err(e),
                request_identity(h, auth_mode@, allow_unauthenticated, loopback, key_view(jwt_key), Ok(0)),
            ));
            Err(e)
        },
    }
}

/// The configured JWT verification key, if any; a key that does not parse
/// fails the server's start as a bind error. The auth mode and the
/// unauthenticated flag only decide the start-up warning of
/// `warns_missing_verification_key`; a missing key is not an error here but
/// refuses tokens later (fail closed).
pub fn resolve_jwt_verification_key(
    key_hex: Option<&str>,
    auth_mode: &str,
    allow_unauthenticated: bool,
) -> (r: Result<Option<JwtVerificationKey>, crate::http::ServeError>)
    ensures
        match key_hex {
            None => r matches Ok(k) && k is None,
            Some(h) => match verifying_key_bytes(h@) {
                Ok(b) => r matches Ok(k) && k matches Some(key) && key.key_bytes() == b,
                Err(m) => r matches Err(crate::http::ServeError::BindFailed(msg)) && msg@ == m,
            },
        },
{
    match key_hex {
        None => Ok(None),
        Some(h) => match parse_ed25519_verifying_key(h) {
            Ok(k) => Ok(Some(k)),
            Err(m) => Err(crate::http::ServeError::BindFailed(m)),
        },
    }
}

/// A `bearer-required` listener without a key and without unauthenticated
/// access rejects every token; the server warns about it at start.
pub fn warns_missing_verification_key(auth_mode: &str, key_present: bool, allow_unauthenticated: bool) -> (b: bool)
    ensures
        b == (auth_mode@ == "bearer-required"@ && !key_present && !allow_unauthenticated),
{
    str_equals(auth_mode, "bearer-required") && !key_present && !allow_unauthenticated
}

} // verus!

verus! {

/// A JWT read without a verification key never yields an admin, whatever
/// it claims.
pub proof fn lemma_unverified_token_never_admin(
    token: Seq<char>,
    auth_mode: Seq<char>,
    clock: Result<u64, Seq<char>>,
)
    ensures
        jwt_identity(token, auth_mode, None, clock) matches Ok(o) ==> !o.is_admin,
{
}

/// On a network-facing listener (any auth mode but the dev ones) an admin
/// identity only comes from a JWT whose signature verified under the
/// configured key.
pub proof fn lemma_network_admin_needs_verified_signature(
    headers: Seq<(Seq<char>, Seq<char>)>,
    auth_mode: Seq<char>,
    allow_unauthenticated: bool,
    loopback: bool,
    key: Option<Seq<u8>>,
    clock: Result<u64, Seq<char>>,
)
    requires
        !crate::http::dev_auth_mode(auth_mode),
    ensures
        request_identity(headers, auth_mode, allow_unauthenticated, loopback, key, clock) matches Ok(o)
            ==> (o.is_admin ==> signed_bearer(headers, key)),
{
}

/// The request carries a JWT whose signature verifies under `key`.
pub open spec fn signed_bearer(headers: Seq<(Seq<char>, Seq<char>)>, key: Option<Seq<u8>>) -> bool {
    match (key, bearer_token(headers)) {
        (Some(k), Some(t)) => {
            let parts = crate::text::split_on(t, '.');
            parts.len() == 3 && signature_error(parts[0], parts[1], parts[2], k) is None
        },
        _ => false,
    }
}

/// Without a bearer token only an unauthenticated loopback listener admits
/// the caller, and then as the non-admin `local` subject with no scopes.
pub proof fn lemma_tokenless_caller_is_local(
    headers: Seq<(Seq<char>, Seq<char>)>,
    auth_mode: Seq<char>,
    allow_unauthenticated: bool,
    loopback: bool,
    key: Option<Seq<u8>>,
    clock: Result<u64, Seq<char>>,
)
    requires
        bearer_token(headers) is None,
    ensures
        request_identity(headers, auth_mode, allow_unauthenticated, loopback, key, clock) is Ok
            <==> (loopback && allow_unauthenticated),
        request_identity(headers, auth_mode, allow_unauthenticated, loopback, key, clock) matches Ok(o)
            ==> (o.subject == "local"@ && !o.is_admin && o.claims is None),
{
}

} // verus!
