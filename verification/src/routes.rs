//! Parsing of the HTTP/JSON API's request targets: workspace-scoped
//! operation paths, query strings and the listing parameters of the
//! application sessions endpoint.

use vstd::prelude::*;
use crate::text::{
    blank, chars_of, contains_char, has_prefix, is_blank, opt_view, owned, parse_unsigned,
    parse_unsigned_chars, split_once, split_once_vec, starts_with, str_equals, string_of,
    strip_prefix, strip_prefix_vec, strip_suffix, strip_suffix_vec, trim_start_all,
    trim_start_matches,
};

verus! {

/// Every workspace-scoped route starts with this prefix.
pub open spec fn workspaces_prefix() -> Seq<char> {
    "/v1/workspaces/"@
}

/// A route of the form `/v1/workspaces/{workspace_id}{tail}` names a single
/// workspace when the id is not blank and holds no `/`.
pub open spec fn single_segment(path: Seq<char>, tail: Seq<char>) -> Option<Seq<char>> {
    match strip_prefix(path, workspaces_prefix()) {
        None => None,
        Some(rest) => match strip_suffix(rest, tail) {
            None => None,
            Some(id) => if blank(id) || id.contains('/') {
                None
            } else {
                Some(id)
            },
        },
    }
}

/// A route `/v1/workspaces/{workspace_id}{sep}{tail}` split at the first
/// occurrence of `sep`; neither part may be blank and the tail holds no `/`.
pub open spec fn segment_pair(path: Seq<char>, sep: Seq<char>) -> Option<(Seq<char>, Seq<char>)> {
    match strip_prefix(path, workspaces_prefix()) {
        None => None,
        Some(rest) => match split_once(rest, sep) {
            None => None,
            Some((ws, tail)) => if blank(ws) || blank(tail) || tail.contains('/') {
                None
            } else {
                Some((ws, tail))
            },
        },
    }
}

/// A route `/v1/workspaces/{workspace_id}/apps/{app_id}{tail}`; both ids are
/// non-blank and hold no `/`.
pub open spec fn app_segment(path: Seq<char>, tail: Seq<char>) -> Option<(Seq<char>, Seq<char>)> {
    match strip_prefix(path, workspaces_prefix()) {
        None => None,
        Some(rest) => match split_once(rest, "/apps/"@) {
            None => None,
            Some((ws, after)) => match strip_suffix(after, tail) {
                None => None,
                Some(app) => if blank(ws) || blank(app) || ws.contains('/') || app.contains('/') {
                    None
                } else {
                    Some((ws, app))
                },
            },
        },
    }
}

pub open spec fn opt_pair_view(o: Option<(String, String)>) -> Option<(Seq<char>, Seq<char>)> {
    match o {
        Some((a, b)) => Some((a@, b@)),
        None => None,
    }
}

fn single_segment_exec(path: &str, tail: &str) -> (r: Option<String>)
    ensures
        opt_view(r) == single_segment(path@, tail@),
{
    let v = chars_of(path);
    let prefix = chars_of("/v1/workspaces/");
    let t = chars_of(tail);
    let Some(rest) = strip_prefix_vec(v.as_slice(), prefix.as_slice()) else {
        return None;
    };
    let Some(id) = strip_suffix_vec(rest.as_slice(), t.as_slice()) else {
        return None;
    };
    if is_blank(id.as_slice()) || contains_char(id.as_slice(), '/') {
        return None;
    }
    Some(string_of(id.as_slice()))
}

fn segment_pair_exec(path: &str, sep: &str) -> (r: Option<(String, String)>)
    ensures
        opt_pair_view(r) == segment_pair(path@, sep@),
{
    let v = chars_of(path);
    let prefix = chars_of("/v1/workspaces/");
    let p = chars_of(sep);
    let Some(rest) = strip_prefix_vec(v.as_slice(), prefix.as_slice()) else {
        return None;
    };
    let Some((ws, tail)) = split_once_vec(rest.as_slice(), p.as_slice()) else {
        return None;
    };
    if is_blank(ws.as_slice()) || is_blank(tail.as_slice()) || contains_char(tail.as_slice(), '/') {
        return None;
    }
    Some((string_of(ws.as_slice()), string_of(tail.as_slice())))
}

fn app_segment_exec(path: &str, tail: &str) -> (r: Option<(String, String)>)
    ensures
        opt_pair_view(r) == app_segment(path@, tail@),
{
    let v = chars_of(path);
    let prefix = chars_of("/v1/workspaces/");
    let apps = chars_of("/apps/");
    let t = chars_of(tail);
    let Some(rest) = strip_prefix_vec(v.as_slice(), prefix.as_slice()) else {
        return None;
    };
    let Some((ws, after)) = split_once_vec(rest.as_slice(), apps.as_slice()) else {
        return None;
    };
    let Some(app) = strip_suffix_vec(after.as_slice(), t.as_slice()) else {
        return None;
    };
    if is_blank(ws.as_slice()) || is_blank(app.as_slice()) || contains_char(ws.as_slice(), '/')
        || contains_char(app.as_slice(), '/') {
        return None;
    }
    Some((string_of(ws.as_slice()), string_of(app.as_slice())))
}

/// `POST /v1/workspaces/{workspace_id}/execute`.
pub fn workspace_execute_path(path: &str) -> (r: Option<String>)
    ensures
        opt_view(r) == single_segment(path@, "/execute"@),
{
    single_segment_exec(path, "/execute")
}

/// `POST /v1/workspaces/{workspace_id}/capabilities`.
pub fn workspace_capabilities_path(path: &str) -> (r: Option<String>)
    ensures
        opt_view(r) == single_segment(path@, "/capabilities"@),
{
    single_segment_exec(path, "/capabilities")
}

/// `POST /v1/workspaces/{workspace_id}/event-contracts`.
pub fn workspace_event_contracts_path(path: &str) -> (r: Option<String>)
    ensures
        opt_view(r) == single_segment(path@, "/event-contracts"@),
{
    single_segment_exec(path, "/event-contracts")
}

/// `POST /v1/workspaces/{workspace_id}/workflows`.
pub fn workspace_workflows_path(path: &str) -> (r: Option<String>)
    ensures
        opt_view(r) == single_segment(path@, "/workflows"@),
{
    single_segment_exec(path, "/workflows")
}

/// `POST /v1/workspaces/{workspace_id}/bundles`.
pub fn workspace_bundles_path(path: &str) -> (r: Option<String>)
    ensures
        opt_view(r) == single_segment(path@, "/bundles"@),
{
    single_segment_exec(path, "/bundles")
}

/// `POST /v1/workspaces/{workspace_id}/runtime-grants`.
pub fn workspace_runtime_grants_path(path: &str) -> (r: Option<String>)
    ensures
        opt_view(r) == single_segment(path@, "/runtime-grants"@),
{
    single_segment_exec(path, "/runtime-grants")
}

/// `GET /v1/workspaces/{workspace_id}/executions/{execution_id}`.
pub fn workspace_execution_status_path(path: &str) -> (r: Option<(String, String)>)
    ensures
        opt_pair_view(r) == segment_pair(path@, "/executions/"@),
{
    segment_pair_exec(path, "/executions/")
}

/// `GET /v1/workspaces/{workspace_id}/traces/{execution_id}`.
pub fn workspace_trace_path(path: &str) -> (r: Option<(String, String)>)
    ensures
        opt_pair_view(r) == segment_pair(path@, "/traces/"@),
{
    segment_pair_exec(path, "/traces/")
}

/// `GET /v1/workspaces/{workspace_id}/apps/{app_id}/events`.
pub fn workspace_app_events_path(path: &str) -> (r: Option<(String, String)>)
    ensures
        opt_pair_view(r) == app_segment(path@, "/events"@),
{
    app_segment_exec(path, "/events")
}

/// `POST /v1/workspaces/{workspace_id}/apps/{app_id}/commands`.
pub fn workspace_app_commands_path(path: &str) -> (r: Option<(String, String)>)
    ensures
        opt_pair_view(r) == app_segment(path@, "/commands"@),
{
    app_segment_exec(path, "/commands")
}

/// `GET /v1/workspaces/{workspace_id}/apps/{app_id}/sessions`.
pub fn workspace_app_sessions_path(path: &str) -> (r: Option<(String, String)>)
    ensures
        opt_pair_view(r) == app_segment(path@, "/sessions"@),
{
    app_segment_exec(path, "/sessions")
}

} // verus!

verus! {

/// The kind of a workspace-scoped API operation.
#[derive(Clone, Copy, Debug, PartialEq, Eq, Structural)]
pub enum OperationKind {
    Execute,
    RegisterCapability,
    RegisterEventContract,
    RegisterWorkflow,
    RegisterBundle,
    ApproveRuntimeGrant,
    ExecutionStatus,
    Trace,
    AppEvents,
    AppSessions,
    AppCommands,
}

/// A workspace-scoped operation with its path parameters.
#[derive(Clone, Debug, PartialEq, Eq)]
pub enum WorkspaceOperation {
    Execute(String),
    RegisterCapability(String),
    RegisterEventContract(String),
    RegisterWorkflow(String),
    RegisterBundle(String),
    ApproveRuntimeGrant(String),
    ExecutionStatus(String, String),
    Trace(String, String),
    AppEvents(String, String),
    AppSessions(String, String),
    AppCommands(String, String),
}

impl WorkspaceOperation {
    /// The kind and parameters; single-parameter operations carry an empty
    /// second parameter.
    pub open spec fn view_parts(self) -> (OperationKind, Seq<char>, Seq<char>) {
        match self {
            WorkspaceOperation::Execute(w) => (OperationKind::Execute, w@, Seq::empty()),
            WorkspaceOperation::RegisterCapability(w) => (OperationKind::RegisterCapability, w@, Seq::empty()),
            WorkspaceOperation::RegisterEventContract(w) => (OperationKind::RegisterEventContract, w@, Seq::empty()),
            WorkspaceOperation::RegisterWorkflow(w) => (OperationKind::RegisterWorkflow, w@, Seq::empty()),
            WorkspaceOperation::RegisterBundle(w) => (OperationKind::RegisterBundle, w@, Seq::empty()),
            WorkspaceOperation::ApproveRuntimeGrant(w) => (OperationKind::ApproveRuntimeGrant, w@, Seq::empty()),
            WorkspaceOperation::ExecutionStatus(w, e) => (OperationKind::ExecutionStatus, w@, e@),
            WorkspaceOperation::Trace(w, e) => (OperationKind::Trace, w@, e@),
            WorkspaceOperation::AppEvents(w, a) => (OperationKind::AppEvents, w@, a@),
            WorkspaceOperation::AppSessions(w, a) => (OperationKind::AppSessions, w@, a@),
            WorkspaceOperation::AppCommands(w, a) => (OperationKind::AppCommands, w@, a@),
        }
    }
}

pub open spec fn single_op(kind: OperationKind, id: Option<Seq<char>>) -> Option<(OperationKind, Seq<char>, Seq<char>)> {
    match id {
        Some(w) => Some((kind, w, Seq::empty())),
        None => None,
    }
}

pub open spec fn pair_op(kind: OperationKind, ids: Option<(Seq<char>, Seq<char>)>) -> Option<(OperationKind, Seq<char>, Seq<char>)> {
    match ids {
        Some((a, b)) => Some((kind, a, b)),
        None => None,
    }
}

/// `Option::or`: the first present value.
pub open spec fn first_some<T>(a: Option<T>, b: Option<T>) -> Option<T> {
    if a is Some {
        a
    } else {
        b
    }
}

/// Which workspace operation a request names: `POST` tries execute,
/// capabilities, event contracts, workflows, bundles, runtime grants and app
/// commands in that order; `GET` tries execution status, traces, app events
/// and app sessions; every other method names none.
pub open spec fn workspace_operation(method: Seq<char>, path: Seq<char>) -> Option<(OperationKind, Seq<char>, Seq<char>)> {
    if method == "POST"@ {
        first_some(single_op(OperationKind::Execute, single_segment(path, "/execute"@)),
        first_some(single_op(OperationKind::RegisterCapability, single_segment(path, "/capabilities"@)),
        first_some(single_op(OperationKind::RegisterEventContract, single_segment(path, "/event-contracts"@)),
        first_some(single_op(OperationKind::RegisterWorkflow, single_segment(path, "/workflows"@)),
        first_some(single_op(OperationKind::RegisterBundle, single_segment(path, "/bundles"@)),
        first_some(single_op(OperationKind::ApproveRuntimeGrant, single_segment(path, "/runtime-grants"@)),
        pair_op(OperationKind::AppCommands, app_segment(path, "/commands"@))))))))
    } else if method == "GET"@ {
        first_some(pair_op(OperationKind::ExecutionStatus, segment_pair(path, "/executions/"@)),
        first_some(pair_op(OperationKind::Trace, segment_pair(path, "/traces/"@)),
        first_some(pair_op(OperationKind::AppEvents, app_segment(path, "/events"@)),
        pair_op(OperationKind::AppSessions, app_segment(path, "/sessions"@)))))
    } else {
        None
    }
}

pub open spec fn opt_operation_view(o: Option<WorkspaceOperation>) -> Option<(OperationKind, Seq<char>, Seq<char>)> {
    match o {
        Some(op) => Some(op.view_parts()),
        None => None,
    }
}

/// Resolves the workspace-scoped operation that `method` and `path` name.
pub fn workspace_operation_path(method: &str, path: &str) -> (r: Option<WorkspaceOperation>)
    ensures
        opt_operation_view(r) == workspace_operation(method@, path@),
{
    if str_equals(method, "POST") {
        if let Some(w) = workspace_execute_path(path) {
            return Some(WorkspaceOperation::Execute(w));
        }
        if let Some(w) = workspace_capabilities_path(path) {
            return Some(WorkspaceOperation::RegisterCapability(w));
        }
        if let Some(w) = workspace_event_contracts_path(path) {
            return Some(WorkspaceOperation::RegisterEventContract(w));
        }
        if let Some(w) = workspace_workflows_path(path) {
            return Some(WorkspaceOperation::RegisterWorkflow(w));
        }
        if let Some(w) = workspace_bundles_path(path) {
            return Some(WorkspaceOperation::RegisterBundle(w));
        }
        if let Some(w) = workspace_runtime_grants_path(path) {
            return Some(WorkspaceOperation::ApproveRuntimeGrant(w));
        }
        if let Some((w, a)) = workspace_app_commands_path(path) {
            return Some(WorkspaceOperation::AppCommands(w, a));
        }
        None
    } else if str_equals(method, "GET") {
        if let Some((w, e)) = workspace_execution_status_path(path) {
            return Some(WorkspaceOperation::ExecutionStatus(w, e));
        }
        if let Some((w, e)) = workspace_trace_path(path) {
            return Some(WorkspaceOperation::Trace(w, e));
        }
        if let Some((w, a)) = workspace_app_events_path(path) {
            return Some(WorkspaceOperation::AppEvents(w, a));
        }
        if let Some((w, a)) = workspace_app_sessions_path(path) {
            return Some(WorkspaceOperation::AppSessions(w, a));
        }
        None
    } else {
        None
    }
}

/// The handler a request is dispatched to.
#[derive(Clone, Debug, PartialEq, Eq)]
pub enum Route {
    Health,
    ListCapabilities,
    RegisterCapability,
    Execute,
    Workspace(WorkspaceOperation),
    RegisterWorkflow,
    ListWorkflows,
    GetWorkflow(String),
    NotFound,
}

/// The route table of the HTTP/JSON API, tried top to bottom.
pub open spec fn route_matches(method: Seq<char>, path: Seq<char>, r: Route) -> bool {
    if method == "GET"@ && path == "/healthz"@ {
        r is Health
    } else if method == "GET"@ && path == "/v1/capabilities"@ {
        r is ListCapabilities
    } else if method == "POST"@ && path == "/v1/capabilities/register"@ {
        r is RegisterCapability
    } else if method == "POST"@ && path == "/v1/capabilities/execute"@ {
        r is Execute
    } else if workspace_operation(method, path) is Some {
        r matches Route::Workspace(op) && Some(op.view_parts()) == workspace_operation(method, path)
    } else if method == "POST"@ && path == "/v1/workflows/register"@ {
        r is RegisterWorkflow
    } else if method == "GET"@ && path == "/v1/workflows"@ {
        r is ListWorkflows
    } else if method == "GET"@ && has_prefix(path, "/v1/workflows/"@) {
        r matches Route::GetWorkflow(id) && id@ == trim_start_all(path, "/v1/workflows/"@)
    } else {
        r is NotFound
    }
}

/// Dispatches a request line to its handler.
pub fn route_request(method: &str, path: &str) -> (r: Route)
    ensures
        route_matches(method@, path@, r),
{
    let get = str_equals(method, "GET");
    let post = str_equals(method, "POST");
    if get && str_equals(path, "/healthz") {
        return Route::Health;
    }
    if get && str_equals(path, "/v1/capabilities") {
        return Route::ListCapabilities;
    }
    if post && str_equals(path, "/v1/capabilities/register") {
        return Route::RegisterCapability;
    }
    if post && str_equals(path, "/v1/capabilities/execute") {
        return Route::Execute;
    }
    if let Some(op) = workspace_operation_path(method, path) {
        return Route::Workspace(op);
    }
    if post && str_equals(path, "/v1/workflows/register") {
        return Route::RegisterWorkflow;
    }
    if get && str_equals(path, "/v1/workflows") {
        return Route::ListWorkflows;
    }
    let pv = chars_of(path);
    let prefix = chars_of("/v1/workflows/");
    if get && starts_with(pv.as_slice(), prefix.as_slice()) {
        return Route::GetWorkflow(trim_start_matches(path, "/v1/workflows/"));
    }
    Route::NotFound
}

/// Ordering of the sessions listing.
#[derive(Clone, Copy, Debug, PartialEq, Eq, Structural)]
pub enum SessionsOrder {
    CreatedAsc,
    CreatedDesc,
}

/// `order` query parameter: `created_desc` when absent.
pub open spec fn sessions_order(value: Option<Seq<char>>) -> Option<SessionsOrder> {
    let v = match value {
        Some(v) => v,
        None => "created_desc"@,
    };
    if v == "created_asc"@ {
        Some(SessionsOrder::CreatedAsc)
    } else if v == "created_desc"@ {
        Some(SessionsOrder::CreatedDesc)
    } else {
        None
    }
}

pub open spec fn opt_str_view(o: Option<&str>) -> Option<Seq<char>> {
    match o {
        Some(s) => Some(s@),
        None => None,
    }
}

/// Parses the `order` parameter of the sessions listing.
pub fn parse_sessions_order(value: Option<&str>) -> (r: Result<SessionsOrder, String>)
    ensures
        match r {
            Ok(o) => sessions_order(opt_str_view(value)) == Some(o),
            Err(_) => sessions_order(opt_str_view(value)) is None,
        },
{
    let v = match value {
        Some(v) => v,
        None => "created_desc",
    };
    if str_equals(v, "created_asc") {
        Ok(SessionsOrder::CreatedAsc)
    } else if str_equals(v, "created_desc") {
        Ok(SessionsOrder::CreatedDesc)
    } else {
        let mut msg = owned("unsupported sessions order '");
        crate::text::push_str(&mut msg, v);
        crate::text::push_str(&mut msg, "' (expected created_asc or created_desc)");
        Err(msg)
    }
}

/// The `limit` parameter of the sessions listing: 50 when absent, otherwise
/// a decimal number from 1 to 200.
pub open spec fn sessions_limit(value: Option<Seq<char>>) -> Option<nat> {
    match value {
        None => Some(50),
        Some(v) => match parse_unsigned(v, usize::MAX as nat) {
            Some(n) => if 1 <= n <= 200 {
                Some(n)
            } else {
                None
            },
            None => None,
        },
    }
}

/// Parses the `limit` parameter of the sessions listing.
pub fn parse_sessions_limit(value: Option<&str>) -> (r: Result<usize, String>)
    ensures
        match r {
            Ok(n) => sessions_limit(opt_str_view(value)) == Some(n as nat),
            Err(_) => sessions_limit(opt_str_view(value)) is None,
        },
{
    let Some(value) = value else {
        return Ok(50);
    };
    let v = chars_of(value);
    let Some(limit) = parse_unsigned_chars(v.as_slice(), usize::MAX as u64) else {
        return Err(owned("limit must be a positive integer"));
    };
    if limit == 0 || limit > 200 {
        return Err(owned("limit must be between 1 and 200"));
    }
    Ok(limit as usize)
}

} // verus!

verus! {

/// A `Prefer` header asks for an asynchronous answer when one of its
/// comma-separated parts is `respond-async`; a body asks for one with the
/// string member `mode` set to `async`.
pub open spec fn prefers_async(prefer: Option<Seq<char>>, body_mode: Option<Seq<char>>) -> bool {
    let header = match prefer {
        Some(p) => exists|k: int| 0 <= k < crate::text::split_on(p, ',').len()
            && crate::text::trimmed(#[trigger] crate::text::split_on(p, ',')[k]) == "respond-async"@,
        None => false,
    };
    header || body_mode == Some("async"@)
}

/// Splitting on a comma splits each side of a comma on its own.
pub proof fn lemma_split_on_comma_concat(a: Seq<char>, b: Seq<char>)
    ensures
        crate::text::split_on(a + seq![','] + b, ',') == crate::text::split_on(a, ',') + crate::text::split_on(b, ','),
    decreases b.len(),
{
    let s = a + seq![','] + b;
    if b.len() == 0 {
        assert(s.drop_last() =~= a);
        assert(crate::text::split_on(b, ',') == seq![Seq::<char>::empty()]);
        assert(crate::text::split_on(a, ',').push(Seq::<char>::empty()) =~= crate::text::split_on(a, ',') + seq![Seq::<char>::empty()]);
    } else {
        lemma_split_on_comma_concat(a, b.drop_last());
        assert(s.drop_last() =~= a + seq![','] + b.drop_last());
        assert(s.last() == b.last());
        let pa = crate::text::split_on(a, ',');
        let pb = crate::text::split_on(b.drop_last(), ',');
        crate::text::lemma_split_on_nonempty(b.drop_last(), ',');
        if b.last() == ',' {
            assert((pa + pb).push(Seq::<char>::empty()) =~= pa + pb.push(Seq::<char>::empty()));
        } else {
            let q = pa + pb;
            assert(q.last() == pb.last());
            assert(q.update(q.len() - 1, q.last().push(b.last())) =~= pa + pb.update(pb.len() - 1, pb.last().push(b.last())));
        }
    }
}

pub open spec fn async_part(parts: Seq<Seq<char>>) -> bool {
    exists|k: int| 0 <= k < parts.len() && crate::text::trimmed(#[trigger] parts[k]) == "respond-async"@
}

proof fn lemma_async_part_concat(pa: Seq<Seq<char>>, pb: Seq<Seq<char>>)
    ensures
        async_part(pa + pb) == (async_part(pa) || async_part(pb)),
{
    let r = "respond-async"@;
    let q = pa + pb;
    if async_part(q) {
        let k = choose|k: int| 0 <= k < q.len() && crate::text::trimmed(#[trigger] q[k]) == r;
        if k < pa.len() {
            assert(q[k] == pa[k]);
            assert(crate::text::trimmed(pa[k]) == r);
        } else {
            assert(q[k] == pb[k - pa.len()]);
            assert(crate::text::trimmed(pb[k - pa.len()]) == r);
        }
    }
    if async_part(pa) {
        let k = choose|k: int| 0 <= k < pa.len() && crate::text::trimmed(#[trigger] pa[k]) == r;
        assert(q[k] == pa[k]);
        assert(crate::text::trimmed(q[k]) == r);
    }
    if async_part(pb) {
        let k = choose|k: int| 0 <= k < pb.len() && crate::text::trimmed(#[trigger] pb[k]) == r;
        assert(q[pa.len() + k] == pb[k]);
        assert(crate::text::trimmed(q[pa.len() + k]) == r);
    }
}

/// A `Prefer` header asks for an asynchronous answer when either side of
/// any comma does, wherever the `respond-async` part stands: joining two
/// headers with a comma asks for it exactly when one of them does, in
/// either order, and the header `respond-async` alone asks for it.
pub proof fn lemma_prefer_parts_anywhere(a: Seq<char>, b: Seq<char>, body_mode: Option<Seq<char>>)
    ensures
        prefers_async(Some(a + seq![','] + b), body_mode) == (prefers_async(Some(a), body_mode) || prefers_async(
            Some(b),
            body_mode,
        )),
        prefers_async(Some(a + seq![','] + b), body_mode) == prefers_async(Some(b + seq![','] + a), body_mode),
        prefers_async(Some("respond-async"@), body_mode),
{
    let pa = crate::text::split_on(a, ',');
    let pb = crate::text::split_on(b, ',');
    lemma_split_on_comma_concat(a, b);
    lemma_split_on_comma_concat(b, a);
    lemma_async_part_concat(pa, pb);
    lemma_async_part_concat(pb, pa);
    lemma_prefers_async_parts(a + seq![','] + b, body_mode);
    lemma_prefers_async_parts(b + seq![','] + a, body_mode);
    lemma_prefers_async_parts(a, body_mode);
    lemma_prefers_async_parts(b, body_mode);
    lemma_prefers_async_parts("respond-async"@, body_mode);
    proof_respond_async_alone();
    let one = crate::text::split_on("respond-async"@, ',');
    assert(one[0] == "respond-async"@);
    assert(crate::text::trimmed(one[0]) == "respond-async"@);
    assert(async_part(one));
}

proof fn lemma_prefers_async_parts(p: Seq<char>, body_mode: Option<Seq<char>>)
    ensures
        prefers_async(Some(p), body_mode) == (async_part(crate::text::split_on(p, ',')) || body_mode == Some("async"@)),
{
    let parts = crate::text::split_on(p, ',');
    let r = "respond-async"@;
    if async_part(parts) {
        let k = choose|k: int| 0 <= k < parts.len() && crate::text::trimmed(#[trigger] parts[k]) == r;
        assert(crate::text::trimmed(crate::text::split_on(p, ',')[k]) == r);
    }
    if exists|k: int| 0 <= k < crate::text::split_on(p, ',').len() && crate::text::trimmed(#[trigger] crate::text::split_on(p, ',')[k]) == r {
        let k = choose|k: int| 0 <= k < crate::text::split_on(p, ',').len() && crate::text::trimmed(#[trigger] crate::text::split_on(p, ',')[k]) == r;
        assert(crate::text::trimmed(parts[k]) == r);
    }
}

proof fn lemma_split_without_comma(s: Seq<char>)
    requires
        forall|i: int| 0 <= i < s.len() ==> s[i] != ',',
    ensures
        crate::text::split_on(s, ',') == seq![s],
    decreases s.len(),
{
    if s.len() > 0 {
        assert forall|i: int| 0 <= i < s.drop_last().len() implies s.drop_last()[i] != ',' by {
            assert(s.drop_last()[i] == s[i]);
        }
        assert(s.last() == s[s.len() - 1]);
        lemma_split_without_comma(s.drop_last());
        let parts = crate::text::split_on(s.drop_last(), ',');
        assert(parts.len() == 1 && parts.last() == s.drop_last());
        assert(crate::text::split_on(s, ',') == parts.update(0, s.drop_last().push(s.last())));
        assert(s.drop_last().push(s.last()) =~= s);
        assert(parts.update(0, s) =~= seq![s]);
    } else {
        assert(s =~= Seq::<char>::empty());
    }
}

proof fn proof_respond_async_alone()
    ensures
        crate::text::split_on("respond-async"@, ',') == seq!["respond-async"@],
        crate::text::trimmed("respond-async"@) == "respond-async"@,
{
    reveal_strlit("respond-async");
    let s = "respond-async"@;
    lemma_split_without_comma(s);
    crate::text::lemma_lead_ws_exact(s, 0);
    assert(s.skip(0) =~= s);
    crate::text::lemma_trail_ws_exact(s, 0);
    assert(s.take(s.len() as int) =~= s);
}

fn trimmed_is(v: &[char], t: &str) -> (b: bool)
    ensures
        b == (crate::text::trimmed(v@) == t@),
{
    let (start, end) = crate::text::trim_bounds(v);
    let tv = chars_of(t);
    let part = crate::text::slice_vec(v, start, end);
    crate::text::chars_equal(part.as_slice(), tv.as_slice())
}

fn has_respond_async_part(p: &str) -> (b: bool)
    ensures
        b == exists|k: int| 0 <= k < crate::text::split_on(p@, ',').len()
            && crate::text::trimmed(#[trigger] crate::text::split_on(p@, ',')[k]) == "respond-async"@,
{
    let pv = chars_of(p);
    let parts = crate::text::split_chars(pv.as_slice(), ',');
    let mut k: usize = 0;
    while k < parts.len()
        invariant
            k <= parts@.len(),
            pv@ == p@,
            parts@.len() == crate::text::split_on(pv@, ',').len(),
            forall|j: int| 0 <= j < parts@.len() ==> #[trigger] parts@[j]@ == crate::text::split_on(pv@, ',')[j],
            forall|j: int| 0 <= j < k ==> crate::text::trimmed(#[trigger] crate::text::split_on(pv@, ',')[j]) != "respond-async"@,
        decreases parts.len() - k,
    {
        if trimmed_is(parts[k].as_slice(), "respond-async") {
            assert(parts@[k as int]@ == crate::text::split_on(pv@, ',')[k as int]);
            return true;
        }
        k = k + 1;
    }
    false
}

/// Whether a request asks to be answered asynchronously, from its `Prefer`
/// header and the `mode` member of its JSON body.
pub fn request_prefers_async(prefer: Option<&str>, body_mode: Option<&str>) -> (b: bool)
    ensures
        b == prefers_async(opt_str_view(prefer), opt_str_view(body_mode)),
{
    let header = match prefer {
        Some(p) => has_respond_async_part(p),
        None => false,
    };
    let body = match body_mode {
        Some(m) => str_equals(m, "async"),
        None => false,
    };
    header || body
}

/// The links of an execution: its status (also `self`), its trace, and,
/// for an asynchronous one, the events of its status.
pub struct ExecutionLinks {
    pub status: String,
    pub trace: String,
    pub subscription: Option<String>,
}

pub open spec fn execution_status_link(workspace_id: Seq<char>, execution_id: Seq<char>) -> Seq<char> {
    "/v1/workspaces/"@ + workspace_id + "/executions/"@ + execution_id
}

pub fn execution_links(workspace_id: &str, execution_id: &str, include_subscription: bool) -> (r: ExecutionLinks)
    ensures
        r.status@ == execution_status_link(workspace_id@, execution_id@),
        r.trace@ == "/v1/workspaces/"@ + workspace_id@ + "/traces/"@ + execution_id@,
        opt_view(r.subscription) == (if include_subscription {
            Some(execution_status_link(workspace_id@, execution_id@) + "/events"@)
        } else {
            None
        }),
{
    let mut status = owned("/v1/workspaces/");
    crate::text::push_str(&mut status, workspace_id);
    crate::text::push_str(&mut status, "/executions/");
    crate::text::push_str(&mut status, execution_id);
    assert(status@ =~= execution_status_link(workspace_id@, execution_id@));
    let mut trace = owned("/v1/workspaces/");
    crate::text::push_str(&mut trace, workspace_id);
    crate::text::push_str(&mut trace, "/traces/");
    crate::text::push_str(&mut trace, execution_id);
    assert(trace@ =~= "/v1/workspaces/"@ + workspace_id@ + "/traces/"@ + execution_id@);
    let subscription = if include_subscription {
        let mut s = status.clone();
        crate::text::push_str(&mut s, "/events");
        Some(s)
    } else {
        None
    };
    ExecutionLinks { status, trace, subscription }
}

} // verus!
