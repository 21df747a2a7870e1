use traverse_cli::routes::{execution_links, request_prefers_async};
use traverse_cli::routes::{
    parse_sessions_limit, parse_sessions_order, route_request, workspace_app_commands_path,
    workspace_app_events_path, workspace_app_sessions_path, workspace_capabilities_path,
    workspace_execute_path, workspace_execution_status_path, workspace_operation_path,
    workspace_trace_path, Route, SessionsOrder, WorkspaceOperation,
};

#[test]
fn app_events_path_parses_workspace_and_app_id() {
    assert_eq!(
        workspace_app_events_path("/v1/workspaces/ws-test/apps/traverse-starter/events"),
        Some(("ws-test".to_string(), "traverse-starter".to_string()))
    );
    assert!(workspace_app_events_path("/v1/workspaces/ws-test/apps//events").is_none());
    assert!(workspace_app_events_path("/v1/workspaces/ws-test/apps/traverse-starter/other").is_none());
}

#[test]
fn app_commands_path_parses_workspace_and_app_id() {
    assert_eq!(
        workspace_app_commands_path("/v1/workspaces/ws-test/apps/traverse-starter/commands"),
        Some(("ws-test".to_string(), "traverse-starter".to_string()))
    );
    assert!(workspace_app_commands_path("/v1/workspaces/ws-test/apps//commands").is_none());
    assert!(workspace_app_commands_path("/v1/workspaces/ws-test/apps/traverse-starter/other").is_none());
}

#[test]
fn app_sessions_path_parses_workspace_and_app_id() {
    assert_eq!(
        workspace_app_sessions_path("/v1/workspaces/ws-test/apps/traverse-starter/sessions"),
        Some(("ws-test".to_string(), "traverse-starter".to_string()))
    );
    assert!(workspace_app_sessions_path("/v1/workspaces/ws-test/apps//sessions").is_none());
    assert!(workspace_app_sessions_path("/v1/workspaces/ws-test/apps/traverse-starter/other").is_none());
}

#[test]
fn single_segment_paths_take_one_non_empty_workspace_id() {
    assert_eq!(workspace_execute_path("/v1/workspaces/ws-1/execute"), Some("ws-1".to_string()));
    assert_eq!(workspace_execute_path("/v1/workspaces//execute"), None);
    assert_eq!(workspace_execute_path("/v1/workspaces/a/b/execute"), None);
    assert_eq!(workspace_capabilities_path("/v1/workspaces/ws/capabilities"), Some("ws".to_string()));
}

#[test]
fn execution_and_trace_paths_take_two_ids() {
    assert_eq!(
        workspace_execution_status_path("/v1/workspaces/ws/executions/exec-1"),
        Some(("ws".to_string(), "exec-1".to_string()))
    );
    assert_eq!(
        workspace_trace_path("/v1/workspaces/ws/traces/exec-1"),
        Some(("ws".to_string(), "exec-1".to_string()))
    );
}

#[test]
fn workspace_operations_need_the_right_method() {
    assert!(matches!(
        workspace_operation_path("POST", "/v1/workspaces/ws/execute"),
        Some(WorkspaceOperation::Execute(ref w)) if w == "ws"
    ));
    assert!(workspace_operation_path("GET", "/v1/workspaces/ws/execute").is_none());
}

#[test]
fn routes_dispatch_in_table_order() {
    assert!(matches!(route_request("GET", "/healthz"), Route::Health));
    assert!(matches!(route_request("POST", "/healthz"), Route::NotFound));
    assert!(matches!(route_request("GET", "/v1/capabilities"), Route::ListCapabilities));
    assert!(matches!(route_request("POST", "/v1/workflows/register"), Route::RegisterWorkflow));
    match route_request("GET", "/v1/workflows/wf.id") {
        Route::GetWorkflow(id) => assert_eq!(id, "wf.id"),
        other => panic!("unexpected route {other:?}"),
    }
    assert!(matches!(route_request("DELETE", "/nowhere"), Route::NotFound));
}

#[test]
fn sessions_order_defaults_to_newest_first() {
    assert_eq!(parse_sessions_order(None), Ok(SessionsOrder::CreatedDesc));
    assert_eq!(parse_sessions_order(Some("created_asc")), Ok(SessionsOrder::CreatedAsc));
    assert!(parse_sessions_order(Some("random")).is_err());
}

#[test]
fn sessions_limit_is_between_one_and_two_hundred() {
    assert_eq!(parse_sessions_limit(None), Ok(50));
    assert_eq!(parse_sessions_limit(Some("200")), Ok(200));
    assert_eq!(parse_sessions_limit(Some("+7")), Ok(7));
    assert!(parse_sessions_limit(Some("0")).is_err());
    assert!(parse_sessions_limit(Some("201")).is_err());
    assert!(parse_sessions_limit(Some("ten")).is_err());
}

#[test]
fn prefer_header_or_body_mode_asks_for_async() {
    assert!(request_prefers_async(Some("return=minimal, respond-async "), None));
    assert!(!request_prefers_async(Some("respond-asyncx"), None));
    assert!(request_prefers_async(None, Some("async")));
    assert!(!request_prefers_async(None, Some("sync")));
    assert!(!request_prefers_async(None, None));
    let links = execution_links("ws", "e1", true);
    assert_eq!(links.status, "/v1/workspaces/ws/executions/e1");
    assert_eq!(links.trace, "/v1/workspaces/ws/traces/e1");
    assert_eq!(links.subscription.as_deref(), Some("/v1/workspaces/ws/executions/e1/events"));
    assert_eq!(execution_links("ws", "e1", false).subscription, None);
}
