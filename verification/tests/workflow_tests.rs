use traverse_cli::registry_failures::{
    map_event_registry_failure_http, map_registry_failure_http, map_workflow_failure_http,
    RegistryErrorEntry, RegistryErrorKind, WorkflowErrorEntry, WorkflowErrorKind,
};
use traverse_cli::workflow::{find_cycle_path, WorkflowEdge};

fn nodes(ids: &[&str]) -> Vec<String> {
    ids.iter().map(|s| s.to_string()).collect()
}

fn edges(pairs: &[(&str, &str)]) -> Vec<WorkflowEdge> {
    pairs.iter().map(|(a, b)| WorkflowEdge { from: a.to_string(), to: b.to_string() }).collect()
}

#[test]
fn cycle_path_is_found_in_id_order() {
    let path = find_cycle_path(&nodes(&["c", "a", "b"]), &edges(&[("a", "b"), ("b", "c"), ("c", "a")]));
    assert_eq!(path, nodes(&["a", "b", "c", "a"]));
}

#[test]
fn self_loop_is_a_cycle() {
    let path = find_cycle_path(&nodes(&["x"]), &edges(&[("x", "x")]));
    assert_eq!(path, nodes(&["x", "x"]));
}

#[test]
fn acyclic_graph_has_no_cycle_path() {
    let path = find_cycle_path(&nodes(&["a", "b", "c"]), &edges(&[("a", "b"), ("a", "c"), ("b", "c")]));
    assert!(path.is_empty());
}

#[test]
fn edges_to_undeclared_nodes_are_ignored() {
    let path = find_cycle_path(&nodes(&["a"]), &edges(&[("a", "ghost"), ("ghost", "a")]));
    assert!(path.is_empty());
}

#[test]
fn cycle_after_a_dag_prefix() {
    let path = find_cycle_path(
        &nodes(&["start", "loop1", "loop2"]),
        &edges(&[("start", "loop1"), ("loop1", "loop2"), ("loop2", "loop1")]),
    );
    assert_eq!(path, nodes(&["loop1", "loop2", "loop1"]));
}

#[test]
fn workflow_failures_map_by_priority() {
    let e = |code: WorkflowErrorKind, path: &str| WorkflowErrorEntry { code, path: path.to_string() };
    let n = nodes(&["a", "b"]);
    let g = edges(&[("a", "b"), ("b", "a")]);
    let (status, code, reason, path) = map_workflow_failure_http(
        &vec![e(WorkflowErrorKind::EdgeSchemaMismatch, "$"), e(WorkflowErrorKind::DeterministicCycleNotAllowed, "$")],
        &n,
        &g,
    );
    assert_eq!((status, code, reason), (422, "workflow_cycle_detected", "Unprocessable Entity"));
    assert_eq!(path, Some(nodes(&["a", "b", "a"])));
    let (status, code, _, path) = map_workflow_failure_http(
        &vec![e(WorkflowErrorKind::DeterministicCycleNotAllowed, "$"), e(WorkflowErrorKind::ImmutableVersionConflict, "$")],
        &n,
        &g,
    );
    assert_eq!((status, code), (409, "immutable_version_conflict"));
    assert_eq!(path, None);
    let (_, code, _, _) = map_workflow_failure_http(&vec![e(WorkflowErrorKind::MissingRequiredField, "$.nodes")], &n, &g);
    assert_eq!(code, "empty_workflow");
    let (_, code, _, _) = map_workflow_failure_http(&vec![e(WorkflowErrorKind::MissingRequiredField, "$.edges")], &n, &g);
    assert_eq!(code, "registration_failed");
    let (_, code, _, _) = map_workflow_failure_http(&vec![e(WorkflowErrorKind::MissingReference, "$")], &n, &g);
    assert_eq!(code, "unresolved_capability_reference");
}

#[test]
fn registry_failures_map_to_conflicts() {
    let e = |code: RegistryErrorKind, message: &str| RegistryErrorEntry { code, message: message.to_string() };
    assert_eq!(
        map_registry_failure_http(&vec![e(RegistryErrorKind::ImmutableVersionConflict, "")]),
        (409, "immutable_version_conflict", "Conflict")
    );
    assert_eq!(
        map_registry_failure_http(&vec![e(RegistryErrorKind::Other, "x: published contract versions are immutable")]),
        (409, "registration_conflict", "Conflict")
    );
    assert_eq!(
        map_registry_failure_http(&vec![e(RegistryErrorKind::ArtifactConflict, "")]),
        (409, "registration_conflict", "Conflict")
    );
    assert_eq!(
        map_registry_failure_http(&vec![e(RegistryErrorKind::Other, "bad")]),
        (422, "registration_failed", "Unprocessable Entity")
    );
    assert_eq!(map_event_registry_failure_http(&vec![false, true]), (409, "registration_conflict", "Conflict"));
    assert_eq!(map_event_registry_failure_http(&vec![false]), (422, "event_registration_failed", "Unprocessable Entity"));
}
