use traverse_cli::state_machine::{
    validate_state_machine_invoke_routes, InvokeDecl, InvokeField, StateDecl, TransitionDecl,
};

fn t(on: &str, to: &str) -> TransitionDecl {
    TransitionDecl { on: Some(on.to_string()), to: Some(to.to_string()) }
}

fn plain(id: &str, transitions: Vec<TransitionDecl>) -> StateDecl {
    StateDecl { id: Some(id.to_string()), invoke: InvokeField::Absent, transitions }
}

fn invoking(id: &str, cap: Option<&str>, hc: Option<&str>, input: Option<&str>, transitions: Vec<TransitionDecl>) -> StateDecl {
    StateDecl {
        id: Some(id.to_string()),
        invoke: InvokeField::Object(InvokeDecl {
            capability_id: cap.map(str::to_string),
            host_connector: hc.map(str::to_string),
            input_from: input.map(str::to_string),
        }),
        transitions,
    }
}

fn host_terminals(success_to: &str) -> Vec<TransitionDecl> {
    vec![
        t("host_connector_succeeded", success_to),
        t("host_connector_failed", "error"),
        t("host_connector_timeout", "error"),
        t("host_connector_cancelled", "error"),
    ]
}

fn capability_terminals() -> Vec<TransitionDecl> {
    vec![t("capability_succeeded", "done"), t("capability_failed", "error")]
}

#[test]
fn capability_invoke_requires_succeeded_and_failed_routes() {
    let states = vec![invoking("processing", Some("demo.cap"), None, Some("command.payload"), vec![t("capability_succeeded", "done")])];
    let violations = validate_state_machine_invoke_routes(&states);
    assert_eq!(violations.len(), 1);
    assert_eq!(violations[0].code, "app_state_machine_missing_unhappy_routes");
    assert!(violations[0].message.contains("capability_failed"));
}

#[test]
fn host_connector_invoke_requires_full_terminal_set() {
    let states = vec![invoking(
        "capturing",
        None,
        Some("capture_audio"),
        None,
        vec![t("host_connector_succeeded", "done"), t("host_connector_failed", "error")],
    )];
    let violations = validate_state_machine_invoke_routes(&states);
    assert_eq!(violations.len(), 1);
    assert!(violations[0].message.contains("host_connector_timeout"));
    assert!(violations[0].message.contains("host_connector_cancelled"));
}

#[test]
fn host_connector_result_input_from_with_a_reachable_predecessor_is_accepted() {
    let states = vec![
        invoking("capturing", None, Some("capture_audio"), None, host_terminals("recorded")),
        plain("recorded", vec![t("analyze", "analyzing")]),
        invoking("analyzing", Some("demo.analyze"), None, Some("host_connector_result.artifact_base64"), capability_terminals()),
        plain("done", vec![]),
        plain("error", vec![]),
    ];
    assert_eq!(validate_state_machine_invoke_routes(&states), Vec::new());
}

#[test]
fn host_connector_result_input_from_without_any_predecessor_is_rejected() {
    let states = vec![
        plain("idle", vec![t("analyze", "analyzing")]),
        invoking("analyzing", Some("demo.analyze"), None, Some("host_connector_result.artifact_base64"), capability_terminals()),
        plain("done", vec![]),
        plain("error", vec![]),
    ];
    let violations = validate_state_machine_invoke_routes(&states);
    assert_eq!(violations.len(), 1);
    assert_eq!(violations[0].code, "app_state_machine_unreachable_host_connector_result");
    assert_eq!(violations[0].path, "state_machine.states.analyzing.invoke.input_from");
}

#[test]
fn host_connector_result_input_from_through_an_unrelated_predecessor_is_still_rejected() {
    let states = vec![
        plain("idle", vec![t("go", "unrelated")]),
        plain("unrelated", vec![t("analyze", "analyzing")]),
        invoking("analyzing", Some("demo.analyze"), None, Some("host_connector_result.artifact_base64"), capability_terminals()),
        plain("done", vec![]),
        plain("error", vec![]),
    ];
    let violations = validate_state_machine_invoke_routes(&states);
    assert_eq!(violations[0].code, "app_state_machine_unreachable_host_connector_result");
}

#[test]
fn unrecognized_input_from_literal_is_rejected() {
    let states = vec![invoking("processing", Some("demo.cap"), None, Some("something_else"), capability_terminals())];
    let violations = validate_state_machine_invoke_routes(&states);
    assert_eq!(violations.len(), 1);
    assert_eq!(violations[0].code, "app_state_machine_invalid_input_from");
}

#[test]
fn a_conflicting_invoke_is_not_also_flagged_for_input_from() {
    let states = vec![invoking(
        "processing",
        Some("demo.cap"),
        Some("capture_audio"),
        Some("host_connector_result.artifact_base64"),
        vec![],
    )];
    let violations = validate_state_machine_invoke_routes(&states);
    assert_eq!(violations.len(), 1);
    assert_eq!(violations[0].code, "app_state_machine_conflicting_invoke");
}

#[test]
fn conflicting_invoke_forms_are_rejected() {
    let states = vec![invoking("processing", Some("demo.cap"), Some("capture_audio"), Some("command.payload"), vec![])];
    let violations = validate_state_machine_invoke_routes(&states);
    assert_eq!(violations[0].code, "app_state_machine_conflicting_invoke");
}

#[test]
fn invoke_that_is_not_an_object_or_names_nothing_is_empty() {
    let states = vec![
        StateDecl { id: Some("a".to_string()), invoke: InvokeField::NotObject, transitions: vec![] },
        invoking("b", Some("  "), None, None, vec![]),
        StateDecl { id: None, invoke: InvokeField::NotObject, transitions: vec![] },
    ];
    let violations = validate_state_machine_invoke_routes(&states);
    assert_eq!(violations.len(), 2);
    assert_eq!(violations[0].code, "app_state_machine_empty_invoke");
    assert_eq!(violations[0].message, "invoke must be an object");
    assert_eq!(violations[0].path, "state_machine.states.a.invoke");
    assert_eq!(violations[1].message, "invoke requires capability_id or host_connector");
}

#[test]
fn missing_routes_are_listed_in_required_order() {
    let states = vec![invoking("c", None, Some("mic"), None, vec![t("host_connector_cancelled", "x")])];
    let violations = validate_state_machine_invoke_routes(&states);
    assert_eq!(
        violations[0].message,
        "invoke wait is missing required unhappy-route transitions: host_connector_succeeded, host_connector_failed, host_connector_timeout"
    );
    assert_eq!(violations[0].path, "state_machine.states.c.transitions");
}

#[test]
fn host_connector_reachable_through_a_cycle_and_a_chain() {
    let states = vec![
        plain("loop_a", vec![t("x", "loop_b")]),
        plain("loop_b", vec![t("x", "loop_a"), t("y", "analyzing")]),
        invoking("producer", None, Some("mic"), None, host_terminals("loop_a")),
        invoking("analyzing", Some("cap"), None, Some("host_connector_result.f"), capability_terminals()),
    ];
    assert_eq!(validate_state_machine_invoke_routes(&states), Vec::new());
    let blank_field = vec![
        invoking("producer", None, Some("mic"), None, host_terminals("analyzing")),
        invoking("analyzing", Some("cap"), None, Some("host_connector_result. "), capability_terminals()),
    ];
    let violations = validate_state_machine_invoke_routes(&blank_field);
    assert_eq!(violations.len(), 1);
    assert_eq!(violations[0].message, "unsupported invoke.input_from 'host_connector_result. '");
}
