use traverse_cli::app_events::{
    app_command_session, app_id_for_outcome, app_sessions_response, dispatch_app_command,
    materialize_app_sessions, parse_app_command_request, push_app_command_outcome_events,
    record_app_execution_events, replay_app_events, resolve_app_command_transition,
    resolve_lifecycle_transition, serialize_sse_event, sort_sessions, AppCommandMembers,
    AppEvent, AppEventData, AppEventFault, AppMachine, AppSession, AppStateDef, AppTransition,
    CapabilityOutcome, CommandMember, ConditionEvaluationError, ConditionVerdict,
    ExecutionOutcome,
};
use traverse_cli::routes::SessionsOrder;

fn tr(on: &str, to: &str) -> AppTransition {
    AppTransition { on: on.to_string(), to: to.to_string(), conditioned: false }
}

fn guarded(to: &str) -> AppTransition {
    AppTransition { on: "capability_succeeded".to_string(), to: to.to_string(), conditioned: true }
}

fn state(id: &str, invoke: Option<&str>, transitions: Vec<AppTransition>) -> AppStateDef {
    AppStateDef { id: id.to_string(), transitions, invoke_capability: invoke.map(str::to_string) }
}

/// The starter machine: idle -submit-> processing (invokes the capability)
/// -> results | error.
fn starter_machine() -> AppMachine {
    AppMachine {
        initial_state: "idle".to_string(),
        states: vec![
            state("idle", None, vec![tr("submit", "processing")]),
            state(
                "processing",
                Some("traverse-starter.process"),
                vec![tr("capability_succeeded", "results"), tr("capability_failed", "error")],
            ),
            state("results", None, vec![]),
            state("error", None, vec![]),
        ],
    }
}

fn starter_with_succeeded(transitions: Vec<AppTransition>) -> AppMachine {
    let mut m = starter_machine();
    let processing = &mut m.states[1];
    processing.transitions.retain(|t| t.on != "capability_succeeded");
    for (i, t) in transitions.into_iter().enumerate() {
        processing.transitions.insert(i, t);
    }
    m
}

fn ok_outcome(execution_id: &str, output: &str) -> CapabilityOutcome {
    CapabilityOutcome {
        execution_id: execution_id.to_string(),
        succeeded: true,
        output: Some(output.to_string()),
        error: None,
    }
}

fn result_data(e: &AppEvent) -> (Option<String>, Option<String>, Option<(String, String)>) {
    match &e.data {
        AppEventData::CommandResult { output, error_code, error } => (
            output.clone(),
            error_code.clone(),
            error.as_ref().map(|f| (f.code.clone(), f.message.clone())),
        ),
        _ => panic!("not a command result"),
    }
}

#[test]
fn app_command_returns_404_for_app_without_state_machine() {
    let mut events = Vec::new();
    let r = dispatch_app_command(&mut events, None, "ws-test", "traverse-starter", "submit", None, "unix:1");
    let e = r.err().expect("an app without machine is refused");
    assert_eq!(e.status, 404);
    assert_eq!(e.code, "app_not_registered");
    assert_eq!(
        e.message,
        "app 'traverse-starter' is not registered with a state machine in workspace 'ws-test'"
    );
    assert!(events.is_empty());
}

#[test]
fn app_command_returns_422_for_unknown_command() {
    let m = starter_machine();
    let mut events = Vec::new();
    let r = dispatch_app_command(&mut events, Some(&m), "ws-test", "traverse-starter", "does-not-exist", None, "unix:1");
    let e = r.err().expect("an unknown command is refused");
    assert_eq!(e.status, 422);
    assert_eq!(e.reason, "Unprocessable Entity");
    assert_eq!(e.code, "unknown_command");
    assert_eq!(e.message, "command 'does-not-exist' is not declared by the app state machine");
    assert!(events.is_empty());
}

#[test]
fn app_command_returns_409_for_invalid_transition_from_current_state() {
    let m = starter_machine();
    let mut events = Vec::new();
    let first = dispatch_app_command(&mut events, Some(&m), "ws-test", "traverse-starter", "submit", Some("sess-repeat"), "unix:1")
        .expect("the first submit is accepted");
    assert_eq!(first.session_id, "sess-repeat");
    assert_eq!(first.state, "processing");
    let second = dispatch_app_command(&mut events, Some(&m), "ws-test", "traverse-starter", "submit", Some("sess-repeat"), "unix:2");
    let e = second.err().expect("a second submit from processing is refused");
    assert_eq!(e.status, 409);
    assert_eq!(e.code, "invalid_transition");
    assert_eq!(e.message, "command 'submit' is not a valid transition from state 'processing'");
    assert_eq!(events.len(), 1);
}

#[test]
fn app_command_returns_400_for_malformed_body() {
    let members = AppCommandMembers {
        is_object: true,
        command: CommandMember::Absent,
        session_id: CommandMember::Absent,
    };
    assert_eq!(
        parse_app_command_request(&members).err(),
        Some("'command' must be a non-empty string".to_string())
    );
}

#[test]
fn app_command_request_checks_members() {
    let ok = AppCommandMembers {
        is_object: true,
        command: CommandMember::Text("submit".to_string()),
        session_id: CommandMember::Null,
    };
    let r = parse_app_command_request(&ok).expect("a well-formed command");
    assert_eq!(r.command, "submit");
    assert_eq!(r.session_id, None);
    let blank_session = AppCommandMembers {
        is_object: true,
        command: CommandMember::Text("submit".to_string()),
        session_id: CommandMember::Text("  ".to_string()),
    };
    assert_eq!(
        parse_app_command_request(&blank_session).err(),
        Some("'session_id' must be a non-empty string when present".to_string())
    );
    let not_object = AppCommandMembers {
        is_object: false,
        command: CommandMember::Absent,
        session_id: CommandMember::Absent,
    };
    assert_eq!(
        parse_app_command_request(&not_object).err(),
        Some("request body must be a JSON object".to_string())
    );
    let blank_command = AppCommandMembers {
        is_object: true,
        command: CommandMember::Text(" ".to_string()),
        session_id: CommandMember::Absent,
    };
    assert!(parse_app_command_request(&blank_command).is_err());
}

#[test]
fn app_command_dispatch_emits_state_changed_and_capability_result_on_sse() {
    let m = starter_machine();
    let mut events = Vec::new();
    let accepted = dispatch_app_command(&mut events, Some(&m), "ws-test", "traverse-starter", "submit", None, "unix:5")
        .expect("submit is accepted");
    assert_eq!(accepted.session_id, "sess-00000001");
    assert_eq!(accepted.command_id, "cmd-00000001");
    assert_eq!(accepted.state, "processing");
    assert_eq!(accepted.previous_state, "idle");
    assert_eq!(accepted.invoke_capability.as_deref(), Some("traverse-starter.process"));
    assert_eq!(events[0].event_id, "cmd-00000001:state_changed:processing");
    assert_eq!(events[0].previous_state.as_deref(), Some("idle"));

    push_app_command_outcome_events(
        &mut events,
        "ws-test",
        "traverse-starter",
        &accepted.session_id,
        &m,
        &accepted.state,
        "traverse-starter.process",
        &ok_outcome("exec-1", "{\"result\":\"ok\"}"),
        &vec![ConditionVerdict::NotMet, ConditionVerdict::NotMet],
        "unix:5",
    );
    let types: Vec<&str> = events.iter().map(|e| e.event_type.as_str()).collect();
    assert_eq!(types, vec!["state_changed", "capability_invoked", "state_changed", "capability_result"]);
    assert_eq!(events[1].event_id, "exec-1:capability_invoked");
    assert_eq!(events[2].state, "results");
    assert_eq!(events[2].previous_state.as_deref(), Some("processing"));
    assert_eq!(events[3].state, "results");
    assert_eq!(events[3].event_id, "exec-1:capability_result");
    assert_eq!(result_data(&events[3]).0.as_deref(), Some("{\"result\":\"ok\"}"));

    let replayed = replay_app_events(&events, "traverse-starter", None);
    assert_eq!(replayed.len(), 4);
    let frame = serialize_sse_event(Some(&replayed[3].event_id), &replayed[3].event_type, "{\"state\":\"results\"}");
    assert_eq!(frame, "id: exec-1:capability_result\nevent: capability_result\ndata: {\"state\":\"results\"}\n\n");
}

#[test]
fn app_command_routes_capability_output_with_ordered_conditions_and_fallback() {
    let m = starter_with_succeeded(vec![guarded("auto_approved"), tr("capability_succeeded", "pending_review")]);
    // 0.90 meets `confidence_score >= 0.85`; 0.70 does not.
    for (verdict, expected_state) in [(ConditionVerdict::Met, "auto_approved"), (ConditionVerdict::NotMet, "pending_review")] {
        let mut events = Vec::new();
        let accepted = dispatch_app_command(&mut events, Some(&m), "ws-test", "traverse-starter", "submit", None, "unix:1")
            .expect("submit is accepted");
        push_app_command_outcome_events(
            &mut events,
            "ws-test",
            "traverse-starter",
            &accepted.session_id,
            &m,
            &accepted.state,
            "traverse-starter.process",
            &ok_outcome("exec-1", "{}"),
            &vec![verdict, ConditionVerdict::NotMet, ConditionVerdict::NotMet],
            "unix:1",
        );
        let last = events.last().expect("a result event");
        assert_eq!(last.event_type, "capability_result");
        assert_eq!(last.state, expected_state);
    }
}

#[test]
fn app_command_emits_condition_errors_without_changing_the_invoking_state() {
    let m = starter_with_succeeded(vec![guarded("auto_approved")]);
    let mut events = Vec::new();
    push_app_command_outcome_events(
        &mut events,
        "ws-test",
        "traverse-starter",
        "sess-1",
        &m,
        "processing",
        "traverse-starter.process",
        &ok_outcome("exec-1", "{\"confidence_score\":\"unknown\"}"),
        &vec![ConditionVerdict::TypeError, ConditionVerdict::NotMet],
        "unix:1",
    );
    assert_eq!(events.len(), 2);
    let last = &events[1];
    assert_eq!(last.event_type, "error");
    assert_eq!(last.state, "processing");
    let (_, code, error) = result_data(last);
    assert_eq!(code.as_deref(), Some("condition_type_error"));
    assert_eq!(
        error,
        Some((
            "condition_type_error".to_string(),
            "a transition condition could not be evaluated against the capability output".to_string()
        ))
    );
    assert!(events.iter().all(|e| e.state != "auto_approved"));
}

#[test]
fn app_command_emits_no_matching_transition_without_changing_the_invoking_state() {
    let m = starter_with_succeeded(vec![guarded("auto_approved")]);
    let mut events = Vec::new();
    push_app_command_outcome_events(
        &mut events,
        "ws-test",
        "traverse-starter",
        "sess-1",
        &m,
        "processing",
        "traverse-starter.process",
        &ok_outcome("exec-1", "{\"confidence_score\":0.7}"),
        &vec![ConditionVerdict::NotMet, ConditionVerdict::NotMet],
        "unix:1",
    );
    let last = events.last().expect("a result event");
    assert_eq!(last.event_type, "error");
    assert_eq!(last.state, "processing");
    assert_eq!(result_data(last).1.as_deref(), Some("no_matching_transition"));
    assert!(events.iter().all(|e| e.state != "auto_approved"));
}

#[test]
fn failed_capability_takes_the_failure_transition() {
    let m = starter_machine();
    let mut events = Vec::new();
    let outcome = CapabilityOutcome {
        execution_id: "exec-9".to_string(),
        succeeded: false,
        output: None,
        error: Some(AppEventFault { code: "execution_failed".to_string(), message: "boom".to_string() }),
    };
    push_app_command_outcome_events(&mut events, "ws", "app", "s", &m, "processing", "app.cap", &outcome, &vec![ConditionVerdict::NotMet; 2], "unix:1");
    assert_eq!(events.len(), 3);
    assert_eq!(events[1].event_type, "state_changed");
    assert_eq!(events[1].state, "error");
    assert_eq!(events[2].event_type, "error");
    assert_eq!(events[2].event_id, "exec-9:error");
    let (_, code, error) = result_data(&events[2]);
    assert_eq!(code, None);
    assert_eq!(error, Some(("execution_failed".to_string(), "boom".to_string())));
}

#[test]
fn lifecycle_transition_resolution() {
    let m = starter_with_succeeded(vec![guarded("a"), guarded("b"), tr("capability_succeeded", "c")]);
    let v = |xs: &[ConditionVerdict]| xs.to_vec();
    assert_eq!(
        resolve_lifecycle_transition(&m, "processing", "capability_succeeded", &v(&[ConditionVerdict::NotMet, ConditionVerdict::Met, ConditionVerdict::NotMet, ConditionVerdict::NotMet])),
        Ok(Some("b".to_string()))
    );
    assert_eq!(
        resolve_lifecycle_transition(&m, "processing", "capability_succeeded", &v(&[ConditionVerdict::NotMet, ConditionVerdict::NotMet, ConditionVerdict::NotMet, ConditionVerdict::NotMet])),
        Ok(Some("c".to_string()))
    );
    assert_eq!(
        resolve_lifecycle_transition(&m, "processing", "capability_succeeded", &v(&[ConditionVerdict::NotMet, ConditionVerdict::TypeError, ConditionVerdict::NotMet, ConditionVerdict::NotMet])),
        Err(ConditionEvaluationError::Type)
    );
    assert_eq!(
        resolve_lifecycle_transition(&m, "processing", "capability_failed", &v(&[ConditionVerdict::TypeError, ConditionVerdict::TypeError, ConditionVerdict::NotMet, ConditionVerdict::NotMet])),
        Ok(Some("error".to_string()))
    );
    assert_eq!(resolve_lifecycle_transition(&m, "nowhere", "capability_failed", &vec![]), Ok(None));
}

#[test]
fn command_transition_errors_name_the_state() {
    let m = starter_machine();
    let e = resolve_app_command_transition(&m, "s-1", "limbo", "submit").err().expect("undeclared state");
    assert_eq!(e.status, 409);
    assert_eq!(
        e.message,
        "session 's-1' is in state 'limbo', which is not declared by the app state machine"
    );
    assert_eq!(resolve_app_command_transition(&m, "s-1", "idle", "submit"), Ok("processing".to_string()));
}

#[test]
fn named_session_continues_from_its_latest_state() {
    let m = starter_machine();
    let mut events = Vec::new();
    dispatch_app_command(&mut events, Some(&m), "ws", "app", "submit", Some("s-1"), "unix:1").expect("accepted");
    assert_eq!(
        app_command_session(&events, "idle", "app", Some("s-1")),
        ("s-1".to_string(), "processing".to_string())
    );
    assert_eq!(
        app_command_session(&events, "idle", "app", Some("s-2")),
        ("s-2".to_string(), "idle".to_string())
    );
    assert_eq!(
        app_command_session(&events, "idle", "app", None),
        ("sess-00000002".to_string(), "idle".to_string())
    );
}

fn execution(succeeded: bool) -> ExecutionOutcome {
    ExecutionOutcome {
        execution_id: "exec_test-req-001".to_string(),
        succeeded,
        capability_id: Some("traverse-starter.process".to_string()),
        capability_version: Some("1.0.0".to_string()),
        correlation_id: None,
        output: Some("{\"result\":\"ok\"}".to_string()),
        error: None,
    }
}

#[test]
fn app_events_endpoint_replays_execution_events() {
    let mut events = Vec::new();
    record_app_execution_events(&mut events, "ws-test", &execution(true), "unix:1");
    let replayed = replay_app_events(&events, "traverse-starter", None);
    let types: Vec<&str> = replayed.iter().map(|e| e.event_type.as_str()).collect();
    assert_eq!(types, vec!["state_changed", "capability_invoked", "capability_result"]);
    assert_eq!(replayed[2].state, "results");
    assert_eq!(replayed[0].session_id, "exec_test-req-001");
    assert_eq!(replayed[0].previous_state.as_deref(), Some("idle"));
}

#[test]
fn app_events_endpoint_honors_last_event_id_replay() {
    let mut events = Vec::new();
    record_app_execution_events(&mut events, "ws-test", &execution(true), "unix:1");
    let replayed = replay_app_events(&events, "traverse-starter", Some("exec_test-req-001:state_changed:processing"));
    let types: Vec<&str> = replayed.iter().map(|e| e.event_type.as_str()).collect();
    assert_eq!(types, vec!["capability_invoked", "capability_result"]);
    assert!(replay_app_events(&events, "traverse-starter", Some("unknown")).is_empty());
    assert!(replay_app_events(&events, "other-app", None).is_empty());
}

#[test]
fn failed_execution_ends_in_error_state() {
    let mut events = Vec::new();
    record_app_execution_events(&mut events, "ws-test", &execution(false), "unix:1");
    assert_eq!(events[2].event_type, "error");
    assert_eq!(events[2].state, "error");
    assert_eq!(events[2].event_id, "exec_test-req-001:error");
}

#[test]
fn app_id_is_the_capability_prefix() {
    assert_eq!(app_id_for_outcome(Some("traverse-starter.process")), "traverse-starter");
    assert_eq!(app_id_for_outcome(Some("a.b.c")), "a.b");
    assert_eq!(app_id_for_outcome(Some("plain")), "default");
    assert_eq!(app_id_for_outcome(None), "default");
}

fn seed(events: &mut Vec<AppEvent>, session_id: &str, current_state: &str, timestamp: &str, output: &str) {
    events.push(AppEvent {
        event_id: format!("{session_id}:{current_state}"),
        event_type: "capability_result".to_string(),
        workspace_id: "ws-test".to_string(),
        app_id: "traverse-starter".to_string(),
        session_id: session_id.to_string(),
        execution_id: format!("exec_{session_id}"),
        state: current_state.to_string(),
        previous_state: Some("processing".to_string()),
        timestamp: timestamp.to_string(),
        data: AppEventData::CommandResult { output: Some(output.to_string()), error_code: None, error: None },
    });
}

#[test]
fn app_sessions_endpoint_filters_state_and_projects_context_fields() {
    let mut events = Vec::new();
    seed(&mut events, "sess-a", "pending_review", "unix:1", "{\"document_type\":\"invoice\"}");
    seed(&mut events, "sess-b", "auto_approved", "unix:2", "{\"document_type\":\"policy\"}");
    seed(&mut events, "sess-c", "pending_review", "unix:3", "{\"document_type\":\"contract\"}");
    let page = app_sessions_response(&events, "traverse-starter", Some("pending_review"), 50, None, SessionsOrder::CreatedDesc);
    assert_eq!(page.total, 2);
    assert_eq!(page.sessions.len(), 2);
    assert_eq!(page.sessions[0].session_id, "sess-c");
    assert_eq!(page.sessions[0].current_state, "pending_review");
    assert_eq!(page.sessions[0].context_event, Some(2));
    assert_eq!(page.sessions[1].session_id, "sess-a");
    assert_eq!(page.next_cursor, None);
}

#[test]
fn app_sessions_endpoint_paginates_with_cursor() {
    let mut events = Vec::new();
    seed(&mut events, "sess-a", "results", "unix:1", "{}");
    seed(&mut events, "sess-b", "results", "unix:2", "{}");
    seed(&mut events, "sess-c", "results", "unix:3", "{}");
    let first = app_sessions_response(&events, "traverse-starter", None, 2, None, SessionsOrder::CreatedDesc);
    let ids: Vec<&str> = first.sessions.iter().map(|s| s.session_id.as_str()).collect();
    assert_eq!(ids, vec!["sess-c", "sess-b"]);
    assert_eq!(first.next_cursor.as_deref(), Some("sess-a"));
    let second = app_sessions_response(&events, "traverse-starter", None, 50, Some("sess-c"), SessionsOrder::CreatedDesc);
    let ids: Vec<&str> = second.sessions.iter().map(|s| s.session_id.as_str()).collect();
    assert_eq!(ids, vec!["sess-b", "sess-a"]);
    assert_eq!(second.total, 3);
}

#[test]
fn sessions_take_first_and_last_event_by_time() {
    let mut events = Vec::new();
    seed(&mut events, "s", "processing", "unix:5", "{}");
    seed(&mut events, "s", "results", "unix:9", "{}");
    seed(&mut events, "s", "idle", "unix:1", "{}");
    let sessions = materialize_app_sessions(&events, "traverse-starter");
    assert_eq!(sessions.len(), 1);
    assert_eq!(sessions[0].created_at, "unix:1");
    assert_eq!(sessions[0].updated_at, "unix:9");
    assert_eq!(sessions[0].current_state, "results");
    assert_eq!(sessions[0].context_event, Some(1));
}

#[test]
fn sessions_sort_ascending_keeps_ties_in_order() {
    let mk = |id: &str, at: &str| AppSession {
        session_id: id.to_string(),
        current_state: "x".to_string(),
        created_at: at.to_string(),
        updated_at: at.to_string(),
        context_event: None,
    };
    let v = vec![mk("b", "unix:2"), mk("a", "unix:1"), mk("c", "unix:2")];
    let asc = sort_sessions(&v, SessionsOrder::CreatedAsc);
    let ids: Vec<&str> = asc.iter().map(|s| s.session_id.as_str()).collect();
    assert_eq!(ids, vec!["a", "b", "c"]);
    let desc = sort_sessions(&v, SessionsOrder::CreatedDesc);
    let ids: Vec<&str> = desc.iter().map(|s| s.session_id.as_str()).collect();
    assert_eq!(ids, vec!["b", "c", "a"]);
}

#[test]
fn heartbeat_frame_has_no_id_line() {
    assert_eq!(
        serialize_sse_event(None, "heartbeat", "{}"),
        "event: heartbeat\ndata: {}\n\n"
    );
}
