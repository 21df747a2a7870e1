use traverse_cli::availability::{
    permitted_transition, AvailabilityState, WorkspaceAppAvailability,
    REASON_DECLARATION_UNMATERIALIZABLE, REASON_PERSISTED_APP_STATE_LOADED,
};

#[test]
fn permits_only_loading_to_ready_and_loading_to_failed() {
    assert!(permitted_transition(AvailabilityState::Loading, AvailabilityState::Ready));
    assert!(permitted_transition(AvailabilityState::Loading, AvailabilityState::Failed));
    for from in [AvailabilityState::Loading, AvailabilityState::Ready, AvailabilityState::Failed] {
        for to in [AvailabilityState::Loading, AvailabilityState::Ready, AvailabilityState::Failed] {
            if matches!(
                (from, to),
                (AvailabilityState::Loading, AvailabilityState::Ready | AvailabilityState::Failed)
            ) {
                continue;
            }
            assert!(!permitted_transition(from, to), "{} → {} must be rejected", from.as_str(), to.as_str());
        }
    }
}

#[test]
fn records_ordered_secret_free_ready_transition() {
    let mut store = WorkspaceAppAvailability::new();
    store.begin_load_attempt("expedition.readiness");
    let ready = store
        .transition("ws-test", "expedition.readiness", AvailabilityState::Ready, REASON_PERSISTED_APP_STATE_LOADED)
        .expect("ready");
    assert_eq!(ready.from, AvailabilityState::Loading);
    assert_eq!(ready.to, AvailabilityState::Ready);
    assert_eq!(ready.reason_code, REASON_PERSISTED_APP_STATE_LOADED);
    let rendered = format!("{ready:?}");
    assert!(!rendered.contains("file://"));
    assert!(!rendered.contains("/.traverse/"));
    let failed = store.transition(
        "ws-test",
        "expedition.readiness",
        AvailabilityState::Failed,
        REASON_DECLARATION_UNMATERIALIZABLE,
    );
    assert!(failed.is_err());
    let snapshot = store.snapshot();
    assert_eq!(snapshot.len(), 1);
    assert_eq!(snapshot[0].transitions.len(), 1);
    assert_eq!(snapshot[0].current, AvailabilityState::Ready);
}

#[test]
fn restart_creates_a_new_load_attempt_without_prior_history() {
    let mut first = WorkspaceAppAvailability::new();
    first.begin_load_attempt("app");
    first
        .transition("ws-test", "app", AvailabilityState::Failed, REASON_DECLARATION_UNMATERIALIZABLE)
        .expect("failed");
    let first_id = first.snapshot()[0].load_attempt_id.clone();

    let mut restarted = WorkspaceAppAvailability::new();
    restarted.begin_load_attempt("app");
    restarted
        .transition("ws-test", "app", AvailabilityState::Ready, REASON_PERSISTED_APP_STATE_LOADED)
        .expect("ready");
    let second = &restarted.snapshot()[0];
    assert_ne!(second.load_attempt_id, first_id);
    assert_eq!(second.transitions.len(), 1);
    assert_eq!(second.current, AvailabilityState::Ready);
}

#[test]
fn unknown_app_and_invalid_moves_are_refused_with_codes() {
    let mut store = WorkspaceAppAvailability::new();
    let unknown = store.transition("ws", "ghost", AvailabilityState::Ready, "r").unwrap_err();
    assert_eq!(unknown.code, "unknown_app");
    store.begin_load_attempt_with("app", "attempt-1".to_string());
    store.transition_at("ws", "app", AvailabilityState::Ready, "r", Some(42)).expect("ready");
    let again = store.transition_at("ws", "app", AvailabilityState::Failed, "r", Some(43)).unwrap_err();
    assert_eq!(again.code, "invalid_availability_transition");
    assert_eq!(again.message, "availability cannot move from ready to failed");
    let snap = store.snapshot();
    assert_eq!(snap[0].transitions[0].timestamp, "unix:42");
    assert_eq!(snap[0].transitions[0].load_attempt_id, "attempt-1");
}

#[test]
fn clock_before_epoch_refuses_the_move() {
    let mut store = WorkspaceAppAvailability::new();
    store.begin_load_attempt_with("app", "a".to_string());
    let err = store.transition_at("ws", "app", AvailabilityState::Ready, "r", None).unwrap_err();
    assert_eq!(err.code, "clock_error");
    assert_eq!(store.snapshot()[0].current, AvailabilityState::Loading);
}

#[test]
fn snapshot_is_ordered_by_application_id() {
    let mut store = WorkspaceAppAvailability::new();
    store.begin_load_attempt_with("zeta", "1".to_string());
    store.begin_load_attempt_with("alpha", "2".to_string());
    store.begin_load_attempt_with("mid", "3".to_string());
    store.begin_load_attempt_with("alpha", "4".to_string());
    let ids: Vec<_> = store.snapshot().iter().map(|a| (a.app_id.clone(), a.load_attempt_id.clone())).collect();
    assert_eq!(
        ids,
        vec![
            ("alpha".to_string(), "4".to_string()),
            ("mid".to_string(), "3".to_string()),
            ("zeta".to_string(), "1".to_string()),
        ]
    );
}
