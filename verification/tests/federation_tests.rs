use traverse_cli::federation::{
    render_federation_failure, render_federation_peers, render_federation_status,
    render_federation_sync, FederationConflict, FederationErrorLine, FederationPeerManifest,
    FederationStatusSummary, FederationSyncOutcome, FederationSyncSession,
    FederationSyncStatusManifest, FederationTrustStateManifest, RegistryScopeManifest,
};

fn peer(status: FederationSyncStatusManifest) -> FederationPeerManifest {
    FederationPeerManifest {
        peer_id: "peer-a".to_string(),
        display_name: "Peer A".to_string(),
        trust_state: FederationTrustStateManifest::Trusted,
        identity_fingerprint: "fingerprint:peer-a".to_string(),
        sync_enabled: true,
        last_sync_at: None,
        last_sync_status: status,
        visible_registry_scopes: vec![RegistryScopeManifest::Public],
    }
}

fn summary() -> FederationStatusSummary {
    FederationStatusSummary {
        peer_count: 1,
        trusted_peer_count: 1,
        last_sync_outcome: "Success".to_string(),
        sync_age: None,
        conflict_count: 0,
        blocked_entries: 0,
        route_failures: 0,
    }
}

fn outcome(conflicts: Vec<FederationConflict>) -> FederationSyncOutcome {
    FederationSyncOutcome {
        session: FederationSyncSession {
            session_id: "sync_peer-a_1".to_string(),
            peer_id: "peer-a".to_string(),
            status: FederationSyncStatusManifest::Success,
            registry_types: vec!["Capability".to_string(), "Event".to_string(), "Workflow".to_string()],
            validated_entries: 3,
            rejected_entries: 0,
            conflict_count: conflicts.len() as u64,
            evidence_ref: "evidence:federation-sync:peer-a".to_string(),
            finished_at: Some("2026-04-10T00:00:02Z".to_string()),
        },
        conflicts,
    }
}

#[test]
fn federation_peers_and_status_renders_peer_listing_and_sync_summary() {
    let before = vec![peer(FederationSyncStatusManifest::Unknown)];
    let peers = render_federation_peers(&summary(), &before);
    assert!(peers.contains("peer_count: 1"));
    assert!(peers.contains("peer_id: peer-a"));
    assert!(peers.contains("last_sync_status: unknown"));

    let after = vec![peer(FederationSyncStatusManifest::Success)];
    let sync = render_federation_sync(&summary(), &after, &outcome(Vec::new()));
    assert!(sync.contains("session_id: sync_peer-a_1"));
    assert!(sync.contains("sync_status: success"));
    assert!(sync.contains("evidence_ref: evidence:federation-sync:peer-a"));

    let status = render_federation_status(&summary(), &after, &outcome(Vec::new()));
    assert!(status.contains("peer_count: 1"));
    assert!(status.contains("last_sync_status: success"));
    assert!(status.contains("registered_peers: peer-a"));
}

#[test]
fn render_federation_failure_joins_every_error_line() {
    let errors = vec![
        FederationErrorLine {
            severity: "Error".to_string(),
            target: "peer.peer_id".to_string(),
            message: "peer_id is required".to_string(),
        },
        FederationErrorLine {
            severity: "Error".to_string(),
            target: "trust.trust_model".to_string(),
            message: "trust_model is unsupported".to_string(),
        },
    ];
    let rendered = render_federation_failure(&errors);
    assert!(rendered.contains("peer.peer_id"));
    assert!(rendered.contains("trust.trust_model"));
    assert_eq!(rendered.lines().count(), 2);
    assert_eq!(rendered.lines().next(), Some("Error peer.peer_id: peer_id is required"));
}

#[test]
fn peer_listing_is_exact() {
    let listing = render_federation_peers(&summary(), &vec![peer(FederationSyncStatusManifest::Partial)]);
    assert_eq!(
        listing,
        "peer_count: 1\ntrusted_peer_count: 1\nlast_sync_outcome: success\nsync_age: none\nconflict_count: 0\nblocked_entries: 0\nroute_failures: 0\npeer_id: peer-a\ndisplay_name: Peer A\ntrust_state: trusted\nsync_enabled: true\nlast_sync_at: none\nlast_sync_status: partial\nvisible_registry_scopes: public"
    );
}

#[test]
fn sync_report_lists_conflicts_and_lowercases_registry_kinds() {
    let conflict = FederationConflict {
        conflict_id: "c1".to_string(),
        registry_type: "Workflow".to_string(),
        entry_key: "wf@1".to_string(),
        conflict_reason: "digest differs".to_string(),
        resolution_state: "Unresolved".to_string(),
    };
    let report = render_federation_sync(&summary(), &vec![peer(FederationSyncStatusManifest::Success)], &outcome(vec![conflict]));
    assert!(report.contains("registry_types: capability, event, workflow"));
    assert!(report.contains("conflict: c1 workflow wf@1 digest differs Unresolved"));
    assert!(report.contains("finished_at: 2026-04-10T00:00:02Z"));
    assert!(report.ends_with("registered_peers: peer-a"));
}

#[test]
fn status_is_the_sync_report_then_the_listing() {
    let peers = vec![peer(FederationSyncStatusManifest::Success)];
    let status = render_federation_status(&summary(), &peers, &outcome(Vec::new()));
    let expected = format!(
        "{}\n{}",
        render_federation_sync(&summary(), &peers, &outcome(Vec::new())),
        render_federation_peers(&summary(), &peers)
    );
    assert_eq!(status, expected);
}
