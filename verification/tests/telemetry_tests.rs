use traverse_cli::telemetry::{
    delete_unpublished_bucket_on_opt_out, record_from_host_config, AuthoringAggregateBucket,
    AuthoringMilestone, AuthoringOutcomeEvent, AuthoringRoute, AuthoringTelemetryError,
    AuthoringTelemetryHostConfig, ElapsedTimeBucket, FindingCategory, RevisionCountBucket,
    TerminalOutcome, UtcTime, MIN_DISTINCT_CONTRIBUTORS, RETENTION_DAYS, RETENTION_SECONDS,
};

fn now() -> UtcTime {
    let d = std::time::SystemTime::now()
        .duration_since(std::time::UNIX_EPOCH)
        .expect("clock after epoch");
    UtcTime { seconds: d.as_secs() as i64, nanos: d.subsec_nanos() }
}

fn plus_days(t: UtcTime, days: i64) -> UtcTime {
    UtcTime { seconds: t.seconds + days * 86_400, nanos: t.nanos }
}

fn event() -> AuthoringOutcomeEvent {
    AuthoringOutcomeEvent {
        milestone: AuthoringMilestone::TerminalOutcome,
        authoring_route: Some(AuthoringRoute::SkillAssisted),
        terminal_outcome: Some(TerminalOutcome::ReviewAccepted),
        revision_count_bucket: Some(RevisionCountBucket::One),
        elapsed_time_bucket: Some(ElapsedTimeBucket::OneToFourHours),
        finding_categories: vec![FindingCategory::ContractDrift],
    }
}

#[test]
fn only_opaque_ticket_hashes_and_aggregate_counts_are_retained() {
    let mut bucket = AuthoringAggregateBucket::new(now());
    bucket.record("opaque-ticket", &event()).expect("record");
    let rendered = format!("{:?} {:?}", bucket.ticket_hashes(), bucket.counters());
    assert!(!rendered.contains("opaque-ticket"));
    let (routes, outcomes, revisions, elapsed, findings) = bucket.counters();
    assert_eq!(routes, vec![0, 1]);
    assert_eq!(outcomes, vec![1, 0, 0]);
    assert_eq!(revisions, vec![0, 1, 0, 0]);
    assert_eq!(elapsed, vec![0, 1, 0, 0]);
    assert_eq!(findings, vec![1, 0, 0, 0, 0]);
}

#[test]
fn export_fails_closed_below_twenty_and_excludes_ticket_hashes() {
    let t = now();
    let mut bucket = AuthoringAggregateBucket::new(t);
    for index in 0..(MIN_DISTINCT_CONTRIBUTORS - 1) {
        bucket.record(&format!("ticket-{index}"), &event()).expect("record");
    }
    assert!(matches!(bucket.remote_aggregate(t), Err(AuthoringTelemetryError::UnpublishedBucket)));
    bucket.record("ticket-19", &event()).expect("record");
    let aggregate = bucket.remote_aggregate(t).expect("twenty tickets export");
    assert_eq!(aggregate.distinct_contributor_count, MIN_DISTINCT_CONTRIBUTORS);
    assert!(!format!("{aggregate:?}").contains("ticket"));
}

#[test]
fn expiry_and_opt_out_prevent_unpublished_aggregate_retention() {
    let t = now();
    let bucket = AuthoringAggregateBucket::new(t);
    let mut retained = Some(AuthoringAggregateBucket::new(t));
    assert!(delete_unpublished_bucket_on_opt_out(&mut retained, t).is_ok());
    assert!(retained.is_none());
    assert!(bucket.is_expired(plus_days(t, RETENTION_DAYS)));
}

#[test]
fn host_config_defaults_off_and_records_only_after_explicit_opt_in() {
    let t = now();
    let mut bucket = None;
    record_from_host_config(&AuthoringTelemetryHostConfig::default(), &mut bucket, "ticket", &event(), t)
        .expect("disabled record");
    assert!(bucket.is_none());
    let enabled = AuthoringTelemetryHostConfig { enabled: true };
    record_from_host_config(&enabled, &mut bucket, "ticket", &event(), t).expect("enabled record");
    assert!(bucket.is_some());
}

#[test]
fn ticket_hash_is_the_sha256_of_the_ticket() {
    let mut bucket = AuthoringAggregateBucket::new(now());
    bucket.record("abc", &event()).expect("record");
    assert_eq!(
        bucket.ticket_hashes(),
        vec!["ba7816bf8f01cfea414140de5dae2223b00361a396177a9cb410ff61f20015ad".to_string()]
    );
}

#[test]
fn the_same_ticket_counts_as_one_contributor() {
    let mut bucket = AuthoringAggregateBucket::new(now());
    bucket.record("t", &event()).expect("record");
    bucket.record("t", &event()).expect("record");
    assert_eq!(bucket.distinct_contributor_count(), 1);
    assert_eq!(bucket.counters().0, vec![0, 2]);
}

#[test]
fn blank_ticket_is_refused_and_changes_nothing() {
    let mut bucket = AuthoringAggregateBucket::new(now());
    assert_eq!(bucket.record("  ", &event()), Err(AuthoringTelemetryError::EmptyTicket));
    assert_eq!(bucket.distinct_contributor_count(), 0);
    assert_eq!(bucket.counters().0, vec![0, 0]);
}

#[test]
fn repeated_categories_count_once() {
    let mut bucket = AuthoringAggregateBucket::new(now());
    let mut e = event();
    e.finding_categories = vec![FindingCategory::Documentation, FindingCategory::Documentation, FindingCategory::AbiPackaging];
    bucket.record("t", &e).expect("record");
    assert_eq!(bucket.counters().4, vec![0, 1, 0, 0, 1]);
}

#[test]
fn expiry_starts_exactly_at_the_retention_window() {
    let t = UtcTime { seconds: 1_000, nanos: 500 };
    let bucket = AuthoringAggregateBucket::new(t);
    assert!(!bucket.is_expired(UtcTime { seconds: 1_000 + RETENTION_SECONDS, nanos: 499 }));
    assert!(bucket.is_expired(UtcTime { seconds: 1_000 + RETENTION_SECONDS, nanos: 500 }));
}

#[test]
fn an_eligible_bucket_survives_opt_out() {
    let t = now();
    let mut bucket = AuthoringAggregateBucket::new(t);
    for index in 0..MIN_DISTINCT_CONTRIBUTORS {
        bucket.record(&format!("ticket-{index}"), &event()).expect("record");
    }
    let mut retained = Some(bucket);
    assert_eq!(
        delete_unpublished_bucket_on_opt_out(&mut retained, t),
        Err(AuthoringTelemetryError::UnpublishedBucket)
    );
    assert!(retained.is_some());
}
