//! Federation operator reports: the manifest that declares a peer and its
//! trust record, and the peer listing and sync report printed from the
//! federation registry's status.

use vstd::prelude::*;
use crate::text::{
    ascii_lowercase, chars_of, decimal, join, join_texts, owned, push_decimal, push_str, texts,
    to_ascii_lowercase,
};

verus! {

#[derive(Clone, Copy, Debug, PartialEq, Eq, Structural)]
pub enum FederationTrustStateManifest {
    Trusted,
    Pending,
    Blocked,
    Revoked,
}

#[derive(Clone, Copy, Debug, PartialEq, Eq, Structural)]
pub enum FederationSyncStatusManifest {
    Unknown,
    Success,
    Partial,
    Failed,
}

#[derive(Clone, Copy, Debug, PartialEq, Eq, Structural)]
pub enum RegistryScopeManifest {
    Public,
    Private,
}

/// A federation peer as the operator manifest declares it.
#[derive(Debug)]
pub struct FederationPeerManifest {
    pub peer_id: String,
    pub display_name: String,
    pub trust_state: FederationTrustStateManifest,
    pub identity_fingerprint: String,
    pub sync_enabled: bool,
    pub last_sync_at: Option<String>,
    pub last_sync_status: FederationSyncStatusManifest,
    pub visible_registry_scopes: Vec<RegistryScopeManifest>,
}

/// The trust a peer is registered under.
#[derive(Debug)]
pub struct TrustRecordManifest {
    pub peer_id: String,
    pub trust_model: String,
    pub allowed_scopes: Vec<RegistryScopeManifest>,
    pub approved_spec_refs: Vec<String>,
    pub approved_at: String,
    pub revoked_at: Option<String>,
}

/// The federation operator manifest: one peer, its trust record, the
/// governed public bundle to export, and the sync session's stamps.
#[derive(Debug)]
pub struct FederationOperatorManifest {
    pub peer: FederationPeerManifest,
    pub trust: TrustRecordManifest,
    pub bundle_manifest_path: String,
    pub started_at: String,
    pub finished_at: String,
    pub evidence_ref: String,
}

/// The lower-case name of a trust state.
pub open spec fn trust_state_name(s: FederationTrustStateManifest) -> Seq<char> {
    match s {
        FederationTrustStateManifest::Trusted => "trusted"@,
        FederationTrustStateManifest::Pending => "pending"@,
        FederationTrustStateManifest::Blocked => "blocked"@,
        FederationTrustStateManifest::Revoked => "revoked"@,
    }
}

/// The lower-case name of a sync status.
pub open spec fn sync_status_name(s: FederationSyncStatusManifest) -> Seq<char> {
    match s {
        FederationSyncStatusManifest::Unknown => "unknown"@,
        FederationSyncStatusManifest::Success => "success"@,
        FederationSyncStatusManifest::Partial => "partial"@,
        FederationSyncStatusManifest::Failed => "failed"@,
    }
}

/// The lower-case name of a registry scope.
pub open spec fn scope_name(s: RegistryScopeManifest) -> Seq<char> {
    match s {
        RegistryScopeManifest::Public => "public"@,
        RegistryScopeManifest::Private => "private"@,
    }
}

fn trust_state_text(s: FederationTrustStateManifest) -> (r: &'static str)
    ensures
        r@ == trust_state_name(s),
{
    match s {
        FederationTrustStateManifest::Trusted => "trusted",
        FederationTrustStateManifest::Pending => "pending",
        FederationTrustStateManifest::Blocked => "blocked",
        FederationTrustStateManifest::Revoked => "revoked",
    }
}

fn sync_status_text(s: FederationSyncStatusManifest) -> (r: &'static str)
    ensures
        r@ == sync_status_name(s),
{
    match s {
        FederationSyncStatusManifest::Unknown => "unknown",
        FederationSyncStatusManifest::Success => "success",
        FederationSyncStatusManifest::Partial => "partial",
        FederationSyncStatusManifest::Failed => "failed",
    }
}

fn scope_text(s: RegistryScopeManifest) -> (r: &'static str)
    ensures
        r@ == scope_name(s),
{
    match s {
        RegistryScopeManifest::Public => "public",
        RegistryScopeManifest::Private => "private",
    }
}

/// The federation registry's status summary; `last_sync_outcome` is the
/// registry's debug rendering of the last outcome.
#[derive(Debug)]
pub struct FederationStatusSummary {
    pub peer_count: u64,
    pub trusted_peer_count: u64,
    pub last_sync_outcome: String,
    pub sync_age: Option<String>,
    pub conflict_count: u64,
    pub blocked_entries: u64,
    pub route_failures: u64,
}

/// One sync session; `registry_types` are the registry's debug renderings
/// of the synchronised registry kinds.
#[derive(Debug)]
pub struct FederationSyncSession {
    pub session_id: String,
    pub peer_id: String,
    pub status: FederationSyncStatusManifest,
    pub registry_types: Vec<String>,
    pub validated_entries: u64,
    pub rejected_entries: u64,
    pub conflict_count: u64,
    pub evidence_ref: String,
    pub finished_at: Option<String>,
}

/// One sync conflict; `registry_type` and `resolution_state` are debug
/// renderings.
#[derive(Debug)]
pub struct FederationConflict {
    pub conflict_id: String,
    pub registry_type: String,
    pub entry_key: String,
    pub conflict_reason: String,
    pub resolution_state: String,
}

/// The outcome of syncing a peer.
#[derive(Debug)]
pub struct FederationSyncOutcome {
    pub session: FederationSyncSession,
    pub conflicts: Vec<FederationConflict>,
}

/// An optional value, or `none`.
pub open spec fn or_none(o: Option<String>) -> Seq<char> {
    match o {
        Some(v) => v@,
        None => "none"@,
    }
}

pub open spec fn scope_names(s: Seq<RegistryScopeManifest>) -> Seq<Seq<char>> {
    s.map_values(|x: RegistryScopeManifest| scope_name(x))
}

/// The lines of one peer in a listing.
pub open spec fn peer_lines(p: FederationPeerManifest) -> Seq<Seq<char>> {
    seq![
        "peer_id: "@ + p.peer_id@,
        "display_name: "@ + p.display_name@,
        "trust_state: "@ + trust_state_name(p.trust_state),
        "sync_enabled: "@ + (if p.sync_enabled {
            "true"@
        } else {
            "false"@
        }),
        "last_sync_at: "@ + or_none(p.last_sync_at),
        "last_sync_status: "@ + sync_status_name(p.last_sync_status),
        "visible_registry_scopes: "@ + join(scope_names(p.visible_registry_scopes@), ", "@),
    ]
}

/// The lines of every peer, in registry order.
pub open spec fn peers_lines(peers: Seq<FederationPeerManifest>) -> Seq<Seq<char>>
    decreases peers.len(),
{
    if peers.len() == 0 {
        Seq::empty()
    } else {
        peers_lines(peers.drop_last()) + peer_lines(peers.last())
    }
}

/// The lines of a peer listing: the summary, then every peer.
pub open spec fn listing_lines(s: FederationStatusSummary, peers: Seq<FederationPeerManifest>) -> Seq<Seq<char>> {
    seq![
        "peer_count: "@ + decimal(s.peer_count as nat),
        "trusted_peer_count: "@ + decimal(s.trusted_peer_count as nat),
        "last_sync_outcome: "@ + ascii_lowercase(s.last_sync_outcome@),
        "sync_age: "@ + or_none(s.sync_age),
        "conflict_count: "@ + decimal(s.conflict_count as nat),
        "blocked_entries: "@ + decimal(s.blocked_entries as nat),
        "route_failures: "@ + decimal(s.route_failures as nat),
    ] + peers_lines(peers)
}

fn labelled(label: &str, value: &str) -> (s: String)
    ensures
        s@ == label@ + value@,
{
    let mut s = owned(label);
    push_str(&mut s, value);
    s
}

fn labelled_count(label: &str, n: u64) -> (s: String)
    ensures
        s@ == label@ + decimal(n as nat),
{
    let mut s = owned(label);
    push_decimal(&mut s, n);
    s
}

fn labelled_opt(label: &str, o: &Option<String>) -> (s: String)
    ensures
        s@ == label@ + or_none(*o),
{
    match o {
        Some(v) => labelled(label, v.as_str()),
        None => labelled(label, "none"),
    }
}

fn push_line(lines: &mut Vec<String>, l: String)
    ensures
        texts(final(lines)@) == texts(old(lines)@).push(l@),
{
    lines.push(l);
    assert(texts(lines@) =~= texts(old(lines)@).push(l@));
}

fn push_peer_lines(lines: &mut Vec<String>, p: &FederationPeerManifest)
    ensures
        texts(final(lines)@) == texts(old(lines)@) + peer_lines(*p),
{
    push_line(lines, labelled("peer_id: ", p.peer_id.as_str()));
    push_line(lines, labelled("display_name: ", p.display_name.as_str()));
    push_line(lines, labelled("trust_state: ", trust_state_text(p.trust_state)));
    push_line(lines, labelled("sync_enabled: ", if p.sync_enabled { "true" } else { "false" }));
    push_line(lines, labelled_opt("last_sync_at: ", &p.last_sync_at));
    push_line(lines, labelled("last_sync_status: ", sync_status_text(p.last_sync_status)));
    let mut scopes: Vec<String> = Vec::new();
    let n = p.visible_registry_scopes.len();
    let mut i: usize = 0;
    while i < n
        invariant
            n == p.visible_registry_scopes@.len(),
            i <= n,
            texts(scopes@) == scope_names(p.visible_registry_scopes@).take(i as int),
        decreases n - i,
    {
        let ghost before = scopes@;
        let t = owned(scope_text(p.visible_registry_scopes[i]));
        push_line(&mut scopes, t);
        assert(scope_names(p.visible_registry_scopes@).take(i + 1) =~= scope_names(
            p.visible_registry_scopes@,
        ).take(i as int).push(scope_name(p.visible_registry_scopes@[i as int])));
        i = i + 1;
    }
    assert(scope_names(p.visible_registry_scopes@).take(n as int) =~= scope_names(
        p.visible_registry_scopes@,
    ));
    let joined = join_texts(&scopes, ", ");
    push_line(lines, labelled("visible_registry_scopes: ", joined.as_str()));
    assert(texts(lines@) =~= texts(old(lines)@) + peer_lines(*p));
}

fn push_peers_lines(lines: &mut Vec<String>, peers: &Vec<FederationPeerManifest>)
    ensures
        texts(final(lines)@) == texts(old(lines)@) + peers_lines(peers@),
{
    let n = peers.len();
    let mut i: usize = 0;
    assert(peers@.take(0) =~= Seq::<FederationPeerManifest>::empty());
    while i < n
        invariant
            n == peers@.len(),
            i <= n,
            texts(lines@) == texts(old(lines)@) + peers_lines(peers@.take(i as int)),
        decreases n - i,
    {
        proof {
            assert(peers@.take(i + 1).drop_last() =~= peers@.take(i as int));
            assert(peers@.take(i + 1).last() == peers@[i as int]);
        }
        let ghost mid = texts(lines@);
        push_peer_lines(lines, &peers[i]);
        assert(texts(lines@) =~= texts(old(lines)@) + peers_lines(peers@.take(i + 1)));
        i = i + 1;
    }
    assert(peers@.take(n as int) =~= peers@);
}

fn summary_head_lines(summary: &FederationStatusSummary) -> (lines: Vec<String>)
    ensures
        texts(lines@) == listing_lines(*summary, Seq::empty()),
{
    let mut lines: Vec<String> = Vec::new();
    push_line(&mut lines, labelled_count("peer_count: ", summary.peer_count));
    push_line(&mut lines, labelled_count("trusted_peer_count: ", summary.trusted_peer_count));
    let outcome = chars_of(summary.last_sync_outcome.as_str());
    let lowered = to_ascii_lowercase(outcome.as_slice());
    push_line(&mut lines, labelled("last_sync_outcome: ", lowered.as_str()));
    push_line(&mut lines, labelled_opt("sync_age: ", &summary.sync_age));
    push_line(&mut lines, labelled_count("conflict_count: ", summary.conflict_count));
    push_line(&mut lines, labelled_count("blocked_entries: ", summary.blocked_entries));
    push_line(&mut lines, labelled_count("route_failures: ", summary.route_failures));
    assert(peers_lines(Seq::<FederationPeerManifest>::empty()) =~= Seq::<Seq<char>>::empty());
    assert(texts(lines@) =~= listing_lines(*summary, Seq::empty()));
    lines
}

/// The peer listing: the status summary, then every registered peer.
pub fn render_peer_listing(summary: &FederationStatusSummary, peers: &Vec<FederationPeerManifest>) -> (s: String)
    ensures
        s@ == join(listing_lines(*summary, peers@), "\n"@),
{
    let mut lines = summary_head_lines(summary);
    let ghost head = texts(lines@);
    push_peers_lines(&mut lines, peers);
    assert(texts(lines@) =~= listing_lines(*summary, peers@));
    join_texts(&lines, "\n")
}

} // verus!

verus! {

pub open spec fn lowered_all(s: Seq<String>) -> Seq<Seq<char>> {
    s.map_values(|x: String| ascii_lowercase(x@))
}

pub open spec fn conflict_line(c: FederationConflict) -> Seq<char> {
    "conflict: "@ + c.conflict_id@ + " "@ + ascii_lowercase(c.registry_type@) + " "@ + c.entry_key@
        + " "@ + c.conflict_reason@ + " "@ + c.resolution_state@
}

pub open spec fn conflict_lines(cs: Seq<FederationConflict>) -> Seq<Seq<char>> {
    cs.map_values(|c: FederationConflict| conflict_line(c))
}

pub open spec fn peer_ids(peers: Seq<FederationPeerManifest>) -> Seq<Seq<char>> {
    peers.map_values(|p: FederationPeerManifest| p.peer_id@)
}

/// The lines of a sync report: the session, the summary counts, every
/// conflict, and the registered peers.
pub open spec fn sync_report_lines(
    s: FederationStatusSummary,
    peers: Seq<FederationPeerManifest>,
    o: FederationSyncOutcome,
) -> Seq<Seq<char>> {
    let session = o.session;
    seq![
        "session_id: "@ + session.session_id@,
        "peer_id: "@ + session.peer_id@,
        "sync_status: "@ + sync_status_name(session.status),
        "registry_types: "@ + join(lowered_all(session.registry_types@), ", "@),
        "validated_entries: "@ + decimal(session.validated_entries as nat),
        "rejected_entries: "@ + decimal(session.rejected_entries as nat),
        "conflict_count: "@ + decimal(session.conflict_count as nat),
        "evidence_ref: "@ + session.evidence_ref@,
        "finished_at: "@ + or_none(session.finished_at),
        "peer_count: "@ + decimal(s.peer_count as nat),
        "trusted_peer_count: "@ + decimal(s.trusted_peer_count as nat),
    ] + conflict_lines(o.conflicts@) + seq!["registered_peers: "@ + join(peer_ids(peers), ", "@)]
}

fn lowered_texts(v: &Vec<String>) -> (r: Vec<String>)
    ensures
        texts(r@) == lowered_all(v@),
{
    let mut r: Vec<String> = Vec::new();
    let n = v.len();
    let mut i: usize = 0;
    while i < n
        invariant
            n == v@.len(),
            i <= n,
            texts(r@) == lowered_all(v@).take(i as int),
        decreases n - i,
    {
        let c = chars_of(v[i].as_str());
        let l = to_ascii_lowercase(c.as_slice());
        push_line(&mut r, l);
        assert(lowered_all(v@).take(i + 1) =~= lowered_all(v@).take(i as int).push(
            ascii_lowercase(v@[i as int]@),
        ));
        i = i + 1;
    }
    assert(lowered_all(v@).take(n as int) =~= lowered_all(v@));
    r
}

/// The sync report of one sync session.
pub fn render_sync_report(
    summary: &FederationStatusSummary,
    peers: &Vec<FederationPeerManifest>,
    outcome: &FederationSyncOutcome,
) -> (s: String)
    ensures
        s@ == join(sync_report_lines(*summary, peers@, *outcome), "\n"@),
{
    let session = &outcome.session;
    let mut lines: Vec<String> = Vec::new();
    push_line(&mut lines, labelled("session_id: ", session.session_id.as_str()));
    push_line(&mut lines, labelled("peer_id: ", session.peer_id.as_str()));
    push_line(&mut lines, labelled("sync_status: ", sync_status_text(session.status)));
    let kinds = lowered_texts(&session.registry_types);
    let joined = join_texts(&kinds, ", ");
    push_line(&mut lines, labelled("registry_types: ", joined.as_str()));
    push_line(&mut lines, labelled_count("validated_entries: ", session.validated_entries));
    push_line(&mut lines, labelled_count("rejected_entries: ", session.rejected_entries));
    push_line(&mut lines, labelled_count("conflict_count: ", session.conflict_count));
    push_line(&mut lines, labelled("evidence_ref: ", session.evidence_ref.as_str()));
    push_line(&mut lines, labelled_opt("finished_at: ", &session.finished_at));
    push_line(&mut lines, labelled_count("peer_count: ", summary.peer_count));
    push_line(&mut lines, labelled_count("trusted_peer_count: ", summary.trusted_peer_count));
    let ghost head = texts(lines@);
    let n = outcome.conflicts.len();
    let mut i: usize = 0;
    while i < n
        invariant
            n == outcome.conflicts@.len(),
            i <= n,
            texts(lines@) == head + conflict_lines(outcome.conflicts@).take(i as int),
        decreases n - i,
    {
        let c = &outcome.conflicts[i];
        let mut l = owned("conflict: ");
        push_str(&mut l, c.conflict_id.as_str());
        push_str(&mut l, " ");
        let kind = chars_of(c.registry_type.as_str());
        let kind_lower = to_ascii_lowercase(kind.as_slice());
        push_str(&mut l, kind_lower.as_str());
        push_str(&mut l, " ");
        push_str(&mut l, c.entry_key.as_str());
        push_str(&mut l, " ");
        push_str(&mut l, c.conflict_reason.as_str());
        push_str(&mut l, " ");
        push_str(&mut l, c.resolution_state.as_str());
        assert(l@ == conflict_line(*c));
        push_line(&mut lines, l);
        assert(conflict_lines(outcome.conflicts@).take(i + 1) =~= conflict_lines(
            outcome.conflicts@,
        ).take(i as int).push(conflict_line(outcome.conflicts@[i as int])));
        assert(texts(lines@) =~= head + conflict_lines(outcome.conflicts@).take(i + 1));
        i = i + 1;
    }
    assert(conflict_lines(outcome.conflicts@).take(n as int) =~= conflict_lines(outcome.conflicts@));
    let mut ids: Vec<String> = Vec::new();
    let k = peers.len();
    let mut j: usize = 0;
    while j < k
        invariant
            k == peers@.len(),
            j <= k,
            texts(ids@) == peer_ids(peers@).take(j as int),
        decreases k - j,
    {
        push_line(&mut ids, peers[j].peer_id.clone());
        assert(peer_ids(peers@).take(j + 1) =~= peer_ids(peers@).take(j as int).push(
            peers@[j as int].peer_id@,
        ));
        j = j + 1;
    }
    assert(peer_ids(peers@).take(k as int) =~= peer_ids(peers@));
    let joined_ids = join_texts(&ids, ", ");
    push_line(&mut lines, labelled("registered_peers: ", joined_ids.as_str()));
    assert(texts(lines@) =~= sync_report_lines(*summary, peers@, *outcome));
    join_texts(&lines, "\n")
}

/// The `federation peers` report.
pub fn render_federation_peers(summary: &FederationStatusSummary, peers: &Vec<FederationPeerManifest>) -> (s: String)
    ensures
        s@ == join(listing_lines(*summary, peers@), "\n"@),
{
    render_peer_listing(summary, peers)
}

/// The `federation sync` report.
pub fn render_federation_sync(
    summary: &FederationStatusSummary,
    peers: &Vec<FederationPeerManifest>,
    outcome: &FederationSyncOutcome,
) -> (s: String)
    ensures
        s@ == join(sync_report_lines(*summary, peers@, *outcome), "\n"@),
{
    render_sync_report(summary, peers, outcome)
}

/// The `federation status` report: the sync report, a line break, then the
/// peer listing.
pub fn render_federation_status(
    summary: &FederationStatusSummary,
    peers: &Vec<FederationPeerManifest>,
    outcome: &FederationSyncOutcome,
) -> (s: String)
    ensures
        s@ == join(sync_report_lines(*summary, peers@, *outcome), "\n"@) + "\n"@ + join(
            listing_lines(*summary, peers@),
            "\n"@,
        ),
{
    let mut s = render_sync_report(summary, peers, outcome);
    push_str(&mut s, "\n");
    let listing = render_peer_listing(summary, peers);
    push_str(&mut s, listing.as_str());
    s
}

/// One error of a refused federation operation: the debug rendering of its
/// severity, its target and message.
#[derive(Debug)]
pub struct FederationErrorLine {
    pub severity: String,
    pub target: String,
    pub message: String,
}

pub open spec fn failure_lines(errors: Seq<FederationErrorLine>) -> Seq<Seq<char>> {
    errors.map_values(|e: FederationErrorLine| e.severity@ + " "@ + e.target@ + ": "@ + e.message@)
}

/// `<severity> <target>: <message>`, one error per line.
pub fn render_federation_failure(errors: &Vec<FederationErrorLine>) -> (s: String)
    ensures
        s@ == join(failure_lines(errors@), "\n"@),
{
    let mut lines: Vec<String> = Vec::new();
    let n = errors.len();
    let mut i: usize = 0;
    while i < n
        invariant
            n == errors@.len(),
            i <= n,
            texts(lines@) == failure_lines(errors@).take(i as int),
        decreases n - i,
    {
        let e = &errors[i];
        let mut l = owned(e.severity.as_str());
        push_str(&mut l, " ");
        push_str(&mut l, e.target.as_str());
        push_str(&mut l, ": ");
        push_str(&mut l, e.message.as_str());
        assert(l@ == failure_lines(errors@)[i as int]);
        push_line(&mut lines, l);
        assert(failure_lines(errors@).take(i + 1) =~= failure_lines(errors@).take(i as int).push(
            failure_lines(errors@)[i as int],
        ));
        i = i + 1;
    }
    assert(failure_lines(errors@).take(n as int) =~= failure_lines(errors@));
    join_texts(&lines, "\n")
}

} // verus!
