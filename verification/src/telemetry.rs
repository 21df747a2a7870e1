//! Host-owned, aggregate-only authoring outcome telemetry. A host supplies
//! an opaque contributor ticket and a normalized milestone; the bucket keeps
//! only aggregate counters and the set of one-way ticket hashes, and exports
//! them only for at least twenty distinct contributors inside the retention
//! window.

use vstd::prelude::*;
use vstd::utf8::encode_utf8;
use crate::digest::{hex_lower, hex_lower_string, sha256, sha256_digest};
use crate::text::{blank, chars_of, is_blank};

verus! {

/// Exports need at least this many distinct contributors.
pub const MIN_DISTINCT_CONTRIBUTORS: usize = 20;

/// Buckets are retained for 90 days.
pub const RETENTION_DAYS: i64 = 90;

/// The retention window in seconds.
pub const RETENTION_SECONDS: i64 = 7776000;

#[derive(Clone, Copy, Debug, PartialEq, Eq, PartialOrd, Ord, Hash, Structural)]
pub enum AuthoringMilestone {
    AuthoringStarted,
    ReviewFinding,
    Revision,
    TerminalOutcome,
}

#[derive(Clone, Copy, Debug, PartialEq, Eq, PartialOrd, Ord, Hash, Structural)]
pub enum AuthoringRoute {
    Manual,
    SkillAssisted,
}

#[derive(Clone, Copy, Debug, PartialEq, Eq, PartialOrd, Ord, Hash, Structural)]
pub enum TerminalOutcome {
    ReviewAccepted,
    MaterialRework,
    AbandonedDeferred,
}

#[derive(Clone, Copy, Debug, PartialEq, Eq, PartialOrd, Ord, Hash, Structural)]
pub enum RevisionCountBucket {
    Zero,
    One,
    TwoToThree,
    FourPlus,
}

#[derive(Clone, Copy, Debug, PartialEq, Eq, PartialOrd, Ord, Hash, Structural)]
pub enum ElapsedTimeBucket {
    UnderHour,
    OneToFourHours,
    FourToTwentyFourHours,
    OverDay,
}

#[derive(Clone, Copy, Debug, PartialEq, Eq, PartialOrd, Ord, Hash, Structural)]
pub enum FindingCategory {
    ContractDrift,
    AbiPackaging,
    TestCoverage,
    SecurityPolicy,
    Documentation,
}

pub open spec fn route_index(r: AuthoringRoute) -> int {
    match r {
        AuthoringRoute::Manual => 0,
        AuthoringRoute::SkillAssisted => 1,
    }
}

pub open spec fn outcome_index(o: TerminalOutcome) -> int {
    match o {
        TerminalOutcome::ReviewAccepted => 0,
        TerminalOutcome::MaterialRework => 1,
        TerminalOutcome::AbandonedDeferred => 2,
    }
}

pub open spec fn revision_index(b: RevisionCountBucket) -> int {
    match b {
        RevisionCountBucket::Zero => 0,
        RevisionCountBucket::One => 1,
        RevisionCountBucket::TwoToThree => 2,
        RevisionCountBucket::FourPlus => 3,
    }
}

pub open spec fn elapsed_index(b: ElapsedTimeBucket) -> int {
    match b {
        ElapsedTimeBucket::UnderHour => 0,
        ElapsedTimeBucket::OneToFourHours => 1,
        ElapsedTimeBucket::FourToTwentyFourHours => 2,
        ElapsedTimeBucket::OverDay => 3,
    }
}

pub open spec fn finding_index(c: FindingCategory) -> int {
    match c {
        FindingCategory::ContractDrift => 0,
        FindingCategory::AbiPackaging => 1,
        FindingCategory::TestCoverage => 2,
        FindingCategory::SecurityPolicy => 3,
        FindingCategory::Documentation => 4,
    }
}

fn route_slot(r: AuthoringRoute) -> (k: usize)
    ensures
        k == route_index(r),
{
    match r {
        AuthoringRoute::Manual => 0,
        AuthoringRoute::SkillAssisted => 1,
    }
}

fn outcome_slot(o: TerminalOutcome) -> (k: usize)
    ensures
        k == outcome_index(o),
{
    match o {
        TerminalOutcome::ReviewAccepted => 0,
        TerminalOutcome::MaterialRework => 1,
        TerminalOutcome::AbandonedDeferred => 2,
    }
}

fn revision_slot(b: RevisionCountBucket) -> (k: usize)
    ensures
        k == revision_index(b),
{
    match b {
        RevisionCountBucket::Zero => 0,
        RevisionCountBucket::One => 1,
        RevisionCountBucket::TwoToThree => 2,
        RevisionCountBucket::FourPlus => 3,
    }
}

fn elapsed_slot(b: ElapsedTimeBucket) -> (k: usize)
    ensures
        k == elapsed_index(b),
{
    match b {
        ElapsedTimeBucket::UnderHour => 0,
        ElapsedTimeBucket::OneToFourHours => 1,
        ElapsedTimeBucket::FourToTwentyFourHours => 2,
        ElapsedTimeBucket::OverDay => 3,
    }
}

fn finding_slot(c: FindingCategory) -> (k: usize)
    ensures
        k == finding_index(c),
{
    match c {
        FindingCategory::ContractDrift => 0,
        FindingCategory::AbiPackaging => 1,
        FindingCategory::TestCoverage => 2,
        FindingCategory::SecurityPolicy => 3,
        FindingCategory::Documentation => 4,
    }
}

/// A UTC instant: whole seconds since the Unix epoch and the nanoseconds
/// within that second.
#[derive(Clone, Copy, Debug, PartialEq, Eq, Structural)]
pub struct UtcTime {
    pub seconds: i64,
    pub nanos: u32,
}

/// `a` is not later than `b`.
pub open spec fn time_le(a: UtcTime, b: UtcTime) -> bool {
    a.seconds < b.seconds || (a.seconds == b.seconds && a.nanos <= b.nanos)
}

/// A bucket opened at `opened` has expired at `now` once `now` is at least
/// the retention window after the opening.
pub open spec fn expired_at(opened: UtcTime, now: UtcTime) -> bool {
    (now.seconds as int) > (opened.seconds as int) + RETENTION_SECONDS || ((now.seconds as int) == (
    opened.seconds as int) + RETENTION_SECONDS && now.nanos >= opened.nanos)
}

/// Closed envelope supplied by a trusted integrating host; free-form text
/// and identifiers are absent.
#[derive(Clone, Debug, PartialEq, Eq)]
pub struct AuthoringOutcomeEvent {
    pub milestone: AuthoringMilestone,
    pub authoring_route: Option<AuthoringRoute>,
    pub terminal_outcome: Option<TerminalOutcome>,
    pub revision_count_bucket: Option<RevisionCountBucket>,
    pub elapsed_time_bucket: Option<ElapsedTimeBucket>,
    /// The categories of the event; each one counts once however often it
    /// is listed.
    pub finding_categories: Vec<FindingCategory>,
}

/// One access to the aggregated analytics, as the audit log records it.
#[derive(Clone, Debug, PartialEq, Eq)]
pub struct AnalyticsAccessAuditRecord {
    pub role: String,
    pub purpose: String,
    pub timestamp: UtcTime,
    pub bucket_opened_at: UtcTime,
    pub allowed: bool,
}

/// Host-owned switch for authoring telemetry; off by default.
#[derive(Clone, Debug, Default, PartialEq, Eq, Structural)]
pub struct AuthoringTelemetryHostConfig {
    pub enabled: bool,
}

#[derive(Clone, Debug, PartialEq, Eq)]
pub enum AuthoringTelemetryError {
    EmptyTicket,
    UnpublishedBucket,
    Io(String),
}

/// The one-way key a ticket is kept under: lower-case hexadecimal of the
/// SHA-256 digest of its UTF-8 bytes.
pub open spec fn ticket_key(ticket: Seq<char>) -> Seq<char> {
    hex_lower(sha256_digest(encode_utf8(ticket)))
}

/// Adds one to a counter, stopping at the largest `u64`.
pub open spec fn sat_inc(x: u64) -> u64 {
    if x == u64::MAX {
        x
    } else {
        (x + 1) as u64
    }
}

pub open spec fn bump(counts: Seq<u64>, k: int) -> Seq<u64> {
    counts.update(k, sat_inc(counts[k]))
}

pub open spec fn bump_opt(counts: Seq<u64>, k: Option<int>) -> Seq<u64> {
    match k {
        Some(k) => bump(counts, k),
        None => counts,
    }
}

/// One count for every category present in `cats`.
pub open spec fn bump_categories(counts: Seq<u64>, cats: Seq<FindingCategory>) -> Seq<u64> {
    Seq::new(counts.len(), |k: int| if exists|i: int| 0 <= i < cats.len() && finding_index(#[trigger] cats[i]) == k {
        sat_inc(counts[k])
    } else {
        counts[k]
    })
}

pub open spec fn opt_index<T>(o: Option<T>, f: spec_fn(T) -> int) -> Option<int> {
    match o {
        Some(x) => Some(f(x)),
        None => None,
    }
}

/// The aggregate state of a bucket. Counters are indexed by the order the
/// category enums are declared in; zero means the category never occurred.
pub struct BucketView {
    pub opened_at: UtcTime,
    pub ticket_hashes: Seq<Seq<char>>,
    pub authoring_route_counts: Seq<u64>,
    pub terminal_outcome_counts: Seq<u64>,
    pub revision_count_bucket_counts: Seq<u64>,
    pub elapsed_time_bucket_counts: Seq<u64>,
    pub finding_category_counts: Seq<u64>,
}

/// The bucket after recording `event` for a non-blank ticket.
pub open spec fn recorded(b: BucketView, ticket: Seq<char>, event: AuthoringOutcomeEvent) -> BucketView {
    BucketView {
        opened_at: b.opened_at,
        ticket_hashes: if b.ticket_hashes.contains(ticket_key(ticket)) {
            b.ticket_hashes
        } else {
            b.ticket_hashes.push(ticket_key(ticket))
        },
        authoring_route_counts: bump_opt(b.authoring_route_counts, opt_index(event.authoring_route, |r: AuthoringRoute| route_index(r))),
        terminal_outcome_counts: bump_opt(b.terminal_outcome_counts, opt_index(event.terminal_outcome, |o: TerminalOutcome| outcome_index(o))),
        revision_count_bucket_counts: bump_opt(b.revision_count_bucket_counts, opt_index(event.revision_count_bucket, |x: RevisionCountBucket| revision_index(x))),
        elapsed_time_bucket_counts: bump_opt(b.elapsed_time_bucket_counts, opt_index(event.elapsed_time_bucket, |x: ElapsedTimeBucket| elapsed_index(x))),
        finding_category_counts: bump_categories(b.finding_category_counts, event.finding_categories@),
    }
}

/// An empty bucket opened at `t`.
pub open spec fn empty_bucket(t: UtcTime) -> BucketView {
    BucketView {
        opened_at: t,
        ticket_hashes: Seq::empty(),
        authoring_route_counts: Seq::new(2, |k: int| 0u64),
        terminal_outcome_counts: Seq::new(3, |k: int| 0u64),
        revision_count_bucket_counts: Seq::new(4, |k: int| 0u64),
        elapsed_time_bucket_counts: Seq::new(4, |k: int| 0u64),
        finding_category_counts: Seq::new(5, |k: int| 0u64),
    }
}

/// A bucket may be published when it has not expired and holds at least the
/// minimum number of distinct contributors.
pub open spec fn eligible(b: BucketView, now: UtcTime) -> bool {
    !expired_at(b.opened_at, now) && b.ticket_hashes.len() >= MIN_DISTINCT_CONTRIBUTORS
}

/// Aggregate counters of one bucket of authoring outcomes.
#[derive(Debug)]
pub struct AuthoringAggregateBucket {
    pub opened_at: UtcTime,
    ticket_hashes: Vec<String>,
    authoring_route_counts: Vec<u64>,
    terminal_outcome_counts: Vec<u64>,
    revision_count_bucket_counts: Vec<u64>,
    elapsed_time_bucket_counts: Vec<u64>,
    finding_category_counts: Vec<u64>,
}

/// The bounded aggregate a separately configured host may export.
#[derive(Debug)]
pub struct RemoteAuthoringAggregate {
    pub opened_at: UtcTime,
    pub closes_at: UtcTime,
    pub distinct_contributor_count: usize,
    pub authoring_route_counts: Vec<u64>,
    pub terminal_outcome_counts: Vec<u64>,
    pub revision_count_bucket_counts: Vec<u64>,
    pub elapsed_time_bucket_counts: Vec<u64>,
    pub finding_category_counts: Vec<u64>,
}

fn copy_counts(v: &Vec<u64>) -> (r: Vec<u64>)
    ensures
        r@ == v@,
{
    let mut r: Vec<u64> = Vec::new();
    let n = v.len();
    let mut i: usize = 0;
    while i < n
        invariant
            n == v@.len(),
            i <= n,
            r@ == v@.take(i as int),
        decreases n - i,
    {
        r.push(v[i]);
        assert(r@ =~= v@.take(i + 1));
        i = i + 1;
    }
    assert(v@.take(n as int) =~= v@);
    r
}

fn zeros(n: usize) -> (r: Vec<u64>)
    ensures
        r@ == Seq::new(n as nat, |k: int| 0u64),
{
    let mut r: Vec<u64> = Vec::new();
    let mut i: usize = 0;
    while i < n
        invariant
            i <= n,
            r@ == Seq::new(i as nat, |k: int| 0u64),
        decreases n - i,
    {
        r.push(0);
        assert(r@ =~= Seq::new((i + 1) as nat, |k: int| 0u64));
        i = i + 1;
    }
    r
}

fn increment(counts: &mut Vec<u64>, k: usize)
    requires
        k < old(counts)@.len(),
    ensures
        final(counts)@ == bump(old(counts)@, k as int),
{
    let c = counts[k];
    let next = if c == u64::MAX {
        c
    } else {
        c + 1
    };
    counts.set(k, next);
    assert(counts@ =~= bump(old(counts)@, k as int));
}

fn has_category(cats: &Vec<FindingCategory>, k: usize) -> (b: bool)
    ensures
        b == exists|i: int| 0 <= i < cats@.len() && finding_index(#[trigger] cats@[i]) == k,
{
    let n = cats.len();
    let mut i: usize = 0;
    while i < n
        invariant
            n == cats@.len(),
            i <= n,
            forall|j: int| 0 <= j < i ==> finding_index(#[trigger] cats@[j]) != k,
        decreases n - i,
    {
        if finding_slot(cats[i]) == k {
            return true;
        }
        i = i + 1;
    }
    false
}

impl AuthoringAggregateBucket {
    pub closed spec fn view_bucket(&self) -> BucketView {
        BucketView {
            opened_at: self.opened_at,
            ticket_hashes: self.ticket_hashes@.map_values(|s: String| s@),
            authoring_route_counts: self.authoring_route_counts@,
            terminal_outcome_counts: self.terminal_outcome_counts@,
            revision_count_bucket_counts: self.revision_count_bucket_counts@,
            elapsed_time_bucket_counts: self.elapsed_time_bucket_counts@,
            finding_category_counts: self.finding_category_counts@,
        }
    }

    /// Every ticket hash occurs once and every counter family has one slot
    /// per category.
    pub open spec fn wf(&self) -> bool {
        let b = self.view_bucket();
        &&& b.ticket_hashes.no_duplicates()
        &&& b.authoring_route_counts.len() == 2
        &&& b.terminal_outcome_counts.len() == 3
        &&& b.revision_count_bucket_counts.len() == 4
        &&& b.elapsed_time_bucket_counts.len() == 4
        &&& b.finding_category_counts.len() == 5
    }

    /// An empty bucket opened at `opened_at`.
    pub fn new(opened_at: UtcTime) -> (r: Self)
        ensures
            r.wf(),
            r.view_bucket() == empty_bucket(opened_at),
    {
        let r = AuthoringAggregateBucket {
            opened_at,
            ticket_hashes: Vec::new(),
            authoring_route_counts: zeros(2),
            terminal_outcome_counts: zeros(3),
            revision_count_bucket_counts: zeros(4),
            elapsed_time_bucket_counts: zeros(4),
            finding_category_counts: zeros(5),
        };
        assert(r.view_bucket().ticket_hashes =~= Seq::<Seq<char>>::empty());
        r
    }

    /// Records only aggregate categories; the ticket is hashed before it
    /// reaches the bucket. A blank ticket is refused and changes nothing.
    pub fn record(&mut self, opaque_ticket: &str, event: &AuthoringOutcomeEvent) -> (r: Result<(), AuthoringTelemetryError>)
        requires
            old(self).wf(),
        ensures
            final(self).wf(),
            blank(opaque_ticket@) ==> r == Err::<(), AuthoringTelemetryError>(AuthoringTelemetryError::EmptyTicket)
                && final(self).view_bucket() == old(self).view_bucket(),
            !blank(opaque_ticket@) ==> r is Ok && final(self).view_bucket() == recorded(old(self).view_bucket(), opaque_ticket@, *event),
    {
        let v = chars_of(opaque_ticket);
        if is_blank(v.as_slice()) {
            return Err(AuthoringTelemetryError::EmptyTicket);
        }
        let ghost old_b = self.view_bucket();
        let digest = sha256(opaque_ticket.as_bytes());
        let key = hex_lower_string(digest.as_slice());
        assert(key@ == ticket_key(opaque_ticket@));
        let n = self.ticket_hashes.len();
        let mut i: usize = 0;
        let mut present = false;
        while i < n
            invariant
                n == self.ticket_hashes@.len(),
                i <= n,
                old_b.ticket_hashes == self.ticket_hashes@.map_values(|s: String| s@),
                !present ==> forall|j: int| 0 <= j < i ==> (#[trigger] self.ticket_hashes@[j])@ != key@,
                present ==> old_b.ticket_hashes.contains(key@),
            decreases n - i,
        {
            if crate::text::str_equals(self.ticket_hashes[i].as_str(), key.as_str()) {
                present = true;
                assert(old_b.ticket_hashes[i as int] == key@);
            }
            i = i + 1;
        }
        if !present {
            assert(!old_b.ticket_hashes.contains(key@)) by {
                if old_b.ticket_hashes.contains(key@) {
                    let j = choose|j: int| 0 <= j < old_b.ticket_hashes.len() && old_b.ticket_hashes[j] == key@;
                    assert(self.ticket_hashes@[j]@ == key@);
                }
            }
            self.ticket_hashes.push(key);
            assert(self.ticket_hashes@.map_values(|s: String| s@) =~= old_b.ticket_hashes.push(key@));
        }
        if let Some(route) = event.authoring_route {
            increment(&mut self.authoring_route_counts, route_slot(route));
        }
        if let Some(outcome) = event.terminal_outcome {
            increment(&mut self.terminal_outcome_counts, outcome_slot(outcome));
        }
        if let Some(bucket) = event.revision_count_bucket {
            increment(&mut self.revision_count_bucket_counts, revision_slot(bucket));
        }
        if let Some(bucket) = event.elapsed_time_bucket {
            increment(&mut self.elapsed_time_bucket_counts, elapsed_slot(bucket));
        }
        let ghost before = self.finding_category_counts@;
        let ghost mid = self.view_bucket();
        let mut k: usize = 0;
        while k < 5
            invariant
                k <= 5,
                self.opened_at == mid.opened_at,
                self.ticket_hashes@.map_values(|s: String| s@) == mid.ticket_hashes,
                self.authoring_route_counts@ == mid.authoring_route_counts,
                self.terminal_outcome_counts@ == mid.terminal_outcome_counts,
                self.revision_count_bucket_counts@ == mid.revision_count_bucket_counts,
                self.elapsed_time_bucket_counts@ == mid.elapsed_time_bucket_counts,
                before.len() == 5,
                self.finding_category_counts@.len() == 5,
                forall|j: int| 0 <= j < 5 ==> #[trigger] self.finding_category_counts@[j] == if j < k {
                    bump_categories(before, event.finding_categories@)[j]
                } else {
                    before[j]
                },
            decreases 5 - k,
        {
            if has_category(&event.finding_categories, k) {
                increment(&mut self.finding_category_counts, k);
            }
            k = k + 1;
        }
        assert(self.finding_category_counts@ =~= bump_categories(before, event.finding_categories@));
        proof {
            let b = self.view_bucket();
            if !old_b.ticket_hashes.contains(key@) {
                let h = b.ticket_hashes;
                assert(h == old_b.ticket_hashes.push(key@));
                assert forall|a: int, c: int| 0 <= a < c < h.len() implies h[a] != h[c] by {
                    assert(h[a] == old_b.ticket_hashes[a]);
                    if c == h.len() - 1 {
                        assert(h[c] == key@);
                        if h[a] == key@ {
                            assert(old_b.ticket_hashes.contains(key@));
                        }
                    } else {
                        assert(h[c] == old_b.ticket_hashes[c]);
                    }
                }
                assert(h.no_duplicates());
            }
        }
        Ok(())
    }

    /// Whether the retention window has passed at `now`.
    pub fn is_expired(&self, now: UtcTime) -> (b: bool)
        ensures
            b == expired_at(self.view_bucket().opened_at, now),
    {
        let limit: i128 = self.opened_at.seconds as i128 + RETENTION_SECONDS as i128;
        let t: i128 = now.seconds as i128;
        t > limit || (t == limit && now.nanos >= self.opened_at.nanos)
    }

    /// Whether the bucket may be published at `now`.
    pub fn eligible_for_export(&self, now: UtcTime) -> (b: bool)
        requires
            self.wf(),
        ensures
            b == eligible(self.view_bucket(), now),
    {
        !self.is_expired(now) && self.ticket_hashes.len() >= MIN_DISTINCT_CONTRIBUTORS
    }

    /// Number of distinct contributors recorded.
    pub fn distinct_contributor_count(&self) -> (n: usize)
        ensures
            n == self.view_bucket().ticket_hashes.len(),
    {
        self.ticket_hashes.len()
    }

    /// The aggregate to export; refused below the contributor threshold or
    /// after the retention window.
    pub fn remote_aggregate(&self, now: UtcTime) -> (r: Result<RemoteAuthoringAggregate, AuthoringTelemetryError>)
        requires
            self.wf(),
        ensures
            !eligible(self.view_bucket(), now) ==> r == Err::<RemoteAuthoringAggregate, AuthoringTelemetryError>(AuthoringTelemetryError::UnpublishedBucket),
            eligible(self.view_bucket(), now) ==> (r matches Ok(a) && {
                let b = self.view_bucket();
                &&& a.opened_at == b.opened_at
                &&& a.closes_at == now
                &&& a.distinct_contributor_count == b.ticket_hashes.len()
                &&& a.authoring_route_counts@ == b.authoring_route_counts
                &&& a.terminal_outcome_counts@ == b.terminal_outcome_counts
                &&& a.revision_count_bucket_counts@ == b.revision_count_bucket_counts
                &&& a.elapsed_time_bucket_counts@ == b.elapsed_time_bucket_counts
                &&& a.finding_category_counts@ == b.finding_category_counts
            }),
    {
        if !self.eligible_for_export(now) {
            return Err(AuthoringTelemetryError::UnpublishedBucket);
        }
        Ok(RemoteAuthoringAggregate {
            opened_at: self.opened_at,
            closes_at: now,
            distinct_contributor_count: self.ticket_hashes.len(),
            authoring_route_counts: copy_counts(&self.authoring_route_counts),
            terminal_outcome_counts: copy_counts(&self.terminal_outcome_counts),
            revision_count_bucket_counts: copy_counts(&self.revision_count_bucket_counts),
            elapsed_time_bucket_counts: copy_counts(&self.elapsed_time_bucket_counts),
            finding_category_counts: copy_counts(&self.finding_category_counts),
        })
    }

    /// The retained ticket hashes, for persistence by the host.
    pub fn ticket_hashes(&self) -> (r: Vec<String>)
        ensures
            r@.map_values(|s: String| s@) == self.view_bucket().ticket_hashes,
    {
        let mut r: Vec<String> = Vec::new();
        let n = self.ticket_hashes.len();
        let mut i: usize = 0;
        while i < n
            invariant
                n == self.ticket_hashes@.len(),
                i <= n,
                r@.len() == i,
                forall|k: int| 0 <= k < i ==> (#[trigger] r@[k])@ == self.ticket_hashes@[k]@,
            decreases n - i,
        {
            r.push(self.ticket_hashes[i].clone());
            i = i + 1;
        }
        assert(r@.map_values(|s: String| s@) =~= self.view_bucket().ticket_hashes);
        r
    }

    /// The counters, in the order routes, terminal outcomes, revision
    /// buckets, elapsed-time buckets, finding categories.
    pub fn counters(&self) -> (r: (Vec<u64>, Vec<u64>, Vec<u64>, Vec<u64>, Vec<u64>))
        ensures
            r.0@ == self.view_bucket().authoring_route_counts,
            r.1@ == self.view_bucket().terminal_outcome_counts,
            r.2@ == self.view_bucket().revision_count_bucket_counts,
            r.3@ == self.view_bucket().elapsed_time_bucket_counts,
            r.4@ == self.view_bucket().finding_category_counts,
    {
        (
            copy_counts(&self.authoring_route_counts),
            copy_counts(&self.terminal_outcome_counts),
            copy_counts(&self.revision_count_bucket_counts),
            copy_counts(&self.elapsed_time_bucket_counts),
            copy_counts(&self.finding_category_counts),
        )
    }
}

pub open spec fn opt_bucket_view(b: Option<AuthoringAggregateBucket>) -> Option<BucketView> {
    match b {
        Some(b) => Some(b.view_bucket()),
        None => None,
    }
}

pub open spec fn opt_bucket_wf(b: Option<AuthoringAggregateBucket>) -> bool {
    match b {
        Some(b) => b.wf(),
        None => true,
    }
}

/// Host entry point: with telemetry disabled nothing is collected and the
/// bucket is unchanged; enabled, a bucket is opened at `now` when there is
/// none (even if the ticket is then refused as blank) and the event is
/// recorded into it.
pub fn record_from_host_config(
    config: &AuthoringTelemetryHostConfig,
    bucket: &mut Option<AuthoringAggregateBucket>,
    opaque_ticket: &str,
    event: &AuthoringOutcomeEvent,
    now: UtcTime,
) -> (r: Result<(), AuthoringTelemetryError>)
    requires
        opt_bucket_wf(*old(bucket)),
    ensures
        opt_bucket_wf(*final(bucket)),
        !config.enabled ==> r is Ok && opt_bucket_view(*final(bucket)) == opt_bucket_view(*old(bucket)),
        config.enabled ==> {
            let start = match opt_bucket_view(*old(bucket)) {
                Some(b) => b,
                None => empty_bucket(now),
            };
            if blank(opaque_ticket@) {
                r == Err::<(), AuthoringTelemetryError>(AuthoringTelemetryError::EmptyTicket)
                    && opt_bucket_view(*final(bucket)) == Some(start)
            } else {
                r is Ok && opt_bucket_view(*final(bucket)) == Some(recorded(start, opaque_ticket@, *event))
            }
        },
{
    if !config.enabled {
        return Ok(());
    }
    let mut active = match bucket.take() {
        Some(b) => b,
        None => AuthoringAggregateBucket::new(now),
    };
    let r = active.record(opaque_ticket, event);
    *bucket = Some(active);
    r
}

/// Host opt-out deletes the whole unpublished bucket. A bucket that is
/// already eligible for publication is kept and the opt-out refused.
pub fn delete_unpublished_bucket_on_opt_out(
    bucket: &mut Option<AuthoringAggregateBucket>,
    now: UtcTime,
) -> (r: Result<(), AuthoringTelemetryError>)
    requires
        opt_bucket_wf(*old(bucket)),
    ensures
        opt_bucket_wf(*final(bucket)),
        match opt_bucket_view(*old(bucket)) {
            None => r is Ok && (*final(bucket)) is None,
            Some(b) => if eligible(b, now) {
                r == Err::<(), AuthoringTelemetryError>(AuthoringTelemetryError::UnpublishedBucket)
                    && opt_bucket_view(*final(bucket)) == Some(b)
            } else {
                r is Ok && (*final(bucket)) is None
            },
        },
{
    let eligible_now = match bucket {
        None => {
            return Ok(());
        },
        Some(current) => current.eligible_for_export(now),
    };
    if eligible_now {
        return Err(AuthoringTelemetryError::UnpublishedBucket);
    }
    *bucket = None;
    Ok(())
}

} // verus!

verus! {

/// Recording keeps the ticket's key and adds no other, and recording the
/// same ticket again adds no contributor.
pub proof fn lemma_record_counts_each_contributor_once(
    b: BucketView,
    ticket: Seq<char>,
    event: AuthoringOutcomeEvent,
    again: AuthoringOutcomeEvent,
)
    ensures
        recorded(b, ticket, event).ticket_hashes.contains(ticket_key(ticket)),
        forall|x: Seq<char>| #[trigger] recorded(b, ticket, event).ticket_hashes.contains(x) <==> (
        b.ticket_hashes.contains(x) || x == ticket_key(ticket)),
        recorded(recorded(b, ticket, event), ticket, again).ticket_hashes == recorded(b, ticket, event).ticket_hashes,
{
    let h = recorded(b, ticket, event).ticket_hashes;
    let key = ticket_key(ticket);
    if !b.ticket_hashes.contains(key) {
        assert(h[h.len() - 1] == key);
        assert forall|x: Seq<char>| #[trigger] h.contains(x) <==> (b.ticket_hashes.contains(x) || x == key) by {
            if h.contains(x) {
                let i = choose|i: int| 0 <= i < h.len() && h[i] == x;
                if i < b.ticket_hashes.len() {
                    assert(b.ticket_hashes[i] == x);
                }
            }
            if b.ticket_hashes.contains(x) {
                let i = choose|i: int| 0 <= i < b.ticket_hashes.len() && b.ticket_hashes[i] == x;
                assert(h[i] == x);
            }
        }
    }
}

/// A bucket is expired exactly from the instant ninety days after it was
/// opened, and not one nanosecond earlier.
pub proof fn lemma_retention_window(opened: UtcTime, now: UtcTime)
    requires
        now.seconds == opened.seconds + RETENTION_SECONDS,
    ensures
        expired_at(opened, now) <==> now.nanos >= opened.nanos,
        expired_at(opened, UtcTime { seconds: now.seconds, nanos: opened.nanos }),
{
}

/// Below the contributor threshold no bucket is eligible for export,
/// whatever the time.
pub proof fn lemma_export_needs_threshold(b: BucketView, now: UtcTime)
    requires
        b.ticket_hashes.len() < MIN_DISTINCT_CONTRIBUTORS,
    ensures
        !eligible(b, now),
{
}

} // verus!
