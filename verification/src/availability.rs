//! Server-owned application availability. An application's availability is
//! `loading`, `ready` or `failed`; the only permitted moves are
//! `loading → ready` and `loading → failed`, and every accepted move is
//! recorded in order.

use vstd::prelude::*;
use crate::text::{
    chars_equal, chars_of, decimal, lemma_lex_asymmetric, lemma_lex_irreflexive,
    lemma_lex_total, lemma_lex_transitive, lex_less, lex_lt, owned, push_decimal, push_str,
};

verus! {

pub const AVAILABILITY_SCHEMA_VERSION: &'static str = "1.0.0";

pub const REASON_PERSISTED_APP_STATE_LOADED: &'static str = "persisted_app_state_loaded";

pub const REASON_REGISTRATION_REQUIRES_REFRESH: &'static str = "app_registration_requires_refresh";

pub const REASON_DECLARATION_UNMATERIALIZABLE: &'static str = "persisted_declaration_unmaterializable";

#[derive(Clone, Copy, Debug, PartialEq, Eq, Structural)]
pub enum AvailabilityState {
    Loading,
    Ready,
    Failed,
}

impl AvailabilityState {
    pub open spec fn name(self) -> Seq<char> {
        match self {
            AvailabilityState::Loading => "loading"@,
            AvailabilityState::Ready => "ready"@,
            AvailabilityState::Failed => "failed"@,
        }
    }

    /// The snake-case name used on the wire.
    pub fn as_str(self) -> (s: &'static str)
        ensures
            s@ == self.name(),
    {
        match self {
            AvailabilityState::Loading => "loading",
            AvailabilityState::Ready => "ready",
            AvailabilityState::Failed => "failed",
        }
    }
}

/// The availability state machine: only `loading → ready` and
/// `loading → failed`.
pub open spec fn permitted(from: AvailabilityState, to: AvailabilityState) -> bool {
    from is Loading && (to is Ready || to is Failed)
}

pub fn permitted_transition(from: AvailabilityState, to: AvailabilityState) -> (b: bool)
    ensures
        b == permitted(from, to),
{
    match (from, to) {
        (AvailabilityState::Loading, AvailabilityState::Ready) => true,
        (AvailabilityState::Loading, AvailabilityState::Failed) => true,
        _ => false,
    }
}

/// One recorded availability move.
#[derive(Debug, PartialEq, Eq)]
pub struct AvailabilityTransition {
    pub schema_version: String,
    pub workspace_id: String,
    pub app_id: String,
    pub load_attempt_id: String,
    pub from: AvailabilityState,
    pub to: AvailabilityState,
    pub timestamp: String,
    pub reason_code: String,
}

pub struct TransitionView {
    pub schema_version: Seq<char>,
    pub workspace_id: Seq<char>,
    pub app_id: Seq<char>,
    pub load_attempt_id: Seq<char>,
    pub from: AvailabilityState,
    pub to: AvailabilityState,
    pub timestamp: Seq<char>,
    pub reason_code: Seq<char>,
}

impl View for AvailabilityTransition {
    type V = TransitionView;

    open spec fn view(&self) -> TransitionView {
        TransitionView {
            schema_version: self.schema_version@,
            workspace_id: self.workspace_id@,
            app_id: self.app_id@,
            load_attempt_id: self.load_attempt_id@,
            from: self.from,
            to: self.to,
            timestamp: self.timestamp@,
            reason_code: self.reason_code@,
        }
    }
}

impl AvailabilityTransition {
    pub fn copy(&self) -> (r: Self)
        ensures
            r@ == self@,
    {
        AvailabilityTransition {
            schema_version: self.schema_version.clone(),
            workspace_id: self.workspace_id.clone(),
            app_id: self.app_id.clone(),
            load_attempt_id: self.load_attempt_id.clone(),
            from: self.from,
            to: self.to,
            timestamp: self.timestamp.clone(),
            reason_code: self.reason_code.clone(),
        }
    }
}

/// The availability of one application in the current load attempt.
#[derive(Debug, PartialEq, Eq)]
pub struct AppAvailability {
    pub app_id: String,
    pub load_attempt_id: String,
    pub current: AvailabilityState,
    pub reason_code: String,
    pub transitions: Vec<AvailabilityTransition>,
}

pub struct AppView {
    pub app_id: Seq<char>,
    pub load_attempt_id: Seq<char>,
    pub current: AvailabilityState,
    pub reason_code: Seq<char>,
    pub transitions: Seq<TransitionView>,
}

impl View for AppAvailability {
    type V = AppView;

    open spec fn view(&self) -> AppView {
        AppView {
            app_id: self.app_id@,
            load_attempt_id: self.load_attempt_id@,
            current: self.current,
            reason_code: self.reason_code@,
            transitions: self.transitions@.map_values(|t: AvailabilityTransition| t@),
        }
    }
}

impl AppAvailability {
    pub fn copy(&self) -> (r: Self)
        ensures
            r@ == self@,
    {
        let mut transitions: Vec<AvailabilityTransition> = Vec::new();
        let n = self.transitions.len();
        let mut i: usize = 0;
        while i < n
            invariant
                n == self.transitions@.len(),
                i <= n,
                transitions@.len() == i,
                forall|k: int| 0 <= k < i ==> #[trigger] transitions@[k]@ == self.transitions@[k]@,
            decreases n - i,
        {
            transitions.push(self.transitions[i].copy());
            i = i + 1;
        }
        let r = AppAvailability {
            app_id: self.app_id.clone(),
            load_attempt_id: self.load_attempt_id.clone(),
            current: self.current,
            reason_code: self.reason_code.clone(),
            transitions,
        };
        assert(r@.transitions =~= self@.transitions);
        r
    }
}

/// A refused availability move.
#[derive(Debug, PartialEq, Eq)]
pub struct AvailabilityTransitionError {
    pub code: String,
    pub message: String,
}

/// Availability of every application of a workspace, keyed and ordered by
/// application id.
#[derive(Debug)]
pub struct WorkspaceAppAvailability {
    apps: Vec<AppAvailability>,
}

/// Inserts `e` into a sequence ordered by application id, replacing the
/// entry with the same id.
pub open spec fn upsert(s: Seq<AppView>, e: AppView) -> Seq<AppView>
    decreases s.len(),
{
    if s.len() == 0 {
        seq![e]
    } else if s[0].app_id == e.app_id {
        s.update(0, e)
    } else if lex_lt(e.app_id, s[0].app_id) {
        seq![e] + s
    } else {
        seq![s[0]] + upsert(s.drop_first(), e)
    }
}

/// Strictly increasing application ids.
pub open spec fn sorted_ids(s: Seq<AppView>) -> bool {
    forall|i: int, j: int| 0 <= i < j < s.len() ==> lex_lt(#[trigger] s[i].app_id, #[trigger] s[j].app_id)
}

/// Index of the entry for `id`.
pub open spec fn find_app(s: Seq<AppView>, id: Seq<char>) -> Option<int> {
    if exists|i: int| 0 <= i < s.len() && (#[trigger] s[i]).app_id == id {
        Some(choose|i: int| 0 <= i < s.len() && (#[trigger] s[i]).app_id == id)
    } else {
        None
    }
}

/// The entry a new load attempt starts with.
pub open spec fn fresh_app(app_id: Seq<char>, attempt: Seq<char>) -> AppView {
    AppView {
        app_id,
        load_attempt_id: attempt,
        current: AvailabilityState::Loading,
        reason_code: "load_attempt_started"@,
        transitions: Seq::empty(),
    }
}

/// The message of a refused move.
pub open spec fn invalid_move_message(from: AvailabilityState, to: AvailabilityState) -> Seq<char> {
    "availability cannot move from "@ + from.name() + " to "@ + to.name()
}

/// What a transition request yields, given the clock reading (`None` when
/// the clock is before the Unix epoch): the result, as a transition record
/// or an error `(code, message)`, and the applications afterwards.
pub open spec fn transition_result(
    apps: Seq<AppView>,
    workspace_id: Seq<char>,
    app_id: Seq<char>,
    next: AvailabilityState,
    reason_code: Seq<char>,
    clock: Option<u64>,
) -> (Result<TransitionView, (Seq<char>, Seq<char>)>, Seq<AppView>) {
    match find_app(apps, app_id) {
        None => (
            Err(("unknown_app"@, "availability transition requires an active load attempt"@)),
            apps,
        ),
        Some(i) => {
            let app = apps[i];
            if !permitted(app.current, next) {
                (
                    Err(("invalid_availability_transition"@, invalid_move_message(app.current, next))),
                    apps,
                )
            } else {
                match clock {
                    None => (Err(("clock_error"@, "system clock is before Unix epoch"@)), apps),
                    Some(t) => {
                        let rec = TransitionView {
                            schema_version: "1.0.0"@,
                            workspace_id,
                            app_id,
                            load_attempt_id: app.load_attempt_id,
                            from: app.current,
                            to: next,
                            timestamp: "unix:"@ + decimal(t as nat),
                            reason_code,
                        };
                        (
                            Ok(rec),
                            apps.update(
                                i,
                                AppView {
                                    current: next,
                                    reason_code,
                                    transitions: app.transitions.push(rec),
                                    ..app
                                },
                            ),
                        )
                    },
                }
            }
        },
    }
}

pub open spec fn transition_view(
    r: Result<AvailabilityTransition, AvailabilityTransitionError>,
) -> Result<TransitionView, (Seq<char>, Seq<char>)> {
    match r {
        Ok(t) => Ok(t@),
        Err(e) => Err((e.code@, e.message@)),
    }
}

proof fn lemma_upsert_at(s: Seq<AppView>, e: AppView, i: int)
    requires
        0 <= i <= s.len(),
        forall|j: int| 0 <= j < i ==> lex_lt(#[trigger] s[j].app_id, e.app_id),
        i == s.len() || !lex_lt(s[i].app_id, e.app_id),
    ensures
        upsert(s, e) == if i < s.len() && s[i].app_id == e.app_id {
            s.update(i, e)
        } else {
            s.insert(i, e)
        },
    decreases i,
{
    if s.len() == 0 {
        assert(seq![e] =~= s.insert(0, e));
    } else if i == 0 {
        if s[0].app_id == e.app_id {
        } else {
            lemma_lex_total(s[0].app_id, e.app_id);
            assert(seq![e] + s =~= s.insert(0, e));
        }
    } else {
        lemma_lex_irreflexive(e.app_id);
        lemma_lex_asymmetric(s[0].app_id, e.app_id);
        assert(lex_lt(s[0].app_id, e.app_id));
        assert(s[0].app_id != e.app_id);
        let t = s.drop_first();
        assert forall|j: int| 0 <= j < i - 1 implies lex_lt(#[trigger] t[j].app_id, e.app_id) by {
            assert(t[j] == s[j + 1]);
        }
        lemma_upsert_at(t, e, i - 1);
        if i < s.len() && s[i].app_id == e.app_id {
            assert(seq![s[0]] + t.update(i - 1, e) =~= s.update(i, e));
        } else {
            assert(seq![s[0]] + t.insert(i - 1, e) =~= s.insert(i, e));
        }
    }
}

impl WorkspaceAppAvailability {
    /// The applications in id order.
    pub closed spec fn view_apps(&self) -> Seq<AppView> {
        self.apps@.map_values(|a: AppAvailability| a@)
    }

    /// Application ids are unique and increasing.
    pub closed spec fn wf(&self) -> bool {
        sorted_ids(self.view_apps())
    }

    /// No application has started loading.
    pub fn new() -> (r: Self)
        ensures
            r.wf(),
            r.view_apps() == Seq::<AppView>::empty(),
    {
        let r = WorkspaceAppAvailability { apps: Vec::new() };
        assert(r.view_apps() =~= Seq::<AppView>::empty());
        r
    }

    /// Starts a load attempt with a given attempt id: the application is
    /// `loading` with no recorded moves, replacing any earlier attempt.
    pub fn begin_load_attempt_with(&mut self, app_id: &str, load_attempt_id: String)
        requires
            old(self).wf(),
        ensures
            final(self).wf(),
            final(self).view_apps() == upsert(old(self).view_apps(), fresh_app(app_id@, load_attempt_id@)),
    {
        let ghost s = self.view_apps();
        let key = chars_of(app_id);
        let n = self.apps.len();
        let mut i: usize = 0;
        while i < n && lex_less(chars_of(self.apps[i].app_id.as_str()).as_slice(), key.as_slice())
            invariant
                n == self.apps@.len(),
                s == self.view_apps(),
                key@ == app_id@,
                i <= n,
                forall|j: int| 0 <= j < i ==> lex_lt(#[trigger] s[j].app_id, app_id@),
            decreases n - i,
        {
            i = i + 1;
        }
        let fresh = AppAvailability {
            app_id: owned(app_id),
            load_attempt_id,
            current: AvailabilityState::Loading,
            reason_code: owned("load_attempt_started"),
            transitions: Vec::new(),
        };
        let ghost e = fresh_app(app_id@, fresh.load_attempt_id@);
        assert(fresh@.transitions =~= Seq::<TransitionView>::empty());
        assert(fresh@ == e);
        proof {
            lemma_upsert_at(s, e, i as int);
        }
        if i < n && chars_equal(chars_of(self.apps[i].app_id.as_str()).as_slice(), key.as_slice()) {
            self.apps.set(i, fresh);
            assert(self.view_apps() =~= s.update(i as int, e));
        } else {
            self.apps.insert(i, fresh);
            assert(self.view_apps() =~= s.insert(i as int, e));
        }
        proof {
            let t = self.view_apps();
            assert forall|a: int, b: int| 0 <= a < b < t.len() implies lex_lt(#[trigger] t[a].app_id, #[trigger] t[b].app_id) by {
                if i < s.len() && s[i as int].app_id == e.app_id {
                } else {
                    if a < i && b == i {
                    } else if a == i && b > i {
                        lemma_lex_total(s[i as int].app_id, e.app_id);
                        if b - 1 > i {
                            lemma_lex_transitive(e.app_id, s[i as int].app_id, s[b - 1].app_id);
                        }
                    } else if a < i && b > i {
                        assert(t[b] == s[b - 1]);
                    } else if a > i {
                        assert(t[a] == s[a - 1] && t[b] == s[b - 1]);
                    }
                }
            }
        }
    }

    fn find_index(&self, app_id: &str) -> (r: Option<usize>)
        requires
            self.wf(),
        ensures
            match r {
                Some(i) => find_app(self.view_apps(), app_id@) == Some(i as int) && i < self.view_apps().len(),
                None => find_app(self.view_apps(), app_id@) is None,
            },
    {
        let key = chars_of(app_id);
        let n = self.apps.len();
        let ghost s = self.view_apps();
        let mut i: usize = 0;
        while i < n
            invariant
                n == self.apps@.len(),
                s == self.view_apps(),
                key@ == app_id@,
                i <= n,
                sorted_ids(s),
                forall|j: int| 0 <= j < i ==> (#[trigger] s[j]).app_id != app_id@,
            decreases n - i,
        {
            if chars_equal(chars_of(self.apps[i].app_id.as_str()).as_slice(), key.as_slice()) {
                proof {
                    assert(s[i as int].app_id == app_id@);
                    let k = choose|k: int| 0 <= k < s.len() && (#[trigger] s[k]).app_id == app_id@;
                    if k != i {
                        if k < i {
                            lemma_lex_irreflexive(app_id@);
                        } else {
                            lemma_lex_irreflexive(app_id@);
                            assert(lex_lt(s[i as int].app_id, s[k].app_id));
                        }
                    }
                }
                return Some(i);
            }
            i = i + 1;
        }
        None
    }

    /// Moves an application to `next` given the clock reading (seconds since
    /// the Unix epoch, or `None` when the clock is before it).
    pub fn transition_at(
        &mut self,
        workspace_id: &str,
        app_id: &str,
        next: AvailabilityState,
        reason_code: &str,
        clock: Option<u64>,
    ) -> (r: Result<AvailabilityTransition, AvailabilityTransitionError>)
        requires
            old(self).wf(),
        ensures
            final(self).wf(),
            (transition_view(r), final(self).view_apps()) == transition_result(
                old(self).view_apps(),
                workspace_id@,
                app_id@,
                next,
                reason_code@,
                clock,
            ),
    {
        let ghost s = self.view_apps();
        let Some(i) = self.find_index(app_id) else {
            return Err(AvailabilityTransitionError {
                code: owned("unknown_app"),
                message: owned("availability transition requires an active load attempt"),
            });
        };
        let current = self.apps[i].current;
        if !permitted_transition(current, next) {
            let mut message = owned("availability cannot move from ");
            push_str(&mut message, current.as_str());
            push_str(&mut message, " to ");
            push_str(&mut message, next.as_str());
            return Err(AvailabilityTransitionError {
                code: owned("invalid_availability_transition"),
                message,
            });
        }
        let Some(t) = clock else {
            return Err(AvailabilityTransitionError {
                code: owned("clock_error"),
                message: owned("system clock is before Unix epoch"),
            });
        };
        let mut timestamp = owned("unix:");
        push_decimal(&mut timestamp, t);
        let record = AvailabilityTransition {
            schema_version: owned(AVAILABILITY_SCHEMA_VERSION),
            workspace_id: owned(workspace_id),
            app_id: owned(app_id),
            load_attempt_id: self.apps[i].load_attempt_id.clone(),
            from: current,
            to: next,
            timestamp,
            reason_code: owned(reason_code),
        };
        let mut app = self.apps[i].copy();
        app.current = next;
        app.reason_code = owned(reason_code);
        app.transitions.push(record.copy());
        assert(app@.transitions =~= s[i as int].transitions.push(record@));
        self.apps.set(i, app);
        assert(self.view_apps() =~= transition_result(s, workspace_id@, app_id@, next, reason_code@, clock).1);
        assert(self.wf()) by {
            let u = self.view_apps();
            assert forall|a: int, b: int| 0 <= a < b < u.len() implies lex_lt(#[trigger] u[a].app_id, #[trigger] u[b].app_id) by {
                assert(u[a].app_id == s[a].app_id && u[b].app_id == s[b].app_id);
            }
        }
        Ok(record)
    }

    /// The applications, ordered by id.
    pub fn snapshot(&self) -> (r: Vec<AppAvailability>)
        ensures
            r@.map_values(|a: AppAvailability| a@) == self.view_apps(),
    {
        let mut r: Vec<AppAvailability> = Vec::new();
        let n = self.apps.len();
        let mut i: usize = 0;
        while i < n
            invariant
                n == self.apps@.len(),
                i <= n,
                r@.len() == i,
                forall|k: int| 0 <= k < i ==> #[trigger] r@[k]@ == self.apps@[k]@,
            decreases n - i,
        {
            r.push(self.apps[i].copy());
            i = i + 1;
        }
        assert(r@.map_values(|a: AppAvailability| a@) =~= self.view_apps());
        r
    }
}

} // verus!

verus! {

/// Calls `uuid::Uuid::new_v4` and renders it with `to_string`: a random
/// version-4 UUID. Nothing is promised of its value.
#[verifier::external_body]
fn new_load_attempt_id() -> String {
    uuid::Uuid::new_v4().to_string()
}

/// Calls `std::time::SystemTime::now` and `duration_since(UNIX_EPOCH)`:
/// whole seconds since the Unix epoch, or the text of the `SystemTimeError`
/// when the clock is before it. The reading depends on the machine's clock;
/// nothing is promised of it.
#[verifier::external_body]
pub(crate) fn unix_seconds_now() -> Result<u64, String> {
    match std::time::SystemTime::now().duration_since(std::time::UNIX_EPOCH) {
        Ok(d) => Ok(d.as_secs()),
        Err(e) => Err(e.to_string()),
    }
}

impl WorkspaceAppAvailability {
    /// Starts a new load attempt under a fresh random attempt id and returns
    /// that id; the application is `loading` with no recorded moves.
    pub fn begin_load_attempt(&mut self, app_id: &str) -> (id: String)
        requires
            old(self).wf(),
        ensures
            final(self).wf(),
            final(self).view_apps() == upsert(old(self).view_apps(), fresh_app(app_id@, id@)),
    {
        let id = new_load_attempt_id();
        self.begin_load_attempt_with(app_id, id.clone());
        id
    }

    /// Moves an application to `next`, stamping the record with the current
    /// clock. The outcome is the one `transition_result` gives for some clock
    /// reading.
    pub fn transition(
        &mut self,
        workspace_id: &str,
        app_id: &str,
        next: AvailabilityState,
        reason_code: &str,
    ) -> (r: Result<AvailabilityTransition, AvailabilityTransitionError>)
        requires
            old(self).wf(),
        ensures
            final(self).wf(),
            exists|clock: Option<u64>|
                (transition_view(r), final(self).view_apps()) == #[trigger] transition_result(
                    old(self).view_apps(),
                    workspace_id@,
                    app_id@,
                    next,
                    reason_code@,
                    clock,
                ),
    {
        let clock = match unix_seconds_now() {
            Ok(t) => Some(t),
            Err(_) => None,
        };
        self.transition_at(workspace_id, app_id, next, reason_code, clock)
    }
}

/// An accepted move leaves the application in a terminal state: every
/// further move of it is refused as invalid, whatever its target, reason or
/// clock reading, and leaves the applications unchanged.
pub proof fn lemma_accepted_move_is_final(
    apps: Seq<AppView>,
    workspace_id: Seq<char>,
    app_id: Seq<char>,
    next: AvailabilityState,
    reason_code: Seq<char>,
    clock: Option<u64>,
    next2: AvailabilityState,
    reason2: Seq<char>,
    clock2: Option<u64>,
)
    requires
        sorted_ids(apps),
        transition_result(apps, workspace_id, app_id, next, reason_code, clock).0 is Ok,
    ensures
        ({
            let after = transition_result(apps, workspace_id, app_id, next, reason_code, clock).1;
            let again = transition_result(after, workspace_id, app_id, next2, reason2, clock2);
            &&& again.0 matches Err((code, _)) && code == "invalid_availability_transition"@
            &&& again.1 == after
        }),
{
    let i = find_app(apps, app_id)->0;
    let after = transition_result(apps, workspace_id, app_id, next, reason_code, clock).1;
    assert(after[i].app_id == app_id);
    assert(find_app(after, app_id) is Some);
    let k = find_app(after, app_id)->0;
    if k != i {
        lemma_lex_irreflexive(app_id);
        assert(after[k].app_id == apps[k].app_id);
        if k < i {
            assert(lex_lt(apps[k].app_id, apps[i].app_id));
        } else {
            assert(lex_lt(apps[i].app_id, apps[k].app_id));
        }
    }
}

/// Only `loading` applications move, and only to `ready` or `failed`; an
/// accepted move appends exactly one record, whose `from` and `to` are the
/// old and new states, to that application's history.
pub proof fn lemma_accepted_move_records_once(
    apps: Seq<AppView>,
    workspace_id: Seq<char>,
    app_id: Seq<char>,
    next: AvailabilityState,
    reason_code: Seq<char>,
    clock: Option<u64>,
)
    requires
        transition_result(apps, workspace_id, app_id, next, reason_code, clock).0 is Ok,
    ensures
        ({
            let i = find_app(apps, app_id)->0;
            let (r, after) = transition_result(apps, workspace_id, app_id, next, reason_code, clock);
            &&& apps[i].current is Loading
            &&& (next is Ready || next is Failed)
            &&& after[i].current == next
            &&& after[i].transitions.len() == apps[i].transitions.len() + 1
            &&& after[i].transitions.last() == r->Ok_0
            &&& r->Ok_0.from == apps[i].current
            &&& r->Ok_0.to == next
            &&& after.len() == apps.len()
        }),
{
}

/// Restarting a load attempt forgets the earlier attempt: the application is
/// `loading` under the new attempt id with an empty history.
pub proof fn lemma_restart_clears_history(apps: Seq<AppView>, app_id: Seq<char>, attempt: Seq<char>)
    requires
        sorted_ids(apps),
    ensures
        ({
            let after = upsert(apps, fresh_app(app_id, attempt));
            &&& find_app(after, app_id) is Some
            &&& after[find_app(after, app_id)->0] == fresh_app(app_id, attempt)
        }),
    decreases apps.len(),
{
    let e = fresh_app(app_id, attempt);
    let after = upsert(apps, e);
    lemma_upsert_contains(apps, e);
    let k = find_app(after, app_id)->0;
    lemma_upsert_sorted_unique(apps, e, k);
}

proof fn lemma_upsert_contains(s: Seq<AppView>, e: AppView)
    ensures
        exists|i: int| 0 <= i < upsert(s, e).len() && #[trigger] upsert(s, e)[i] == e,
    decreases s.len(),
{
    if s.len() == 0 {
        assert(upsert(s, e)[0] == e);
    } else if s[0].app_id == e.app_id {
        assert(upsert(s, e)[0] == e);
    } else if lex_lt(e.app_id, s[0].app_id) {
        assert(upsert(s, e)[0] == e);
    } else {
        lemma_upsert_contains(s.drop_first(), e);
        let j = choose|j: int| 0 <= j < upsert(s.drop_first(), e).len() && #[trigger] upsert(s.drop_first(), e)[j] == e;
        assert(upsert(s, e)[j + 1] == e);
    }
}

/// Every entry of an upsert that carries the upserted id is the upserted entry.
proof fn lemma_upsert_sorted_unique(s: Seq<AppView>, e: AppView, k: int)
    requires
        sorted_ids(s),
        0 <= k < upsert(s, e).len(),
        upsert(s, e)[k].app_id == e.app_id,
    ensures
        upsert(s, e)[k] == e,
    decreases s.len(),
{
    if s.len() == 0 {
    } else if s[0].app_id == e.app_id {
        if k > 0 {
            lemma_lex_irreflexive(e.app_id);
            assert(lex_lt(s[0].app_id, s[k].app_id));
        }
    } else if lex_lt(e.app_id, s[0].app_id) {
        if k > 0 {
            lemma_lex_irreflexive(e.app_id);
            if k - 1 > 0 {
                lemma_lex_transitive(e.app_id, s[0].app_id, s[k - 1].app_id);
            }
            assert(s[k - 1].app_id == e.app_id);
            lemma_lex_asymmetric(e.app_id, s[0].app_id);
        }
    } else {
        if k == 0 {
        } else {
            let t = s.drop_first();
            assert(sorted_ids(t)) by {
                assert forall|a: int, b: int| 0 <= a < b < t.len() implies lex_lt(#[trigger] t[a].app_id, #[trigger] t[b].app_id) by {
                    assert(t[a] == s[a + 1] && t[b] == s[b + 1]);
                }
            }
            lemma_upsert_sorted_unique(t, e, k - 1);
        }
    }
}

} // verus!
