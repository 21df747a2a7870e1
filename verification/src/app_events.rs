//! Application commands and the event log of application sessions: which
//! transition a command takes, which events a command and a capability
//! outcome append, how a client replays the log and how sessions are listed.

use vstd::prelude::*;
use crate::text::{decimal, decimal_padded, lex_lt, opt_view, owned, push_decimal, push_str, str_equals};
use crate::http::{ApiError, ApiErrorView, api_error, make_api_error};
use crate::routes::{opt_str_view, SessionsOrder};

verus! {

/// One transition of an application state: the event it takes, the state it
/// leads to, and whether a condition on the capability output guards it.
pub struct AppTransition {
    pub on: String,
    pub to: String,
    pub conditioned: bool,
}

/// One state of an application state machine, with the capability its
/// entry invokes, if any.
pub struct AppStateDef {
    pub id: String,
    pub transitions: Vec<AppTransition>,
    pub invoke_capability: Option<String>,
}

/// A registered application state machine.
pub struct AppMachine {
    pub initial_state: String,
    pub states: Vec<AppStateDef>,
}

/// The first state of `states`, from position `k` on, whose id is `id`.
pub open spec fn find_state_from(states: Seq<AppStateDef>, id: Seq<char>, k: int) -> Option<int>
    decreases states.len() - k,
{
    if k < 0 || k >= states.len() {
        None
    } else if states[k].id@ == id {
        Some(k)
    } else {
        find_state_from(states, id, k + 1)
    }
}

pub open spec fn find_state(states: Seq<AppStateDef>, id: Seq<char>) -> Option<int> {
    find_state_from(states, id, 0)
}

/// The first transition, from position `k` on, taken on `event`.
pub open spec fn find_on_from(ts: Seq<AppTransition>, event: Seq<char>, k: int) -> Option<int>
    decreases ts.len() - k,
{
    if k < 0 || k >= ts.len() {
        None
    } else if ts[k].on@ == event {
        Some(k)
    } else {
        find_on_from(ts, event, k + 1)
    }
}

pub open spec fn find_on(ts: Seq<AppTransition>, event: Seq<char>) -> Option<int> {
    find_on_from(ts, event, 0)
}

/// Some state of the machine has a transition taken on `command`.
pub open spec fn command_known(states: Seq<AppStateDef>, command: Seq<char>) -> bool {
    exists|i: int, j: int|
        0 <= i < states.len() && 0 <= j < states[i].transitions@.len()
            && (#[trigger] states[i].transitions@[j]).on@ == command
}

pub proof fn lemma_find_state_from(states: Seq<AppStateDef>, id: Seq<char>, k: int)
    requires
        0 <= k <= states.len(),
    ensures
        match find_state_from(states, id, k) {
            Some(i) => k <= i < states.len() && states[i].id@ == id
                && forall|j: int| k <= j < i ==> states[j].id@ != id,
            None => forall|j: int| k <= j < states.len() ==> states[j].id@ != id,
        },
    decreases states.len() - k,
{
    if k < states.len() && states[k].id@ != id {
        lemma_find_state_from(states, id, k + 1);
    }
}

pub proof fn lemma_find_on_from(ts: Seq<AppTransition>, event: Seq<char>, k: int)
    requires
        0 <= k <= ts.len(),
    ensures
        match find_on_from(ts, event, k) {
            Some(i) => k <= i < ts.len() && ts[i].on@ == event
                && forall|j: int| k <= j < i ==> ts[j].on@ != event,
            None => forall|j: int| k <= j < ts.len() ==> ts[j].on@ != event,
        },
    decreases ts.len() - k,
{
    if k < ts.len() && ts[k].on@ != event {
        lemma_find_on_from(ts, event, k + 1);
    }
}

/// Position of the state with the given id.
pub fn find_app_state(states: &Vec<AppStateDef>, id: &str) -> (r: Option<usize>)
    ensures
        match r {
            Some(i) => find_state(states@, id@) == Some(i as int),
            None => find_state(states@, id@) is None,
        },
{
    let mut i: usize = 0;
    while i < states.len()
        invariant
            i <= states@.len(),
            find_state(states@, id@) == find_state_from(states@, id@, i as int),
        decreases states.len() - i,
    {
        if str_equals(states[i].id.as_str(), id) {
            return Some(i);
        }
        i = i + 1;
    }
    None
}

/// Position of the first transition taken on `event`.
pub fn find_transition_on(ts: &Vec<AppTransition>, event: &str) -> (r: Option<usize>)
    ensures
        match r {
            Some(i) => find_on(ts@, event@) == Some(i as int),
            None => find_on(ts@, event@) is None,
        },
{
    let mut i: usize = 0;
    while i < ts.len()
        invariant
            i <= ts@.len(),
            find_on(ts@, event@) == find_on_from(ts@, event@, i as int),
        decreases ts.len() - i,
    {
        if str_equals(ts[i].on.as_str(), event) {
            return Some(i);
        }
        i = i + 1;
    }
    None
}

fn is_known_command(states: &Vec<AppStateDef>, command: &str) -> (b: bool)
    ensures
        b == command_known(states@, command@),
{
    let mut i: usize = 0;
    while i < states.len()
        invariant
            i <= states@.len(),
            forall|a: int, j: int|
                0 <= a < i && 0 <= j < states@[a].transitions@.len()
                    ==> (#[trigger] states@[a].transitions@[j]).on@ != command@,
        decreases states.len() - i,
    {
        let found = find_transition_on(&states[i].transitions, command);
        proof {
            lemma_find_on_from(states@[i as int].transitions@, command@, 0);
        }
        if found.is_some() {
            return true;
        }
        i = i + 1;
    }
    false
}

pub open spec fn undeclared_state_message(session_id: Seq<char>, current: Seq<char>) -> Seq<char> {
    "session '"@ + session_id + "' is in state '"@ + current
        + "', which is not declared by the app state machine"@
}

pub open spec fn invalid_command_message(command: Seq<char>, current: Seq<char>) -> Seq<char> {
    "command '"@ + command + "' is not a valid transition from state '"@ + current + "'"@
}

pub open spec fn unknown_command_message(command: Seq<char>) -> Seq<char> {
    "command '"@ + command + "' is not declared by the app state machine"@
}

/// The state a command leads to from the session's current state, or the
/// answer refusing it: 409 when the current state is not declared or the
/// command is declared elsewhere only, 422 when no state declares it.
pub open spec fn command_transition(
    m: AppMachine,
    session_id: Seq<char>,
    current: Seq<char>,
    command: Seq<char>,
) -> Result<Seq<char>, ApiErrorView> {
    match find_state(m.states@, current) {
        None => Err(api_error(409, "Conflict"@, "invalid_transition"@,
            undeclared_state_message(session_id, current))),
        Some(k) => match find_on(m.states@[k].transitions@, command) {
            Some(t) => Ok(m.states@[k].transitions@[t].to@),
            None => if command_known(m.states@, command) {
                Err(api_error(409, "Conflict"@, "invalid_transition"@,
                    invalid_command_message(command, current)))
            } else {
                Err(api_error(422, "Unprocessable Entity"@, "unknown_command"@,
                    unknown_command_message(command)))
            },
        },
    }
}

pub fn resolve_app_command_transition(
    machine: &AppMachine,
    session_id: &str,
    current_state: &str,
    command: &str,
) -> (r: Result<String, ApiError>)
    ensures
        match (r, command_transition(*machine, session_id@, current_state@, command@)) {
            (Ok(to), Ok(t)) => to@ == t,
            (Err(e), Err(v)) => e@ == v,
            _ => false,
        },
{
    proof {
        lemma_find_state_from(machine.states@, current_state@, 0);
    }
    let k = match find_app_state(&machine.states, current_state) {
        Some(k) => k,
        None => {
            let mut message = owned("session '");
            push_str(&mut message, session_id);
            push_str(&mut message, "' is in state '");
            push_str(&mut message, current_state);
            push_str(&mut message, "', which is not declared by the app state machine");
            assert(message@ =~= undeclared_state_message(session_id@, current_state@));
            return Err(make_api_error(409, "Conflict", "invalid_transition", message));
        },
    };
    proof {
        lemma_find_on_from(machine.states@[k as int].transitions@, command@, 0);
    }
    match find_transition_on(&machine.states[k].transitions, command) {
        Some(t) => Ok(machine.states[k].transitions[t].to.clone()),
        None => {
            if is_known_command(&machine.states, command) {
                let mut message = owned("command '");
                push_str(&mut message, command);
                push_str(&mut message, "' is not a valid transition from state '");
                push_str(&mut message, current_state);
                push_str(&mut message, "'");
                assert(message@ =~= invalid_command_message(command@, current_state@));
                Err(make_api_error(409, "Conflict", "invalid_transition", message))
            } else {
                let mut message = owned("command '");
                push_str(&mut message, command);
                push_str(&mut message, "' is not declared by the app state machine");
                assert(message@ =~= unknown_command_message(command@));
                Err(make_api_error(422, "Unprocessable Entity", "unknown_command", message))
            }
        },
    }
}

} // verus!

verus! {

/// The error object of a result event.
pub struct AppEventFault {
    pub code: String,
    pub message: String,
}

/// What an event of the log says beyond its common fields.  Outputs are the
/// JSON text of the capability output, as the runtime reported it.
pub enum AppEventData {
    StateChanged,
    CommandInvoked { capability_id: String },
    ExecutionInvoked { capability_id: Option<String>, capability_version: Option<String> },
    CommandResult { output: Option<String>, error_code: Option<String>, error: Option<AppEventFault> },
    ExecutionResult { output: Option<String>, error: Option<AppEventFault> },
}

/// One event of an application session.
pub struct AppEvent {
    pub event_id: String,
    pub event_type: String,
    pub workspace_id: String,
    pub app_id: String,
    pub session_id: String,
    pub execution_id: String,
    pub state: String,
    pub previous_state: Option<String>,
    pub timestamp: String,
    pub data: AppEventData,
}

pub struct FaultView {
    pub code: Seq<char>,
    pub message: Seq<char>,
}

pub enum EventDataView {
    StateChanged,
    CommandInvoked { capability_id: Seq<char> },
    ExecutionInvoked { capability_id: Option<Seq<char>>, capability_version: Option<Seq<char>> },
    CommandResult { output: Option<Seq<char>>, error_code: Option<Seq<char>>, error: Option<FaultView> },
    ExecutionResult { output: Option<Seq<char>>, error: Option<FaultView> },
}

pub struct AppEventView {
    pub event_id: Seq<char>,
    pub event_type: Seq<char>,
    pub workspace_id: Seq<char>,
    pub app_id: Seq<char>,
    pub session_id: Seq<char>,
    pub execution_id: Seq<char>,
    pub state: Seq<char>,
    pub previous_state: Option<Seq<char>>,
    pub timestamp: Seq<char>,
    pub data: EventDataView,
}

impl View for AppEventFault {
    type V = FaultView;

    open spec fn view(&self) -> FaultView {
        FaultView { code: self.code@, message: self.message@ }
    }
}

pub open spec fn fault_view(f: Option<AppEventFault>) -> Option<FaultView> {
    match f {
        Some(f) => Some(f@),
        None => None,
    }
}

impl View for AppEventData {
    type V = EventDataView;

    open spec fn view(&self) -> EventDataView {
        match self {
            AppEventData::StateChanged => EventDataView::StateChanged,
            AppEventData::CommandInvoked { capability_id } =>
                EventDataView::CommandInvoked { capability_id: capability_id@ },
            AppEventData::ExecutionInvoked { capability_id, capability_version } =>
                EventDataView::ExecutionInvoked {
                    capability_id: opt_view(*capability_id),
                    capability_version: opt_view(*capability_version),
                },
            AppEventData::CommandResult { output, error_code, error } =>
                EventDataView::CommandResult {
                    output: opt_view(*output),
                    error_code: opt_view(*error_code),
                    error: fault_view(*error),
                },
            AppEventData::ExecutionResult { output, error } =>
                EventDataView::ExecutionResult { output: opt_view(*output), error: fault_view(*error) },
        }
    }
}

impl View for AppEvent {
    type V = AppEventView;

    open spec fn view(&self) -> AppEventView {
        AppEventView {
            event_id: self.event_id@,
            event_type: self.event_type@,
            workspace_id: self.workspace_id@,
            app_id: self.app_id@,
            session_id: self.session_id@,
            execution_id: self.execution_id@,
            state: self.state@,
            previous_state: opt_view(self.previous_state),
            timestamp: self.timestamp@,
            data: self.data@,
        }
    }
}

pub open spec fn event_views(v: Seq<AppEvent>) -> Seq<AppEventView> {
    v.map_values(|e: AppEvent| e@)
}

pub fn copy_text(o: &Option<String>) -> (r: Option<String>)
    ensures
        opt_view(r) == opt_view(*o),
{
    match o {
        Some(s) => Some(s.clone()),
        None => None,
    }
}

fn copy_fault(f: &Option<AppEventFault>) -> (r: Option<AppEventFault>)
    ensures
        fault_view(r) == fault_view(*f),
{
    match f {
        Some(f) => Some(AppEventFault { code: f.code.clone(), message: f.message.clone() }),
        None => None,
    }
}

impl AppEventData {
    pub fn copy(&self) -> (r: Self)
        ensures
            r@ == self@,
    {
        match self {
            AppEventData::StateChanged => AppEventData::StateChanged,
            AppEventData::CommandInvoked { capability_id } =>
                AppEventData::CommandInvoked { capability_id: capability_id.clone() },
            AppEventData::ExecutionInvoked { capability_id, capability_version } =>
                AppEventData::ExecutionInvoked {
                    capability_id: copy_text(capability_id),
                    capability_version: copy_text(capability_version),
                },
            AppEventData::CommandResult { output, error_code, error } => AppEventData::CommandResult {
                output: copy_text(output),
                error_code: copy_text(error_code),
                error: copy_fault(error),
            },
            AppEventData::ExecutionResult { output, error } =>
                AppEventData::ExecutionResult { output: copy_text(output), error: copy_fault(error) },
        }
    }
}

impl AppEvent {
    pub fn copy(&self) -> (r: Self)
        ensures
            r@ == self@,
    {
        AppEvent {
            event_id: self.event_id.clone(),
            event_type: self.event_type.clone(),
            workspace_id: self.workspace_id.clone(),
            app_id: self.app_id.clone(),
            session_id: self.session_id.clone(),
            execution_id: self.execution_id.clone(),
            state: self.state.clone(),
            previous_state: copy_text(&self.previous_state),
            timestamp: self.timestamp.clone(),
            data: self.data.copy(),
        }
    }
}

/// The `state_changed` event of an execution that moved a session from
/// `previous` to `state`.
pub open spec fn state_changed_view(
    workspace_id: Seq<char>,
    app_id: Seq<char>,
    session_id: Seq<char>,
    execution_id: Seq<char>,
    state: Seq<char>,
    previous: Seq<char>,
    timestamp: Seq<char>,
) -> AppEventView {
    AppEventView {
        event_id: execution_id + ":state_changed:"@ + state,
        event_type: "state_changed"@,
        workspace_id,
        app_id,
        session_id,
        execution_id,
        state,
        previous_state: Some(previous),
        timestamp,
        data: EventDataView::StateChanged,
    }
}

pub fn state_changed_event(
    workspace_id: &str,
    app_id: &str,
    session_id: &str,
    execution_id: &str,
    state: &str,
    previous_state: &str,
    timestamp: &str,
) -> (e: AppEvent)
    ensures
        e@ == state_changed_view(workspace_id@, app_id@, session_id@, execution_id@, state@,
            previous_state@, timestamp@),
{
    let mut event_id = owned(execution_id);
    push_str(&mut event_id, ":state_changed:");
    push_str(&mut event_id, state);
    let e = AppEvent {
        event_id,
        event_type: owned("state_changed"),
        workspace_id: owned(workspace_id),
        app_id: owned(app_id),
        session_id: owned(session_id),
        execution_id: owned(execution_id),
        state: owned(state),
        previous_state: Some(owned(previous_state)),
        timestamp: owned(timestamp),
        data: AppEventData::StateChanged,
    };
    assert(e@.event_id =~= execution_id@ + ":state_changed:"@ + state@);
    e
}

/// Appends the `state_changed` event of an execution.
pub fn push_app_state_changed_event(
    events: &mut Vec<AppEvent>,
    workspace_id: &str,
    app_id: &str,
    session_id: &str,
    execution_id: &str,
    state: &str,
    previous_state: &str,
    timestamp: &str,
)
    ensures
        event_views(final(events)@) == event_views(old(events)@).push(state_changed_view(
            workspace_id@, app_id@, session_id@, execution_id@, state@, previous_state@, timestamp@)),
{
    let ghost before = event_views(events@);
    let e = state_changed_event(workspace_id, app_id, session_id, execution_id, state, previous_state, timestamp);
    events.push(e);
    assert(event_views(events@) =~= before.push(e@));
}

/// Appends the decimal rendering of `n`, left-padded with zeros to `width`.
pub fn push_decimal_padded(s: &mut String, n: u64, width: usize)
    ensures
        final(s)@ == old(s)@ + decimal_padded(n as nat, width as nat),
{
    let mut digits = String::new();
    push_decimal(&mut digits, n);
    let len = digits.as_str().unicode_len();
    let mut k: usize = len;
    let ghost start = s@;
    while k < width
        invariant
            len <= k <= width || (k == len && len >= width),
            len == decimal(n as nat).len(),
            digits@ == decimal(n as nat),
            s@ == start + Seq::new((k - len) as nat, |i: int| '0'),
        decreases width - k,
    {
        s.push('0');
        k = k + 1;
        assert(s@ =~= start + Seq::new((k - len) as nat, |i: int| '0'));
    }
    push_str(s, digits.as_str());
    proof {
        if len >= width {
            assert(s@ =~= start + decimal(n as nat));
        } else {
            assert(s@ =~= start + decimal_padded(n as nat, width as nat));
        }
    }
}

} // verus!

verus! {

/// The state of the latest event of a session of an application.
pub open spec fn last_session_state(es: Seq<AppEventView>, app_id: Seq<char>, session_id: Seq<char>) -> Option<Seq<char>>
    decreases es.len(),
{
    if es.len() == 0 {
        None
    } else if es.last().app_id == app_id && es.last().session_id == session_id {
        Some(es.last().state)
    } else {
        last_session_state(es.drop_last(), app_id, session_id)
    }
}

/// Session identifier and current state for a command: a named session
/// continues from its latest event (or the initial state when it has none);
/// without a name a new session is numbered after the log's length.
pub open spec fn command_session(
    es: Seq<AppEventView>,
    initial: Seq<char>,
    app_id: Seq<char>,
    session_id: Option<Seq<char>>,
) -> (Seq<char>, Seq<char>) {
    match session_id {
        Some(s) => (s, match last_session_state(es, app_id, s) {
            Some(state) => state,
            None => initial,
        }),
        None => ("sess-"@ + decimal_padded((es.len() + 1) as nat, 8), initial),
    }
}

fn latest_session_state(events: &Vec<AppEvent>, app_id: &str, session_id: &str) -> (r: Option<String>)
    ensures
        opt_view(r) == last_session_state(event_views(events@), app_id@, session_id@),
{
    let ghost es = event_views(events@);
    let mut i: usize = events.len();
    assert(es.take(i as int) =~= es);
    while i > 0
        invariant
            i <= events@.len(),
            es == event_views(events@),
            last_session_state(es, app_id@, session_id@)
                == last_session_state(es.take(i as int), app_id@, session_id@),
        decreases i,
    {
        let e = &events[i - 1];
        proof {
            assert(es.take(i as int).drop_last() =~= es.take(i - 1));
            assert(es.take(i as int).last() == events@[i - 1]@);
        }
        if str_equals(e.app_id.as_str(), app_id) && str_equals(e.session_id.as_str(), session_id) {
            return Some(e.state.clone());
        }
        i = i - 1;
    }
    None
}

/// The session a command runs in, and the state it starts from.
pub fn app_command_session(
    events: &Vec<AppEvent>,
    initial_state: &str,
    app_id: &str,
    session_id: Option<&str>,
) -> (r: (String, String))
    requires
        events@.len() < u64::MAX,
    ensures
        (r.0@, r.1@) == command_session(event_views(events@), initial_state@, app_id@,
            match session_id { Some(s) => Some(s@), None => None }),
{
    match session_id {
        Some(s) => {
            let state = match latest_session_state(events, app_id, s) {
                Some(state) => state,
                None => owned(initial_state),
            };
            (owned(s), state)
        },
        None => {
            let mut id = owned("sess-");
            push_decimal_padded(&mut id, events.len() as u64 + 1, 8);
            (id, owned(initial_state))
        },
    }
}

/// A command the machine accepted: the session it runs in, the state it
/// entered and the capability that state invokes, if any.
pub struct AcceptedCommand {
    pub session_id: String,
    pub command_id: String,
    pub state: String,
    pub previous_state: String,
    pub invoke_capability: Option<String>,
}

pub open spec fn not_registered_message(app_id: Seq<char>, workspace_id: Seq<char>) -> Seq<char> {
    "app '"@ + app_id + "' is not registered with a state machine in workspace '"@ + workspace_id
        + "'"@
}

pub open spec fn command_id_for(log_len: nat) -> Seq<char> {
    "cmd-"@ + decimal_padded(log_len + 1, 8)
}

/// The capability the entry of state `id` invokes.
pub open spec fn invoked_capability(m: AppMachine, id: Seq<char>) -> Option<Seq<char>> {
    match find_state(m.states@, id) {
        Some(k) => opt_view(m.states@[k].invoke_capability),
        None => None,
    }
}

/// Dispatches a command to an application: refuses it when the application
/// has no machine (404) or the machine does not take it (409, 422); else
/// appends the `state_changed` event of the accepted command and says which
/// capability the entered state invokes.
pub fn dispatch_app_command(
    events: &mut Vec<AppEvent>,
    machine: Option<&AppMachine>,
    workspace_id: &str,
    app_id: &str,
    command: &str,
    session_id: Option<&str>,
    timestamp: &str,
) -> (r: Result<AcceptedCommand, ApiError>)
    requires
        old(events)@.len() < u64::MAX,
    ensures
        match machine {
            None => match r {
                Err(e) => e@ == api_error(404, "Not Found"@, "app_not_registered"@,
                    not_registered_message(app_id@, workspace_id@))
                    && final(events)@ == old(events)@,
                Ok(_) => false,
            },
            Some(m) => {
                let (sid, current) = command_session(event_views(old(events)@), m.initial_state@,
                    app_id@, match session_id { Some(s) => Some(s@), None => None });
                match (r, command_transition(*m, sid, current, command@)) {
                    (Err(e), Err(v)) => e@ == v && final(events)@ == old(events)@,
                    (Ok(a), Ok(to)) => {
                        &&& a.session_id@ == sid
                        &&& a.command_id@ == command_id_for(old(events)@.len())
                        &&& a.state@ == to
                        &&& a.previous_state@ == current
                        &&& opt_view(a.invoke_capability) == invoked_capability(*m, to)
                        &&& event_views(final(events)@) == event_views(old(events)@).push(
                            state_changed_view(workspace_id@, app_id@, sid, a.command_id@, to,
                                current, timestamp@))
                    },
                    _ => false,
                }
            },
        },
{
    let m = match machine {
        Some(m) => m,
        None => {
            let mut message = owned("app '");
            push_str(&mut message, app_id);
            push_str(&mut message, "' is not registered with a state machine in workspace '");
            push_str(&mut message, workspace_id);
            push_str(&mut message, "'");
            assert(message@ =~= not_registered_message(app_id@, workspace_id@));
            return Err(make_api_error(404, "Not Found", "app_not_registered", message));
        },
    };
    let (sid, current) = app_command_session(events, m.initial_state.as_str(), app_id, session_id);
    let to = match resolve_app_command_transition(m, sid.as_str(), current.as_str(), command) {
        Ok(to) => to,
        Err(e) => return Err(e),
    };
    let mut command_id = owned("cmd-");
    push_decimal_padded(&mut command_id, events.len() as u64 + 1, 8);
    assert(command_id@ =~= command_id_for(old(events)@.len()));
    push_app_state_changed_event(events, workspace_id, app_id, sid.as_str(), command_id.as_str(),
        to.as_str(), current.as_str(), timestamp);
    proof {
        lemma_find_state_from(m.states@, to@, 0);
    }
    let invoke_capability = match find_app_state(&m.states, to.as_str()) {
        Some(k) => copy_text(&m.states[k].invoke_capability),
        None => None,
    };
    Ok(AcceptedCommand { session_id: sid, command_id, state: to, previous_state: current, invoke_capability })
}

} // verus!

verus! {

/// How a transition's condition fared against the capability output, as
/// evaluated by the host: met, not met, or not evaluable for the value's type.
#[derive(Clone, Copy, Debug, PartialEq, Eq)]
pub enum ConditionVerdict {
    Met,
    NotMet,
    TypeError,
}

/// A transition condition could not be evaluated against the output.
#[derive(Clone, Copy, Debug, PartialEq, Eq)]
pub enum ConditionEvaluationError {
    Type,
}

/// Among the transitions from `k` on taken on `event` and guarded by a
/// condition, in order: the first whose condition is met, or the error of
/// the first one that cannot be evaluated before it.
pub open spec fn conditioned_scan(
    ts: Seq<AppTransition>,
    vs: Seq<ConditionVerdict>,
    event: Seq<char>,
    k: int,
) -> Result<Option<int>, ConditionEvaluationError>
    decreases ts.len() - k,
{
    if k < 0 || k >= ts.len() {
        Ok(None)
    } else if ts[k].on@ == event && ts[k].conditioned {
        match vs[k] {
            ConditionVerdict::TypeError => Err(ConditionEvaluationError::Type),
            ConditionVerdict::Met => Ok(Some(k)),
            ConditionVerdict::NotMet => conditioned_scan(ts, vs, event, k + 1),
        }
    } else {
        conditioned_scan(ts, vs, event, k + 1)
    }
}

/// The first transition from `k` on taken on `event` without a condition.
pub open spec fn unconditioned_from(ts: Seq<AppTransition>, event: Seq<char>, k: int) -> Option<int>
    decreases ts.len() - k,
{
    if k < 0 || k >= ts.len() {
        None
    } else if ts[k].on@ == event && !ts[k].conditioned {
        Some(k)
    } else {
        unconditioned_from(ts, event, k + 1)
    }
}

/// The state a capability outcome (`capability_succeeded` or
/// `capability_failed`) leads to from the invoking state: a failure takes the
/// first transition on it; a success takes the first conditioned transition
/// whose condition holds, else the first unconditioned one.  `vs[k]` is the
/// verdict of the condition of the invoking state's transition `k`.
pub open spec fn lifecycle_target(
    m: AppMachine,
    invoking: Seq<char>,
    event: Seq<char>,
    vs: Seq<ConditionVerdict>,
) -> Result<Option<Seq<char>>, ConditionEvaluationError> {
    match find_state(m.states@, invoking) {
        None => Ok(None),
        Some(s) => {
            let ts = m.states@[s].transitions@;
            if event != "capability_succeeded"@ {
                match find_on(ts, event) {
                    Some(k) => Ok(Some(ts[k].to@)),
                    None => Ok(None),
                }
            } else {
                match conditioned_scan(ts, vs, event, 0) {
                    Err(e) => Err(e),
                    Ok(Some(k)) => Ok(Some(ts[k].to@)),
                    Ok(None) => match unconditioned_from(ts, event, 0) {
                        Some(k) => Ok(Some(ts[k].to@)),
                        None => Ok(None),
                    },
                }
            }
        },
    }
}

/// The verdicts cover the transitions of the invoking state.
pub open spec fn verdicts_fit(m: AppMachine, invoking: Seq<char>, vs: Seq<ConditionVerdict>) -> bool {
    match find_state(m.states@, invoking) {
        Some(s) => vs.len() == m.states@[s].transitions@.len(),
        None => true,
    }
}

fn scan_conditioned(ts: &Vec<AppTransition>, vs: &Vec<ConditionVerdict>, event: &str) -> (r: Result<Option<usize>, ConditionEvaluationError>)
    requires
        vs@.len() == ts@.len(),
    ensures
        match (r, conditioned_scan(ts@, vs@, event@, 0)) {
            (Ok(Some(k)), Ok(Some(j))) => k == j && k < ts@.len(),
            (Ok(None), Ok(None)) => true,
            (Err(a), Err(b)) => a == b,
            _ => false,
        },
{
    let mut k: usize = 0;
    while k < ts.len()
        invariant
            k <= ts@.len(),
            vs@.len() == ts@.len(),
            conditioned_scan(ts@, vs@, event@, 0) == conditioned_scan(ts@, vs@, event@, k as int),
        decreases ts.len() - k,
    {
        if ts[k].conditioned && str_equals(ts[k].on.as_str(), event) {
            match vs[k] {
                ConditionVerdict::TypeError => return Err(ConditionEvaluationError::Type),
                ConditionVerdict::Met => return Ok(Some(k)),
                ConditionVerdict::NotMet => {},
            }
        }
        k = k + 1;
    }
    Ok(None)
}

fn first_unconditioned(ts: &Vec<AppTransition>, event: &str) -> (r: Option<usize>)
    ensures
        match (r, unconditioned_from(ts@, event@, 0)) {
            (Some(k), Some(j)) => k == j && k < ts@.len(),
            (None, None) => true,
            _ => false,
        },
{
    let mut k: usize = 0;
    while k < ts.len()
        invariant
            k <= ts@.len(),
            unconditioned_from(ts@, event@, 0) == unconditioned_from(ts@, event@, k as int),
        decreases ts.len() - k,
    {
        if !ts[k].conditioned && str_equals(ts[k].on.as_str(), event) {
            return Some(k);
        }
        k = k + 1;
    }
    None
}

/// The state a capability outcome leads to from the invoking state.
pub fn resolve_lifecycle_transition(
    machine: &AppMachine,
    invoking_state: &str,
    lifecycle_event: &str,
    verdicts: &Vec<ConditionVerdict>,
) -> (r: Result<Option<String>, ConditionEvaluationError>)
    requires
        verdicts_fit(*machine, invoking_state@, verdicts@),
    ensures
        match (r, lifecycle_target(*machine, invoking_state@, lifecycle_event@, verdicts@)) {
            (Ok(Some(to)), Ok(Some(t))) => to@ == t,
            (Ok(None), Ok(None)) => true,
            (Err(a), Err(b)) => a == b,
            _ => false,
        },
{
    proof {
        lemma_find_state_from(machine.states@, invoking_state@, 0);
    }
    let s = match find_app_state(&machine.states, invoking_state) {
        Some(s) => s,
        None => return Ok(None),
    };
    let ts = &machine.states[s].transitions;
    if !str_equals(lifecycle_event, "capability_succeeded") {
        proof {
            lemma_find_on_from(ts@, lifecycle_event@, 0);
        }
        return match find_transition_on(ts, lifecycle_event) {
            Some(k) => Ok(Some(ts[k].to.clone())),
            None => Ok(None),
        };
    }
    match scan_conditioned(ts, verdicts, lifecycle_event) {
        Err(e) => Err(e),
        Ok(Some(k)) => Ok(Some(ts[k].to.clone())),
        Ok(None) => match first_unconditioned(ts, lifecycle_event) {
            Some(k) => Ok(Some(ts[k].to.clone())),
            None => Ok(None),
        },
    }
}

} // verus!

verus! {

/// What the runtime reported of a capability it ran for a command.
pub struct CapabilityOutcome {
    pub execution_id: String,
    pub succeeded: bool,
    pub output: Option<String>,
    pub error: Option<AppEventFault>,
}

pub open spec fn no_match_fault() -> FaultView {
    FaultView {
        code: "no_matching_transition"@,
        message: "no capability_succeeded transition matched the capability output"@,
    }
}

pub open spec fn condition_fault() -> FaultView {
    FaultView {
        code: "condition_type_error"@,
        message: "a transition condition could not be evaluated against the capability output"@,
    }
}

/// The state a session ends in after a capability outcome, and the fault
/// reported when no transition could be chosen for a success or a
/// condition could not be evaluated (the session then stays where it was).
pub open spec fn outcome_resolution(
    m: AppMachine,
    invoking: Seq<char>,
    succeeded: bool,
    vs: Seq<ConditionVerdict>,
) -> (Seq<char>, Option<FaultView>) {
    let event = if succeeded { "capability_succeeded"@ } else { "capability_failed"@ };
    match lifecycle_target(m, invoking, event, vs) {
        Ok(Some(to)) => (to, None),
        Ok(None) => if succeeded { (invoking, Some(no_match_fault())) } else { (invoking, None) },
        Err(_) => (invoking, Some(condition_fault())),
    }
}

/// The events a capability outcome of a command appends to the log: the
/// invocation, a `state_changed` event when the session moved, and the result
/// (`error` when the capability failed or no transition could be chosen).
pub open spec fn command_outcome_events(
    workspace_id: Seq<char>,
    app_id: Seq<char>,
    session_id: Seq<char>,
    m: AppMachine,
    invoking: Seq<char>,
    capability_id: Seq<char>,
    execution_id: Seq<char>,
    succeeded: bool,
    output: Option<Seq<char>>,
    error: Option<FaultView>,
    vs: Seq<ConditionVerdict>,
    timestamp: Seq<char>,
) -> Seq<AppEventView> {
    let (final_state, fault) = outcome_resolution(m, invoking, succeeded, vs);
    let invoked = AppEventView {
        event_id: execution_id + ":capability_invoked"@,
        event_type: "capability_invoked"@,
        workspace_id,
        app_id,
        session_id,
        execution_id,
        state: invoking,
        previous_state: None,
        timestamp,
        data: EventDataView::CommandInvoked { capability_id },
    };
    let changed = if final_state != invoking {
        seq![state_changed_view(workspace_id, app_id, session_id, execution_id, final_state, invoking, timestamp)]
    } else {
        Seq::empty()
    };
    let result_type = if fault is Some || !succeeded { "error"@ } else { "capability_result"@ };
    let result = AppEventView {
        event_id: execution_id + ":"@ + result_type,
        event_type: result_type,
        workspace_id,
        app_id,
        session_id,
        execution_id,
        state: final_state,
        previous_state: Some(invoking),
        timestamp,
        data: EventDataView::CommandResult {
            output,
            error_code: match fault {
                Some(f) => Some(f.code),
                None => None,
            },
            error: match error {
                Some(e) => Some(e),
                None => fault,
            },
        },
    };
    seq![invoked] + changed + seq![result]
}

/// Appends the events of a capability outcome of a command.
pub fn push_app_command_outcome_events(
    events: &mut Vec<AppEvent>,
    workspace_id: &str,
    app_id: &str,
    session_id: &str,
    machine: &AppMachine,
    invoking_state: &str,
    capability_id: &str,
    outcome: &CapabilityOutcome,
    verdicts: &Vec<ConditionVerdict>,
    timestamp: &str,
)
    requires
        verdicts_fit(*machine, invoking_state@, verdicts@),
    ensures
        event_views(final(events)@) == event_views(old(events)@) + command_outcome_events(
            workspace_id@, app_id@, session_id@, *machine, invoking_state@, capability_id@,
            outcome.execution_id@, outcome.succeeded, opt_view(outcome.output),
            fault_view(outcome.error), verdicts@, timestamp@),
{
    let ghost start = event_views(events@);
    let execution_id = outcome.execution_id.as_str();
    let mut invoked_id = owned(execution_id);
    push_str(&mut invoked_id, ":capability_invoked");
    let invoked = AppEvent {
        event_id: invoked_id,
        event_type: owned("capability_invoked"),
        workspace_id: owned(workspace_id),
        app_id: owned(app_id),
        session_id: owned(session_id),
        execution_id: owned(execution_id),
        state: owned(invoking_state),
        previous_state: None,
        timestamp: owned(timestamp),
        data: AppEventData::CommandInvoked { capability_id: owned(capability_id) },
    };
    let ghost iv = invoked@;
    events.push(invoked);
    assert(event_views(events@) =~= start.push(iv));
    let ghost mid = event_views(events@);

    let event = if outcome.succeeded { "capability_succeeded" } else { "capability_failed" };
    let resolved = resolve_lifecycle_transition(machine, invoking_state, event, verdicts);
    let (final_state, fault): (String, Option<AppEventFault>) = match resolved {
        Ok(Some(to)) => (to, None),
        Ok(None) => if outcome.succeeded {
            (owned(invoking_state), Some(AppEventFault {
                code: owned("no_matching_transition"),
                message: owned("no capability_succeeded transition matched the capability output"),
            }))
        } else {
            (owned(invoking_state), None)
        },
        Err(_) => (owned(invoking_state), Some(AppEventFault {
            code: owned("condition_type_error"),
            message: owned("a transition condition could not be evaluated against the capability output"),
        })),
    };
    proof {
        let ev = if outcome.succeeded { "capability_succeeded"@ } else { "capability_failed"@ };
        assert(event@ == ev);
        assert((final_state@, fault_view(fault)) == outcome_resolution(*machine, invoking_state@,
            outcome.succeeded, verdicts@));
    }
    let moved = !str_equals(final_state.as_str(), invoking_state);
    if moved {
        push_app_state_changed_event(events, workspace_id, app_id, session_id, execution_id,
            final_state.as_str(), invoking_state, timestamp);
    }
    let result_type = if fault.is_some() || !outcome.succeeded { "error" } else { "capability_result" };
    let mut result_id = owned(execution_id);
    push_str(&mut result_id, ":");
    push_str(&mut result_id, result_type);
    let error_code = match &fault {
        Some(f) => Some(f.code.clone()),
        None => None,
    };
    let error = match &outcome.error {
        Some(e) => Some(AppEventFault { code: e.code.clone(), message: e.message.clone() }),
        None => fault,
    };
    let result = AppEvent {
        event_id: result_id,
        event_type: owned(result_type),
        workspace_id: owned(workspace_id),
        app_id: owned(app_id),
        session_id: owned(session_id),
        execution_id: owned(execution_id),
        state: final_state,
        previous_state: Some(owned(invoking_state)),
        timestamp: owned(timestamp),
        data: AppEventData::CommandResult { output: copy_text(&outcome.output), error_code, error },
    };
    let ghost before_result = event_views(events@);
    let ghost rv = result@;
    events.push(result);
    assert(event_views(events@) =~= before_result.push(rv));
    proof {
        let expected = command_outcome_events(workspace_id@, app_id@, session_id@, *machine,
            invoking_state@, capability_id@, outcome.execution_id@, outcome.succeeded,
            opt_view(outcome.output), fault_view(outcome.error), verdicts@, timestamp@);
        assert(event_views(events@) =~= start + expected);
    }
}

} // verus!

verus! {

/// What the runtime reported of an execution requested directly (not
/// through an application command).
pub struct ExecutionOutcome {
    pub execution_id: String,
    pub succeeded: bool,
    pub capability_id: Option<String>,
    pub capability_version: Option<String>,
    pub correlation_id: Option<String>,
    pub output: Option<String>,
    pub error: Option<AppEventFault>,
}

/// Position of the last `.` of `s`.
pub open spec fn last_dot(s: Seq<char>) -> Option<int>
    decreases s.len(),
{
    if s.len() == 0 {
        None
    } else if s.last() == '.' {
        Some(s.len() - 1)
    } else {
        last_dot(s.drop_last())
    }
}

pub proof fn lemma_last_dot_bound(s: Seq<char>)
    ensures
        match last_dot(s) {
            Some(i) => 0 <= i < s.len(),
            None => true,
        },
    decreases s.len(),
{
    if s.len() > 0 && s.last() != '.' {
        lemma_last_dot_bound(s.drop_last());
    }
}

/// The application a capability belongs to: its id up to the last `.`, or
/// `default` when it has none.
pub open spec fn app_of_capability(capability_id: Option<Seq<char>>) -> Seq<char> {
    match capability_id {
        Some(id) => match last_dot(id) {
            Some(i) => id.take(i),
            None => "default"@,
        },
        None => "default"@,
    }
}

pub fn app_id_for_outcome(capability_id: Option<&str>) -> (r: String)
    ensures
        r@ == app_of_capability(opt_str_view(capability_id)),
{
    let id = match capability_id {
        Some(id) => id,
        None => return owned("default"),
    };
    let v = crate::text::chars_of(id);
    let mut i: usize = v.len();
    assert(v@.take(i as int) =~= v@);
    while i > 0
        invariant
            i <= v@.len(),
            opt_str_view(capability_id) == Some(v@),
            last_dot(v@) == last_dot(v@.take(i as int)),
        decreases i,
    {
        assert(v@.take(i as int).drop_last() =~= v@.take(i - 1));
        if v[i - 1] == '.' {
            assert(v@.take(i as int).last() == v@[i - 1]);
            assert(last_dot(v@.take(i as int)) == Some(i - 1));
            let prefix = crate::text::substring(v.as_slice(), 0, i - 1);
            assert(prefix@ =~= v@.take(i - 1));
            return prefix;
        }
        i = i - 1;
    }
    owned("default")
}

/// The three events an execution requested directly appends: the session
/// (the correlation id, else the execution id) moves from `idle` to
/// `processing`, the capability is invoked, and the result or error ends it
/// in `results` or `error`.
pub open spec fn execution_events(
    workspace_id: Seq<char>,
    execution_id: Seq<char>,
    succeeded: bool,
    capability_id: Option<Seq<char>>,
    capability_version: Option<Seq<char>>,
    correlation_id: Option<Seq<char>>,
    output: Option<Seq<char>>,
    error: Option<FaultView>,
    timestamp: Seq<char>,
) -> Seq<AppEventView> {
    let app_id = app_of_capability(capability_id);
    let session_id = match correlation_id {
        Some(c) => c,
        None => execution_id,
    };
    let final_state = if succeeded { "results"@ } else { "error"@ };
    let result_type = if succeeded { "capability_result"@ } else { "error"@ };
    seq![
        state_changed_view(workspace_id, app_id, session_id, execution_id, "processing"@, "idle"@, timestamp),
        AppEventView {
            event_id: execution_id + ":capability_invoked"@,
            event_type: "capability_invoked"@,
            workspace_id,
            app_id,
            session_id,
            execution_id,
            state: "processing"@,
            previous_state: None,
            timestamp,
            data: EventDataView::ExecutionInvoked { capability_id, capability_version },
        },
        AppEventView {
            event_id: execution_id + ":"@ + result_type,
            event_type: result_type,
            workspace_id,
            app_id,
            session_id,
            execution_id,
            state: final_state,
            previous_state: Some("processing"@),
            timestamp,
            data: EventDataView::ExecutionResult { output, error },
        },
    ]
}

/// Appends the events of an execution requested directly.
pub fn record_app_execution_events(
    events: &mut Vec<AppEvent>,
    workspace_id: &str,
    outcome: &ExecutionOutcome,
    timestamp: &str,
)
    ensures
        event_views(final(events)@) == event_views(old(events)@) + execution_events(workspace_id@,
            outcome.execution_id@, outcome.succeeded, opt_view(outcome.capability_id),
            opt_view(outcome.capability_version), opt_view(outcome.correlation_id),
            opt_view(outcome.output), fault_view(outcome.error), timestamp@),
{
    let ghost start = event_views(events@);
    let execution_id = outcome.execution_id.as_str();
    let app_id = match &outcome.capability_id {
        Some(c) => app_id_for_outcome(Some(c.as_str())),
        None => app_id_for_outcome(None),
    };
    let session_id = match &outcome.correlation_id {
        Some(c) => c.clone(),
        None => owned(execution_id),
    };
    let final_state = if outcome.succeeded { "results" } else { "error" };
    let result_type = if outcome.succeeded { "capability_result" } else { "error" };
    let first = state_changed_event(workspace_id, app_id.as_str(), session_id.as_str(), execution_id,
        "processing", "idle", timestamp);
    events.push(first);
    let mut invoked_id = owned(execution_id);
    push_str(&mut invoked_id, ":capability_invoked");
    let invoked = AppEvent {
        event_id: invoked_id,
        event_type: owned("capability_invoked"),
        workspace_id: owned(workspace_id),
        app_id: app_id.clone(),
        session_id: session_id.clone(),
        execution_id: owned(execution_id),
        state: owned("processing"),
        previous_state: None,
        timestamp: owned(timestamp),
        data: AppEventData::ExecutionInvoked {
            capability_id: copy_text(&outcome.capability_id),
            capability_version: copy_text(&outcome.capability_version),
        },
    };
    events.push(invoked);
    let mut result_id = owned(execution_id);
    push_str(&mut result_id, ":");
    push_str(&mut result_id, result_type);
    let result = AppEvent {
        event_id: result_id,
        event_type: owned(result_type),
        workspace_id: owned(workspace_id),
        app_id,
        session_id,
        execution_id: owned(execution_id),
        state: owned(final_state),
        previous_state: Some(owned("processing")),
        timestamp: owned(timestamp),
        data: AppEventData::ExecutionResult {
            output: copy_text(&outcome.output),
            error: copy_fault(&outcome.error),
        },
    };
    events.push(result);
    proof {
        let expected = execution_events(workspace_id@, outcome.execution_id@, outcome.succeeded,
            opt_view(outcome.capability_id), opt_view(outcome.capability_version),
            opt_view(outcome.correlation_id), opt_view(outcome.output), fault_view(outcome.error),
            timestamp@);
        assert(event_views(events@) =~= start + expected);
    }
}

} // verus!

verus! {

/// The events of one application, in log order.
pub open spec fn app_events_of(es: Seq<AppEventView>, app_id: Seq<char>) -> Seq<AppEventView>
    decreases es.len(),
{
    if es.len() == 0 {
        Seq::empty()
    } else if es[0].app_id == app_id {
        seq![es[0]] + app_events_of(es.drop_first(), app_id)
    } else {
        app_events_of(es.drop_first(), app_id)
    }
}

/// The application's events that a client gets after the event `last`:
/// while `after` is false, events up to and including the one with id
/// `last` are passed over.
pub open spec fn replay_from(
    es: Seq<AppEventView>,
    app_id: Seq<char>,
    last: Option<Seq<char>>,
    after: bool,
) -> Seq<AppEventView>
    decreases es.len(),
{
    if es.len() == 0 {
        Seq::empty()
    } else if es[0].app_id != app_id {
        replay_from(es.drop_first(), app_id, last, after)
    } else if !after {
        replay_from(es.drop_first(), app_id, last, last == Some(es[0].event_id))
    } else {
        seq![es[0]] + replay_from(es.drop_first(), app_id, last, true)
    }
}

/// The events replayed to a client of an application that last saw the
/// event `last` (all of them when it saw none).
pub open spec fn replay(es: Seq<AppEventView>, app_id: Seq<char>, last: Option<Seq<char>>) -> Seq<AppEventView> {
    replay_from(es, app_id, last, last is None)
}

/// The events of an application to replay to a client, after the event it
/// last saw.
pub fn replay_app_events(events: &Vec<AppEvent>, app_id: &str, last_event_id: Option<&str>) -> (r: Vec<AppEvent>)
    ensures
        event_views(r@) == replay(event_views(events@), app_id@, opt_str_view(last_event_id)),
{
    let ghost es = event_views(events@);
    let ghost last = opt_str_view(last_event_id);
    let mut after = last_event_id.is_none();
    let mut out: Vec<AppEvent> = Vec::new();
    let mut i: usize = 0;
    assert(es.skip(0) =~= es);
    while i < events.len()
        invariant
            i <= events@.len(),
            es == event_views(events@),
            last == opt_str_view(last_event_id),
            last_event_id is None ==> after,
            event_views(out@) + replay_from(es.skip(i as int), app_id@, last, after)
                == replay(es, app_id@, last),
        decreases events.len() - i,
    {
        let e = &events[i];
        proof {
            assert(es.skip(i as int)[0] == e@);
            assert(es.skip(i as int).drop_first() =~= es.skip(i + 1));
        }
        if str_equals(e.app_id.as_str(), app_id) {
            if !after {
                after = match last_event_id {
                    Some(l) => str_equals(e.event_id.as_str(), l),
                    None => true,
                };
            } else {
                let ghost before = event_views(out@);
                out.push(e.copy());
                proof {
                    assert(event_views(out@) =~= before.push(e@));
                    assert(before.push(e@) + replay_from(es.skip(i + 1), app_id@, last, true)
                        =~= before + (seq![e@] + replay_from(es.skip(i + 1), app_id@, last, true)));
                }
            }
        }
        i = i + 1;
    }
    assert(es.skip(i as int) =~= Seq::<AppEventView>::empty());
    assert(event_views(out@) =~= event_views(out@) + Seq::<AppEventView>::empty());
    out
}

pub proof fn lemma_replay_all(es: Seq<AppEventView>, app_id: Seq<char>, last: Option<Seq<char>>)
    ensures
        replay_from(es, app_id, last, true) == app_events_of(es, app_id),
    decreases es.len(),
{
    if es.len() > 0 {
        lemma_replay_all(es.drop_first(), app_id, last);
    }
}

/// A client that saw no event gets every event of the application, in log
/// order.
pub proof fn lemma_replay_without_last_event_is_whole_history(es: Seq<AppEventView>, app_id: Seq<char>)
    ensures
        replay(es, app_id, None) == app_events_of(es, app_id),
{
    lemma_replay_all(es, app_id, None);
}

/// A client that last saw the event `id` (the first event of the
/// application with that id is its `k`-th) gets exactly the application's
/// events that follow it.
pub proof fn lemma_replay_resumes_after_last_event(es: Seq<AppEventView>, app_id: Seq<char>, id: Seq<char>, k: int)
    requires
        0 <= k < app_events_of(es, app_id).len(),
        app_events_of(es, app_id)[k].event_id == id,
        forall|j: int| 0 <= j < k ==> (#[trigger] app_events_of(es, app_id)[j]).event_id != id,
    ensures
        replay(es, app_id, Some(id)) == app_events_of(es, app_id).skip(k + 1),
    decreases es.len(),
{
    let f = app_events_of(es, app_id);
    let rest = es.drop_first();
    if es[0].app_id != app_id {
        assert(f == app_events_of(rest, app_id));
        lemma_replay_resumes_after_last_event(rest, app_id, id, k);
    } else {
        assert(f == seq![es[0]] + app_events_of(rest, app_id));
        assert(f[0] == es[0]);
        if es[0].event_id == id {
            assert(k == 0);
            lemma_replay_all(rest, app_id, Some(id));
            assert(f.skip(1) =~= app_events_of(rest, app_id));
        } else {
            assert(k > 0);
            let g = app_events_of(rest, app_id);
            assert forall|j: int| 0 <= j < k - 1 implies (#[trigger] g[j]).event_id != id by {
                assert(g[j] == f[j + 1]);
            }
            assert(g[k - 1] == f[k]);
            lemma_replay_resumes_after_last_event(rest, app_id, id, k - 1);
            assert(f.skip(k + 1) =~= g.skip(k));
        }
    }
}

/// A client whose last event is not one of the application's gets nothing.
pub proof fn lemma_replay_after_unknown_event_is_empty(es: Seq<AppEventView>, app_id: Seq<char>, id: Seq<char>)
    requires
        forall|j: int| 0 <= j < app_events_of(es, app_id).len()
            ==> (#[trigger] app_events_of(es, app_id)[j]).event_id != id,
    ensures
        replay(es, app_id, Some(id)) == Seq::<AppEventView>::empty(),
    decreases es.len(),
{
    if es.len() > 0 {
        let f = app_events_of(es, app_id);
        let rest = es.drop_first();
        let g = app_events_of(rest, app_id);
        if es[0].app_id != app_id {
            assert(f == g);
        } else {
            assert(f == seq![es[0]] + g);
            assert(f[0] == es[0]);
            assert forall|j: int| 0 <= j < g.len() implies (#[trigger] g[j]).event_id != id by {
                assert(g[j] == f[j + 1]);
            }
        }
        lemma_replay_after_unknown_event_is_empty(rest, app_id, id);
    }
}

/// One server-sent event: an optional `id` line, the `event` line, the
/// `data` line and a blank line.
pub open spec fn sse_frame(event_id: Option<Seq<char>>, event_type: Seq<char>, data: Seq<char>) -> Seq<char> {
    let id_line = match event_id {
        Some(id) => "id: "@ + id + "\n"@,
        None => Seq::empty(),
    };
    id_line + "event: "@ + event_type + "\n"@ + "data: "@ + data + "\n\n"@
}

/// Frames one server-sent event around the JSON text of its data.
pub fn serialize_sse_event(event_id: Option<&str>, event_type: &str, data_json: &str) -> (s: String)
    ensures
        s@ == sse_frame(opt_str_view(event_id), event_type@, data_json@),
{
    let mut rendered = String::new();
    if let Some(id) = event_id {
        push_str(&mut rendered, "id: ");
        push_str(&mut rendered, id);
        push_str(&mut rendered, "\n");
    }
    push_str(&mut rendered, "event: ");
    push_str(&mut rendered, event_type);
    push_str(&mut rendered, "\n");
    push_str(&mut rendered, "data: ");
    push_str(&mut rendered, data_json);
    push_str(&mut rendered, "\n\n");
    assert(rendered@ =~= sse_frame(opt_str_view(event_id), event_type@, data_json@));
    rendered
}

} // verus!

verus! {

/// Events of a session are ordered by timestamp, then by event id.
pub open spec fn key_before(a: AppEventView, b: AppEventView) -> bool {
    lex_lt(a.timestamp, b.timestamp) || (a.timestamp == b.timestamp && lex_lt(a.event_id, b.event_id))
}

pub open spec fn in_session(e: AppEventView, app_id: Seq<char>, session_id: Seq<char>) -> bool {
    e.app_id == app_id && e.session_id == session_id
}

/// A result event, whose data carries the capability output.
pub open spec fn carries_output(e: AppEventView) -> bool {
    e.data is CommandResult || e.data is ExecutionResult
}

/// Among the first `n` events, the session's first event in
/// (timestamp, event id) order; of equal keys the earliest logged.
pub open spec fn first_of(es: Seq<AppEventView>, app_id: Seq<char>, sid: Seq<char>, n: int) -> Option<int>
    decreases n,
{
    if n <= 0 || n > es.len() {
        None
    } else {
        let prev = first_of(es, app_id, sid, n - 1);
        if !in_session(es[n - 1], app_id, sid) {
            prev
        } else {
            match prev {
                None => Some(n - 1),
                Some(b) => if key_before(es[n - 1], es[b]) { Some(n - 1) } else { prev },
            }
        }
    }
}

/// Among the first `n` events, the session's last event in that order; of
/// equal keys the latest logged.  With `output_only`, only result events
/// count.
pub open spec fn last_of(es: Seq<AppEventView>, app_id: Seq<char>, sid: Seq<char>, output_only: bool, n: int) -> Option<int>
    decreases n,
{
    if n <= 0 || n > es.len() {
        None
    } else {
        let prev = last_of(es, app_id, sid, output_only, n - 1);
        if !in_session(es[n - 1], app_id, sid) || (output_only && !carries_output(es[n - 1])) {
            prev
        } else {
            match prev {
                None => Some(n - 1),
                Some(b) => if key_before(es[n - 1], es[b]) { prev } else { Some(n - 1) },
            }
        }
    }
}

/// The sessions of an application among the first `n` events, in the order
/// of their first logged event.
pub open spec fn session_ids(es: Seq<AppEventView>, app_id: Seq<char>, n: int) -> Seq<Seq<char>>
    decreases n,
{
    if n <= 0 || n > es.len() {
        Seq::empty()
    } else {
        let prev = session_ids(es, app_id, n - 1);
        if es[n - 1].app_id == app_id && !prev.contains(es[n - 1].session_id) {
            prev.push(es[n - 1].session_id)
        } else {
            prev
        }
    }
}

pub proof fn lemma_first_of_bound(es: Seq<AppEventView>, app_id: Seq<char>, sid: Seq<char>, n: int)
    ensures
        match first_of(es, app_id, sid, n) {
            Some(b) => 0 <= b < n && in_session(es[b], app_id, sid),
            None => true,
        },
    decreases n,
{
    if n > 0 && n <= es.len() {
        lemma_first_of_bound(es, app_id, sid, n - 1);
    }
}

pub proof fn lemma_last_of_bound(es: Seq<AppEventView>, app_id: Seq<char>, sid: Seq<char>, output_only: bool, n: int)
    ensures
        match last_of(es, app_id, sid, output_only, n) {
            Some(b) => 0 <= b < n && in_session(es[b], app_id, sid) && (output_only ==> carries_output(es[b])),
            None => true,
        },
    decreases n,
{
    if n > 0 && n <= es.len() {
        lemma_last_of_bound(es, app_id, sid, output_only, n - 1);
    }
}

/// A listed session has a first and a last event.
pub proof fn lemma_listed_session_has_events(es: Seq<AppEventView>, app_id: Seq<char>, sid: Seq<char>, n: int)
    requires
        session_ids(es, app_id, n).contains(sid),
    ensures
        first_of(es, app_id, sid, n) is Some,
        last_of(es, app_id, sid, false, n) is Some,
    decreases n,
{
    if n > 0 && n <= es.len() {
        let prev = session_ids(es, app_id, n - 1);
        if prev.contains(sid) {
            lemma_listed_session_has_events(es, app_id, sid, n - 1);
        } else {
            let pushed = prev.push(es[n - 1].session_id);
            assert(session_ids(es, app_id, n) == pushed);
            let j = choose|j: int| 0 <= j < pushed.len() && pushed[j] == sid;
            if j < prev.len() {
                assert(pushed[j] == prev[j]);
                assert(prev.contains(sid));
            }
        }
    }
}

/// One row of the sessions listing; `context_event` is the position in the
/// log of the result event whose output the session's context shows.
pub struct AppSession {
    pub session_id: String,
    pub current_state: String,
    pub created_at: String,
    pub updated_at: String,
    pub context_event: Option<usize>,
}

pub struct AppSessionView {
    pub session_id: Seq<char>,
    pub current_state: Seq<char>,
    pub created_at: Seq<char>,
    pub updated_at: Seq<char>,
    pub context_event: Option<int>,
}

impl View for AppSession {
    type V = AppSessionView;

    open spec fn view(&self) -> AppSessionView {
        AppSessionView {
            session_id: self.session_id@,
            current_state: self.current_state@,
            created_at: self.created_at@,
            updated_at: self.updated_at@,
            context_event: match self.context_event {
                Some(i) => Some(i as int),
                None => None,
            },
        }
    }
}

pub open spec fn session_views(v: Seq<AppSession>) -> Seq<AppSessionView> {
    v.map_values(|s: AppSession| s@)
}

/// A session as the listing shows it: created at its first event, in the
/// state of its last one, with the output of its last result event.
pub open spec fn session_summary(es: Seq<AppEventView>, app_id: Seq<char>, sid: Seq<char>) -> AppSessionView {
    let first = first_of(es, app_id, sid, es.len() as int).unwrap();
    let last = last_of(es, app_id, sid, false, es.len() as int).unwrap();
    AppSessionView {
        session_id: sid,
        current_state: es[last].state,
        created_at: es[first].timestamp,
        updated_at: es[last].timestamp,
        context_event: last_of(es, app_id, sid, true, es.len() as int),
    }
}

/// The sessions of an application, one per session seen in the log.
pub open spec fn sessions_of(es: Seq<AppEventView>, app_id: Seq<char>) -> Seq<AppSessionView> {
    let ids = session_ids(es, app_id, es.len() as int);
    Seq::new(ids.len(), |k: int| session_summary(es, app_id, ids[k]))
}

fn event_key_before(a: &AppEvent, b: &AppEvent) -> (r: bool)
    ensures
        r == key_before(a@, b@),
{
    let at = crate::text::chars_of(a.timestamp.as_str());
    let bt = crate::text::chars_of(b.timestamp.as_str());
    if crate::text::lex_less(at.as_slice(), bt.as_slice()) {
        return true;
    }
    if !str_equals(a.timestamp.as_str(), b.timestamp.as_str()) {
        return false;
    }
    let ai = crate::text::chars_of(a.event_id.as_str());
    let bi = crate::text::chars_of(b.event_id.as_str());
    crate::text::lex_less(ai.as_slice(), bi.as_slice())
}

fn is_result_event(e: &AppEvent) -> (r: bool)
    ensures
        r == carries_output(e@),
{
    match e.data {
        AppEventData::CommandResult { .. } => true,
        AppEventData::ExecutionResult { .. } => true,
        _ => false,
    }
}

fn list_session_ids(events: &Vec<AppEvent>, app_id: &str) -> (ids: Vec<String>)
    ensures
        crate::text::texts(ids@) == session_ids(event_views(events@), app_id@, events@.len() as int),
{
    let ghost es = event_views(events@);
    let mut ids: Vec<String> = Vec::new();
    let mut i: usize = 0;
    while i < events.len()
        invariant
            i <= events@.len(),
            es == event_views(events@),
            crate::text::texts(ids@) == session_ids(es, app_id@, i as int),
        decreases events.len() - i,
    {
        let e = &events[i];
        assert(es[i as int] == e@);
        if str_equals(e.app_id.as_str(), app_id) && !crate::text::contains_text(&ids, e.session_id.as_str()) {
            let ghost before = ids@;
            ids.push(e.session_id.clone());
            assert(crate::text::texts(ids@) =~= crate::text::texts(before).push(e@.session_id));
        }
        i = i + 1;
    }
    ids
}

fn summarize_session(events: &Vec<AppEvent>, app_id: &str, session_id: &str) -> (r: AppSession)
    requires
        session_ids(event_views(events@), app_id@, events@.len() as int).contains(session_id@),
    ensures
        r@ == session_summary(event_views(events@), app_id@, session_id@),
{
    let ghost es = event_views(events@);
    let mut first: Option<usize> = None;
    let mut last: Option<usize> = None;
    let mut context: Option<usize> = None;
    let mut i: usize = 0;
    while i < events.len()
        invariant
            i <= events@.len(),
            es == event_views(events@),
            first_of(es, app_id@, session_id@, i as int) == (match first { Some(b) => Some(b as int), None => None::<int> }),
            last_of(es, app_id@, session_id@, false, i as int) == (match last { Some(b) => Some(b as int), None => None::<int> }),
            last_of(es, app_id@, session_id@, true, i as int) == (match context { Some(b) => Some(b as int), None => None::<int> }),
            first matches Some(b) ==> b < i,
            last matches Some(b) ==> b < i,
            context matches Some(b) ==> b < i,
        decreases events.len() - i,
    {
        let e = &events[i];
        assert(es[i as int] == e@);
        if str_equals(e.app_id.as_str(), app_id) && str_equals(e.session_id.as_str(), session_id) {
            match first {
                None => { first = Some(i); },
                Some(b) => {
                    assert(es[b as int] == events@[b as int]@);
                    if event_key_before(e, &events[b]) {
                        first = Some(i);
                    }
                },
            }
            match last {
                None => { last = Some(i); },
                Some(b) => {
                    assert(es[b as int] == events@[b as int]@);
                    if !event_key_before(e, &events[b]) {
                        last = Some(i);
                    }
                },
            }
            if is_result_event(e) {
                match context {
                    None => { context = Some(i); },
                    Some(b) => {
                        assert(es[b as int] == events@[b as int]@);
                        if !event_key_before(e, &events[b]) {
                            context = Some(i);
                        }
                    },
                }
            }
        }
        i = i + 1;
    }
    proof {
        lemma_listed_session_has_events(es, app_id@, session_id@, es.len() as int);
    }
    let f = first.unwrap();
    let l = last.unwrap();
    assert(es[f as int] == events@[f as int]@);
    assert(es[l as int] == events@[l as int]@);
    AppSession {
        session_id: owned(session_id),
        current_state: events[l].state.clone(),
        created_at: events[f].timestamp.clone(),
        updated_at: events[l].timestamp.clone(),
        context_event: context,
    }
}

/// The sessions of an application: for each session seen in the log, in
/// the order of its first logged event, its current state, creation and
/// update times and the result event that gives its context.
pub fn materialize_app_sessions(events: &Vec<AppEvent>, app_id: &str) -> (r: Vec<AppSession>)
    ensures
        session_views(r@) == sessions_of(event_views(events@), app_id@),
{
    let ghost es = event_views(events@);
    let ids = list_session_ids(events, app_id);
    let ghost all = session_ids(es, app_id@, es.len() as int);
    let mut out: Vec<AppSession> = Vec::new();
    let mut k: usize = 0;
    while k < ids.len()
        invariant
            k <= ids@.len(),
            es == event_views(events@),
            crate::text::texts(ids@) == all,
            all == session_ids(es, app_id@, es.len() as int),
            session_views(out@) == Seq::new(k as nat, |j: int| session_summary(es, app_id@, all[j])),
        decreases ids.len() - k,
    {
        assert(all[k as int] == ids@[k as int]@);
        assert(all.contains(all[k as int]));
        let s = summarize_session(events, app_id, ids[k].as_str());
        let ghost before = session_views(out@);
        out.push(s);
        assert(session_views(out@) =~= before.push(s@));
        assert(session_views(out@) =~= Seq::new((k + 1) as nat, |j: int| session_summary(es, app_id@, all[j])));
        k = k + 1;
    }
    assert(session_views(out@) =~= sessions_of(es, app_id@));
    out
}

} // verus!

verus! {

impl AppSession {
    pub fn copy(&self) -> (r: Self)
        ensures
            r@ == self@,
    {
        AppSession {
            session_id: self.session_id.clone(),
            current_state: self.current_state.clone(),
            created_at: self.created_at.clone(),
            updated_at: self.updated_at.clone(),
            context_event: self.context_event,
        }
    }
}

/// Creation time `a` is listed before creation time `b`.
pub open spec fn created_before(order: SessionsOrder, a: Seq<char>, b: Seq<char>) -> bool {
    match order {
        SessionsOrder::CreatedAsc => lex_lt(a, b),
        SessionsOrder::CreatedDesc => lex_lt(b, a),
    }
}

/// Where a session goes in a sorted listing: before the first session,
/// from `k` on, created strictly after it in the listing order.
pub open spec fn insert_pos(s: Seq<AppSessionView>, x: AppSessionView, order: SessionsOrder, k: int) -> int
    decreases s.len() - k,
{
    if k < 0 || k >= s.len() {
        s.len() as int
    } else if created_before(order, x.created_at, s[k].created_at) {
        k
    } else {
        insert_pos(s, x, order, k + 1)
    }
}

/// The listing order of sessions: by creation time, ascending or
/// descending; sessions created at the same time keep their relative order.
pub open spec fn sort_sessions_spec(s: Seq<AppSessionView>, order: SessionsOrder) -> Seq<AppSessionView>
    decreases s.len(),
{
    if s.len() == 0 {
        Seq::empty()
    } else {
        let r = sort_sessions_spec(s.drop_last(), order);
        r.insert(insert_pos(r, s.last(), order, 0), s.last())
    }
}

pub open spec fn sorted_by_created(s: Seq<AppSessionView>, order: SessionsOrder) -> bool {
    forall|i: int, j: int| 0 <= i < j < s.len() ==> !created_before(order, #[trigger] s[j].created_at, #[trigger] s[i].created_at)
}

pub proof fn lemma_insert_pos(s: Seq<AppSessionView>, x: AppSessionView, order: SessionsOrder, k: int)
    requires
        0 <= k <= s.len(),
    ensures
        k <= insert_pos(s, x, order, k) <= s.len(),
        forall|q: int| k <= q < insert_pos(s, x, order, k) ==> !created_before(order, x.created_at, #[trigger] s[q].created_at),
        insert_pos(s, x, order, k) < s.len() ==> created_before(order, x.created_at, s[insert_pos(s, x, order, k)].created_at),
    decreases s.len() - k,
{
    if k < s.len() && !created_before(order, x.created_at, s[k].created_at) {
        lemma_insert_pos(s, x, order, k + 1);
    }
}

proof fn lemma_created_before_transitive(order: SessionsOrder, a: Seq<char>, b: Seq<char>, c: Seq<char>)
    requires
        created_before(order, a, b),
        created_before(order, b, c),
    ensures
        created_before(order, a, c),
{
    match order {
        SessionsOrder::CreatedAsc => crate::text::lemma_lex_transitive(a, b, c),
        SessionsOrder::CreatedDesc => crate::text::lemma_lex_transitive(c, b, a),
    }
}

proof fn lemma_created_before_asymmetric(order: SessionsOrder, a: Seq<char>, b: Seq<char>)
    ensures
        created_before(order, a, b) ==> !created_before(order, b, a),
        !created_before(order, a, a),
{
    crate::text::lemma_lex_asymmetric(a, b);
    crate::text::lemma_lex_asymmetric(b, a);
    crate::text::lemma_lex_irreflexive(a);
}

proof fn lemma_insert_keeps_sorted(r: Seq<AppSessionView>, x: AppSessionView, order: SessionsOrder)
    requires
        sorted_by_created(r, order),
    ensures
        sorted_by_created(r.insert(insert_pos(r, x, order, 0), x), order),
{
    let p = insert_pos(r, x, order, 0);
    lemma_insert_pos(r, x, order, 0);
    let t = r.insert(p, x);
    assert forall|i: int, j: int| 0 <= i < j < t.len()
        implies !created_before(order, #[trigger] t[j].created_at, #[trigger] t[i].created_at) by {
        if j < p {
            assert(t[i] == r[i] && t[j] == r[j]);
        } else if j == p {
            assert(t[i] == r[i] && t[j] == x);
        } else if i > p {
            assert(t[i] == r[i - 1] && t[j] == r[j - 1]);
        } else if i == p {
            assert(t[i] == x && t[j] == r[j - 1]);
            lemma_created_before_asymmetric(order, r[p].created_at, x.created_at);
            if j - 1 > p {
                assert(!created_before(order, r[j - 1].created_at, r[p].created_at));
                if created_before(order, r[j - 1].created_at, x.created_at) {
                    lemma_created_before_transitive(order, r[j - 1].created_at, x.created_at, r[p].created_at);
                }
            }
        } else {
            assert(t[i] == r[i] && t[j] == r[j - 1]);
        }
    }
}

/// The listing is ordered by creation time and holds each session given
/// exactly as often as it was given.
pub proof fn lemma_sorted_sessions_are_ordered_permutation(s: Seq<AppSessionView>, order: SessionsOrder)
    ensures
        sorted_by_created(sort_sessions_spec(s, order), order),
        sort_sessions_spec(s, order).to_multiset() == s.to_multiset(),
    decreases s.len(),
{
    if s.len() > 0 {
        let x = s.last();
        let r = sort_sessions_spec(s.drop_last(), order);
        lemma_sorted_sessions_are_ordered_permutation(s.drop_last(), order);
        lemma_insert_keeps_sorted(r, x, order);
        lemma_insert_pos(r, x, order, 0);
        let p = insert_pos(r, x, order, 0);
        vstd::seq_lib::to_multiset_insert(r, p, x);
        vstd::seq_lib::to_multiset_build(s.drop_last(), x);
        assert(s.drop_last().push(x) =~= s);
        assert(sort_sessions_spec(s, order) == r.insert(p, x));
        assert(r.insert(p, x).to_multiset() == r.to_multiset().insert(x));
        assert(s.to_multiset() == s.drop_last().to_multiset().insert(x));
    } else {
        assert(s =~= Seq::<AppSessionView>::empty());
        assert(sort_sessions_spec(s, order) =~= s);
    }
}

fn created_precedes(order: SessionsOrder, a: &str, b: &str) -> (r: bool)
    ensures
        r == created_before(order, a@, b@),
{
    let av = crate::text::chars_of(a);
    let bv = crate::text::chars_of(b);
    match order {
        SessionsOrder::CreatedAsc => crate::text::lex_less(av.as_slice(), bv.as_slice()),
        SessionsOrder::CreatedDesc => crate::text::lex_less(bv.as_slice(), av.as_slice()),
    }
}

/// Sorts sessions into the listing order.
pub fn sort_sessions(sessions: &Vec<AppSession>, order: SessionsOrder) -> (r: Vec<AppSession>)
    ensures
        session_views(r@) == sort_sessions_spec(session_views(sessions@), order),
{
    let ghost v = session_views(sessions@);
    let mut out: Vec<AppSession> = Vec::new();
    let mut i: usize = 0;
    assert(v.take(0) =~= Seq::<AppSessionView>::empty());
    while i < sessions.len()
        invariant
            i <= sessions@.len(),
            v == session_views(sessions@),
            session_views(out@) == sort_sessions_spec(v.take(i as int), order),
        decreases sessions.len() - i,
    {
        let x = &sessions[i];
        let ghost r = session_views(out@);
        let mut p: usize = 0;
        while p < out.len() && !created_precedes(order, x.created_at.as_str(), out[p].created_at.as_str())
            invariant
                p <= out@.len(),
                r == session_views(out@),
                insert_pos(r, x@, order, 0) == insert_pos(r, x@, order, p as int),
            decreases out.len() - p,
        {
            p = p + 1;
        }
        proof {
            if p < out@.len() {
                assert(r[p as int] == out@[p as int]@);
            }
        }
        out.insert(p, x.copy());
        proof {
            assert(v.take(i + 1).drop_last() =~= v.take(i as int));
            assert(v.take(i + 1).last() == x@);
            assert(session_views(out@) =~= r.insert(p as int, x@));
        }
        i = i + 1;
    }
    assert(v.take(i as int) =~= v);
    out
}

/// The sessions in the given state (all of them without a filter).
pub open spec fn filter_state(s: Seq<AppSessionView>, state: Option<Seq<char>>) -> Seq<AppSessionView>
    decreases s.len(),
{
    if s.len() == 0 {
        Seq::empty()
    } else {
        let r = filter_state(s.drop_last(), state);
        match state {
            Some(st) => if s.last().current_state == st { r.push(s.last()) } else { r },
            None => r.push(s.last()),
        }
    }
}

/// Position of the first session, from `k` on, with the given id.
pub open spec fn find_session_from(s: Seq<AppSessionView>, id: Seq<char>, k: int) -> Option<int>
    decreases s.len() - k,
{
    if k < 0 || k >= s.len() {
        None
    } else if s[k].session_id == id {
        Some(k)
    } else {
        find_session_from(s, id, k + 1)
    }
}

/// Where a page starts: after the session named by the cursor, or at the
/// beginning when there is no cursor or it names no session.
pub open spec fn cursor_start(s: Seq<AppSessionView>, cursor: Option<Seq<char>>) -> int {
    match cursor {
        Some(c) => match find_session_from(s, c, 0) {
            Some(i) => i + 1,
            None => 0,
        },
        None => 0,
    }
}

pub open spec fn page_rest(s: Seq<AppSessionView>, cursor: Option<Seq<char>>) -> Seq<AppSessionView> {
    s.skip(cursor_start(s, cursor))
}

/// The sessions of one page: at most `limit` of them from the cursor on.
pub open spec fn page_of(s: Seq<AppSessionView>, cursor: Option<Seq<char>>, limit: nat) -> Seq<AppSessionView> {
    let rest = page_rest(s, cursor);
    if rest.len() > limit { rest.take(limit as int) } else { rest }
}

/// The cursor of the next page: the first session left out, if any.
pub open spec fn next_cursor_of(s: Seq<AppSessionView>, cursor: Option<Seq<char>>, limit: nat) -> Option<Seq<char>> {
    let rest = page_rest(s, cursor);
    if rest.len() > limit { Some(rest[limit as int].session_id) } else { None }
}

pub proof fn lemma_find_session_from(s: Seq<AppSessionView>, id: Seq<char>, k: int)
    requires
        0 <= k <= s.len(),
    ensures
        match find_session_from(s, id, k) {
            Some(i) => k <= i < s.len() && s[i].session_id == id,
            None => true,
        },
    decreases s.len() - k,
{
    if k < s.len() && s[k].session_id != id {
        lemma_find_session_from(s, id, k + 1);
    }
}

fn find_session(listed: &Vec<AppSession>, id: &str) -> (r: Option<usize>)
    ensures
        match r {
            Some(k) => find_session_from(session_views(listed@), id@, 0) == Some(k as int) && k < listed@.len(),
            None => find_session_from(session_views(listed@), id@, 0) is None,
        },
{
    let ghost lv = session_views(listed@);
    let mut k: usize = 0;
    while k < listed.len()
        invariant
            k <= listed@.len(),
            lv == session_views(listed@),
            find_session_from(lv, id@, 0) == find_session_from(lv, id@, k as int),
        decreases listed.len() - k,
    {
        assert(lv[k as int] == listed@[k as int]@);
        if str_equals(listed[k].session_id.as_str(), id) {
            return Some(k);
        }
        k = k + 1;
    }
    None
}

/// One page of the sessions listing.
pub struct SessionsPage {
    pub sessions: Vec<AppSession>,
    pub total: usize,
    pub next_cursor: Option<String>,
}

/// Lists the sessions of an application: those in the requested state, in
/// creation order, `limit` of them after the cursor; `total` counts all the
/// sessions in the state.
pub fn app_sessions_response(
    events: &Vec<AppEvent>,
    app_id: &str,
    state_filter: Option<&str>,
    limit: usize,
    cursor: Option<&str>,
    order: SessionsOrder,
) -> (r: SessionsPage)
    ensures
        ({
            let listed = sort_sessions_spec(
                filter_state(sessions_of(event_views(events@), app_id@), opt_str_view(state_filter)),
                order,
            );
            &&& r.total == listed.len()
            &&& session_views(r.sessions@) == page_of(listed, opt_str_view(cursor), limit as nat)
            &&& opt_view(r.next_cursor) == next_cursor_of(listed, opt_str_view(cursor), limit as nat)
        }),
{
    let all = materialize_app_sessions(events, app_id);
    let ghost sv = session_views(all@);
    let mut kept: Vec<AppSession> = Vec::new();
    let mut i: usize = 0;
    assert(sv.take(0) =~= Seq::<AppSessionView>::empty());
    while i < all.len()
        invariant
            i <= all@.len(),
            sv == session_views(all@),
            session_views(kept@) == filter_state(sv.take(i as int), opt_str_view(state_filter)),
        decreases all.len() - i,
    {
        let s = &all[i];
        proof {
            assert(sv.take(i + 1).drop_last() =~= sv.take(i as int));
            assert(sv.take(i + 1).last() == s@);
        }
        let keep = match state_filter {
            Some(st) => str_equals(s.current_state.as_str(), st),
            None => true,
        };
        if keep {
            let ghost before = session_views(kept@);
            kept.push(s.copy());
            assert(session_views(kept@) =~= before.push(s@));
        }
        i = i + 1;
    }
    assert(sv.take(i as int) =~= sv);
    let listed = sort_sessions(&kept, order);
    let ghost lv = session_views(listed@);
    let total = listed.len();
    let start: usize = match cursor {
        Some(c) => match find_session(&listed, c) {
            Some(k) => k + 1,
            None => 0,
        },
        None => 0,
    };
    assert(start as int == cursor_start(lv, opt_str_view(cursor)));
    let ghost rest = lv.skip(start as int);
    let mut page: Vec<AppSession> = Vec::new();
    let mut j: usize = start;
    while j < listed.len() && j - start < limit
        invariant
            start <= j <= listed@.len(),
            j - start <= limit,
            lv == session_views(listed@),
            rest == lv.skip(start as int),
            session_views(page@) == rest.take(j - start),
        decreases listed.len() - j,
    {
        let ghost before = session_views(page@);
        assert(rest[j - start] == lv[j as int]);
        assert(lv[j as int] == listed@[j as int]@);
        page.push(listed[j].copy());
        assert(session_views(page@) =~= before.push(listed@[j as int]@));
        assert(session_views(page@) =~= rest.take(j + 1 - start));
        j = j + 1;
    }
    let next_cursor = if j < listed.len() {
        assert(lv[j as int] == listed@[j as int]@);
        Some(listed[j].session_id.clone())
    } else {
        None
    };
    proof {
        if rest.len() > limit {
            assert(j - start == limit);
        } else {
            assert(j == listed@.len());
            assert(session_views(page@) =~= rest);
        }
    }
    SessionsPage { sessions: page, total, next_cursor }
}

} // verus!

verus! {

/// A member of a JSON object as the command checks read it.
pub enum CommandMember {
    Absent,
    Null,
    Text(String),
    /// Present, and neither `null` nor a string.
    Other,
}

pub enum CommandMemberView {
    Absent,
    Null,
    Text(Seq<char>),
    Other,
}

impl View for CommandMember {
    type V = CommandMemberView;

    open spec fn view(&self) -> CommandMemberView {
        match self {
            CommandMember::Absent => CommandMemberView::Absent,
            CommandMember::Null => CommandMemberView::Null,
            CommandMember::Text(s) => CommandMemberView::Text(s@),
            CommandMember::Other => CommandMemberView::Other,
        }
    }
}

/// The members of a command body that the checks read; `is_object` is false
/// when the body is JSON but not an object.
pub struct AppCommandMembers {
    pub is_object: bool,
    pub command: CommandMember,
    pub session_id: CommandMember,
}

/// A well-formed application command.
pub struct AppCommandRequest {
    pub command: String,
    pub session_id: Option<String>,
}

/// The command and session a body names, or why it is refused: it must be
/// an object whose `command` is a non-blank string, and whose `session_id`,
/// when present and not null, is a non-blank string.
pub open spec fn app_command_request(
    is_object: bool,
    command: CommandMemberView,
    session_id: CommandMemberView,
) -> Result<(Seq<char>, Option<Seq<char>>), Seq<char>> {
    if !is_object {
        Err("request body must be a JSON object"@)
    } else {
        match command {
            CommandMemberView::Text(c) if !crate::text::blank(c) => match session_id {
                CommandMemberView::Absent => Ok((c, None)),
                CommandMemberView::Null => Ok((c, None)),
                CommandMemberView::Text(s) if !crate::text::blank(s) => Ok((c, Some(s))),
                _ => Err("'session_id' must be a non-empty string when present"@),
            },
            _ => Err("'command' must be a non-empty string"@),
        }
    }
}

pub fn parse_app_command_request(members: &AppCommandMembers) -> (r: Result<AppCommandRequest, String>)
    ensures
        match (r, app_command_request(members.is_object, members.command@, members.session_id@)) {
            (Ok(q), Ok((c, s))) => q.command@ == c && opt_view(q.session_id) == s,
            (Err(e), Err(m)) => e@ == m,
            _ => false,
        },
{
    if !members.is_object {
        return Err(owned("request body must be a JSON object"));
    }
    let command = match &members.command {
        CommandMember::Text(c) => {
            if crate::text::str_is_blank(c.as_str()) {
                return Err(owned("'command' must be a non-empty string"));
            }
            c.clone()
        },
        _ => return Err(owned("'command' must be a non-empty string")),
    };
    let session_id = match &members.session_id {
        CommandMember::Absent => None,
        CommandMember::Null => None,
        CommandMember::Text(s) => {
            if crate::text::str_is_blank(s.as_str()) {
                return Err(owned("'session_id' must be a non-empty string when present"));
            }
            Some(s.clone())
        },
        CommandMember::Other => return Err(owned("'session_id' must be a non-empty string when present")),
    };
    Ok(AppCommandRequest { command, session_id })
}

} // verus!

verus! {

/// After a command is accepted, the next command of the same session starts
/// from the state the accepted one entered.
pub proof fn lemma_accepted_command_sets_session_state(
    es: Seq<AppEventView>,
    initial: Seq<char>,
    workspace_id: Seq<char>,
    app_id: Seq<char>,
    session_id: Seq<char>,
    command_id: Seq<char>,
    to: Seq<char>,
    current: Seq<char>,
    timestamp: Seq<char>,
)
    ensures
        command_session(
            es.push(state_changed_view(workspace_id, app_id, session_id, command_id, to, current, timestamp)),
            initial,
            app_id,
            Some(session_id),
        ) == (session_id, to),
{
    let e = state_changed_view(workspace_id, app_id, session_id, command_id, to, current, timestamp);
    assert(es.push(e).last() == e);
}

/// After the events of a capability outcome, the session is in the state
/// the result event reports, and that event is the last one logged.
pub proof fn lemma_outcome_events_end_in_result_state(
    es: Seq<AppEventView>,
    initial: Seq<char>,
    workspace_id: Seq<char>,
    app_id: Seq<char>,
    session_id: Seq<char>,
    m: AppMachine,
    invoking: Seq<char>,
    capability_id: Seq<char>,
    execution_id: Seq<char>,
    succeeded: bool,
    output: Option<Seq<char>>,
    error: Option<FaultView>,
    vs: Seq<ConditionVerdict>,
    timestamp: Seq<char>,
)
    ensures
        ({
            let added = command_outcome_events(workspace_id, app_id, session_id, m, invoking,
                capability_id, execution_id, succeeded, output, error, vs, timestamp);
            let (final_state, fault) = outcome_resolution(m, invoking, succeeded, vs);
            &&& added[0].event_type == "capability_invoked"@
            &&& added.last().state == final_state
            &&& added.last().previous_state == Some(invoking)
            &&& (added.last().event_type == "error"@ <==> (fault is Some || !succeeded))
            &&& command_session(es + added, initial, app_id, Some(session_id)) == (session_id, final_state)
        }),
{
    let added = command_outcome_events(workspace_id, app_id, session_id, m, invoking,
        capability_id, execution_id, succeeded, output, error, vs, timestamp);
    assert((es + added).last() == added.last());
    assert("error"@ != "capability_result"@) by {
        reveal_strlit("error");
        reveal_strlit("capability_result");
        assert("error"@.len() != "capability_result"@.len());
    }
}

} // verus!

verus! {

/// With distinct session ids, the page requested with the cursor of the
/// `k`-th listed session holds the sessions listed after it, `limit` at
/// most.
pub proof fn lemma_cursor_page_follows_session(s: Seq<AppSessionView>, k: int, limit: nat)
    requires
        0 <= k < s.len(),
        forall|i: int, j: int| 0 <= i < j < s.len() ==> #[trigger] s[i].session_id != #[trigger] s[j].session_id,
    ensures
        page_of(s, Some(s[k].session_id), limit) == (if s.len() - (k + 1) > limit {
            s.skip(k + 1).take(limit as int)
        } else {
            s.skip(k + 1)
        }),
{
    lemma_find_session_first(s, s[k].session_id, 0, k);
}

proof fn lemma_find_session_first(s: Seq<AppSessionView>, id: Seq<char>, from: int, k: int)
    requires
        0 <= from <= k < s.len(),
        s[k].session_id == id,
        forall|i: int, j: int| 0 <= i < j < s.len() ==> #[trigger] s[i].session_id != #[trigger] s[j].session_id,
    ensures
        find_session_from(s, id, from) == Some(k),
    decreases k - from,
{
    if from < k {
        assert(s[from].session_id != s[k].session_id);
        lemma_find_session_first(s, id, from + 1, k);
    }
}


/// The next cursor names the session right after the page: when there is
/// one, the page is the `limit` sessions just before it in the listing, so
/// it names no session of the page; when there is none, the page runs to
/// the end of the listing.
pub proof fn lemma_next_cursor_follows_page(s: Seq<AppSessionView>, cursor: Option<Seq<char>>, limit: nat)
    requires
        forall|i: int, j: int| 0 <= i < j < s.len() ==> #[trigger] s[i].session_id != #[trigger] s[j].session_id,
    ensures
        ({
            let p = page_of(s, cursor, limit);
            match next_cursor_of(s, cursor, limit) {
                Some(c) => {
                    &&& p.len() == limit
                    &&& exists|k: int| limit <= k < s.len() && s.subrange(k - limit, k) == p && s[k].session_id == c
                    &&& forall|i: int| 0 <= i < p.len() ==> #[trigger] p[i].session_id != c
                },
                None => p.len() <= s.len() && s.skip(s.len() - p.len()) == p,
            }
        }),
{
    let st = cursor_start(s, cursor);
    match cursor {
        Some(c) => {
            lemma_find_session_from(s, c, 0);
        },
        None => {},
    }
    assert(0 <= st <= s.len());
    let rest = s.skip(st);
    let p = page_of(s, cursor, limit);
    match next_cursor_of(s, cursor, limit) {
        Some(c) => {
            let k = st + limit;
            assert(s.subrange(k - limit, k) =~= p);
            assert(s[k] == rest[limit as int]);
            assert forall|i: int| 0 <= i < p.len() implies #[trigger] p[i].session_id != c by {
                assert(p[i] == s[st + i]);
                assert(st + i < k);
            }
        },
        None => {
            assert(s.skip(s.len() - p.len()) =~= p);
        },
    }
}

/// Filtering by state keeps exactly the sessions in that state, in the
/// order listed; without a state every session is kept.
pub proof fn lemma_filter_state_keeps_matching(s: Seq<AppSessionView>, state: Option<Seq<char>>)
    ensures
        state is None ==> filter_state(s, state) == s,
        forall|x: AppSessionView| #[trigger] filter_state(s, state).contains(x) <==> (s.contains(x) && match state {
            Some(st) => x.current_state == st,
            None => true,
        }),
        filter_state(s, state).len() <= s.len(),
    decreases s.len(),
{
    if s.len() == 0 {
        assert(filter_state(s, state) =~= s);
    } else {
        lemma_filter_state_keeps_matching(s.drop_last(), state);
        let r = filter_state(s.drop_last(), state);
        assert(s =~= s.drop_last().push(s.last()));
        if state is None {
            assert(filter_state(s, state) == r.push(s.last()));
        }
        assert forall|x: AppSessionView| #[trigger] filter_state(s, state).contains(x) <==> (s.contains(x) && match state {
            Some(st) => x.current_state == st,
            None => true,
        }) by {
            let f = filter_state(s, state);
            if s.contains(x) {
                let k = choose|k: int| 0 <= k < s.len() && s[k] == x;
                if k < s.len() - 1 {
                    assert(s.drop_last()[k] == x);
                    assert(s.drop_last().contains(x));
                }
            }
            if r.contains(x) {
                let k = choose|k: int| 0 <= k < r.len() && r[k] == x;
                if f == r.push(s.last()) {
                    assert(f[k] == x);
                }
            }
            if f.contains(x) && f != r {
                let k = choose|k: int| 0 <= k < f.len() && f[k] == x;
                if k < r.len() {
                    assert(r[k] == x);
                }
            }
            if s.drop_last().contains(x) {
                let k = choose|k: int| 0 <= k < s.drop_last().len() && s.drop_last()[k] == x;
                assert(s[k] == x);
            }
            if f == r.push(s.last()) {
                assert(f[f.len() - 1] == s.last());
            }
            assert(s[s.len() - 1] == s.last());
        }
    }
}

} // verus!
