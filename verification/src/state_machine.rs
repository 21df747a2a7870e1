//! Checks on the `invoke` waits of an application state machine: a wait names
//! exactly one target (a capability or a host connector), routes every
//! terminal outcome of that target, and a capability step that reads a
//! host-connector result can be reached from a state that produces one.

use vstd::prelude::*;
use crate::text::{
    blank, contains_text, join, join_texts, owned, push_str, str_equals, str_is_blank, strip_prefix, texts, chars_of, strip_prefix_vec, is_blank,
};

verus! {

pub const CODE_MISSING_ROUTES: &'static str = "app_state_machine_missing_unhappy_routes";

pub const CODE_CONFLICTING_INVOKE: &'static str = "app_state_machine_conflicting_invoke";

pub const CODE_EMPTY_INVOKE: &'static str = "app_state_machine_empty_invoke";

pub const CODE_UNREACHABLE_HOST_CONNECTOR_RESULT: &'static str =
    "app_state_machine_unreachable_host_connector_result";

pub const CODE_INVALID_INPUT_FROM: &'static str = "app_state_machine_invalid_input_from";

pub const HOST_CONNECTOR_RESULT_PREFIX: &'static str = "host_connector_result.";

pub const DEFAULT_INPUT_FROM: &'static str = "command.payload";

/// The string fields of a state's `invoke` object; a field that is absent or
/// not a string is `None`.
pub struct InvokeDecl {
    pub capability_id: Option<String>,
    pub host_connector: Option<String>,
    pub input_from: Option<String>,
}

/// A state's `invoke` member.
pub enum InvokeField {
    Absent,
    NotObject,
    Object(InvokeDecl),
}

/// One entry of a state's `transitions`; `on` and `to` are `None` when they
/// are absent or not strings.
pub struct TransitionDecl {
    pub on: Option<String>,
    pub to: Option<String>,
}

/// One entry of `state_machine.states`.
pub struct StateDecl {
    pub id: Option<String>,
    pub invoke: InvokeField,
    pub transitions: Vec<TransitionDecl>,
}

#[derive(Debug, PartialEq, Eq)]
pub struct InvokeRouteViolation {
    pub code: String,
    pub path: String,
    pub message: String,
}

pub struct ViolationView {
    pub code: Seq<char>,
    pub path: Seq<char>,
    pub message: Seq<char>,
}

impl View for InvokeRouteViolation {
    type V = ViolationView;

    open spec fn view(&self) -> ViolationView {
        ViolationView { code: self.code@, path: self.path@, message: self.message@ }
    }
}

pub open spec fn violation_views(v: Seq<InvokeRouteViolation>) -> Seq<ViolationView> {
    v.map_values(|x: InvokeRouteViolation| x@)
}

pub open spec fn opt_violation(o: Option<ViolationView>) -> Seq<ViolationView> {
    match o {
        Some(v) => seq![v],
        None => Seq::empty(),
    }
}

/// A string member that is present and not blank.
pub open spec fn declared(o: Option<String>) -> bool {
    match o {
        Some(v) => !blank(v@),
        None => false,
    }
}

pub open spec fn state_path(id: Seq<char>, suffix: Seq<char>) -> Seq<char> {
    "state_machine.states."@ + id + suffix
}

/// The outcomes a wait must route: the four host-connector outcomes, or the
/// two capability outcomes.
pub open spec fn required_events(host_connector: bool) -> Seq<Seq<char>> {
    if host_connector {
        seq![
            "host_connector_succeeded"@,
            "host_connector_failed"@,
            "host_connector_timeout"@,
            "host_connector_cancelled"@,
        ]
    } else {
        seq!["capability_succeeded"@, "capability_failed"@]
    }
}

/// The `on` events of a state's transitions, in order.
pub open spec fn transition_ons(ts: Seq<TransitionDecl>) -> Seq<Seq<char>>
    decreases ts.len(),
{
    if ts.len() == 0 {
        Seq::empty()
    } else {
        let prev = transition_ons(ts.drop_last());
        match ts.last().on {
            Some(o) => prev.push(o@),
            None => prev,
        }
    }
}

/// The required events, in order, that no transition routes.
pub open spec fn missing_events(required: Seq<Seq<char>>, ons: Seq<Seq<char>>) -> Seq<Seq<char>>
    decreases required.len(),
{
    if required.len() == 0 {
        Seq::empty()
    } else {
        let prev = missing_events(required.drop_last(), ons);
        if ons.contains(required.last()) {
            prev
        } else {
            prev.push(required.last())
        }
    }
}

/// The violation, if any, that the per-state pass reports for `s`.
pub open spec fn first_pass_violation(s: StateDecl) -> Option<ViolationView> {
    match s.id {
        None => None,
        Some(id) => match s.invoke {
            InvokeField::Absent => None,
            InvokeField::NotObject => Some(
                ViolationView {
                    code: CODE_EMPTY_INVOKE@,
                    path: state_path(id@, ".invoke"@),
                    message: "invoke must be an object"@,
                },
            ),
            InvokeField::Object(d) => {
                let cap = declared(d.capability_id);
                let hc = declared(d.host_connector);
                if cap && hc {
                    Some(
                        ViolationView {
                            code: CODE_CONFLICTING_INVOKE@,
                            path: state_path(id@, ".invoke"@),
                            message: "invoke must not declare both capability_id and host_connector"@,
                        },
                    )
                } else if !cap && !hc {
                    Some(
                        ViolationView {
                            code: CODE_EMPTY_INVOKE@,
                            path: state_path(id@, ".invoke"@),
                            message: "invoke requires capability_id or host_connector"@,
                        },
                    )
                } else {
                    let missing = missing_events(
                        required_events(hc),
                        transition_ons(s.transitions@),
                    );
                    if missing.len() == 0 {
                        None
                    } else {
                        Some(
                            ViolationView {
                                code: CODE_MISSING_ROUTES@,
                                path: state_path(id@, ".transitions"@),
                                message: "invoke wait is missing required unhappy-route transitions: "@
                                    + join(missing, ", "@),
                            },
                        )
                    }
                }
            },
        },
    }
}

/// The per-state pass over the first `k` states.
pub open spec fn first_pass(states: Seq<StateDecl>, k: int) -> Seq<ViolationView>
    decreases k,
{
    if k <= 0 {
        Seq::empty()
    } else {
        first_pass(states, k - 1) + opt_violation(first_pass_violation(states[k - 1]))
    }
}

/// The id of a state, empty when it has none.
pub open spec fn state_id(s: StateDecl) -> Seq<char> {
    match s.id {
        Some(x) => x@,
        None => Seq::empty(),
    }
}

pub open spec fn transition_targets(t: TransitionDecl, target: Seq<char>) -> bool {
    match t.to {
        Some(x) => x@ == target,
        None => false,
    }
}

/// Some transition of `s` goes to `target`.
pub open spec fn transitions_to(s: StateDecl, target: Seq<char>) -> bool {
    exists|k: int|
        0 <= k < s.transitions@.len() && transition_targets(#[trigger] s.transitions@[k], target)
}

/// A state with id `p` has a transition into `q`.
pub open spec fn predecessor(states: Seq<StateDecl>, q: Seq<char>, p: Seq<char>) -> bool {
    exists|j: int|
        0 <= j < states.len() && (#[trigger] states[j]).id is Some && state_id(states[j]) == p
            && transitions_to(states[j], q)
}

pub open spec fn state_has_host_connector(s: StateDecl) -> bool {
    match s.invoke {
        InvokeField::Object(d) => declared(d.host_connector),
        _ => false,
    }
}

/// Whether the last state with id `id` declares a host connector.
pub open spec fn declares_host_connector(states: Seq<StateDecl>, id: Seq<char>) -> bool
    decreases states.len(),
{
    if states.len() == 0 {
        false
    } else if states.last().id is Some && state_id(states.last()) == id {
        state_has_host_connector(states.last())
    } else {
        declares_host_connector(states.drop_last(), id)
    }
}

/// `path` walks transitions backward from `q`: `path[0]` is a predecessor
/// of `q`, `path[1]` one of `path[0]`, and so on.
pub open spec fn backward_walk(states: Seq<StateDecl>, q: Seq<char>, path: Seq<Seq<char>>) -> bool
    decreases path.len(),
{
    path.len() == 0 || (predecessor(states, q, path[0]) && backward_walk(
        states,
        path[0],
        path.drop_first(),
    ))
}

/// Some state with a host connector reaches `target` through one or more
/// transitions.
pub open spec fn host_connector_reachable(states: Seq<StateDecl>, target: Seq<char>) -> bool {
    exists|path: Seq<Seq<char>>|
        path.len() > 0 && #[trigger] backward_walk(states, target, path)
            && declares_host_connector(states, path.last())
}

/// `input_from` names a non-blank field of the host-connector result.
pub open spec fn reads_result_field(input: Seq<char>) -> bool {
    match strip_prefix(input, HOST_CONNECTOR_RESULT_PREFIX@) {
        Some(field) => !blank(field),
        None => false,
    }
}

/// The violation, if any, that the `input_from` pass reports for `states[i]`.
pub open spec fn second_pass_violation(states: Seq<StateDecl>, i: int) -> Option<ViolationView> {
    let s = states[i];
    match s.id {
        None => None,
        Some(id) => match s.invoke {
            InvokeField::Object(d) => {
                if !declared(d.capability_id) || declared(d.host_connector) {
                    None
                } else {
                    let input = match d.input_from {
                        Some(f) => f@,
                        None => DEFAULT_INPUT_FROM@,
                    };
                    if input == DEFAULT_INPUT_FROM@ {
                        None
                    } else if !reads_result_field(input) {
                        Some(
                            ViolationView {
                                code: CODE_INVALID_INPUT_FROM@,
                                path: state_path(id@, ".invoke.input_from"@),
                                message: "unsupported invoke.input_from '"@ + input + "'"@,
                            },
                        )
                    } else if host_connector_reachable(states, id@) {
                        None
                    } else {
                        Some(
                            ViolationView {
                                code: CODE_UNREACHABLE_HOST_CONNECTOR_RESULT@,
                                path: state_path(id@, ".invoke.input_from"@),
                                message: "input_from '"@ + input
                                    + "' references host_connector_result but no reachable predecessor state declares invoke.host_connector"@,
                            },
                        )
                    }
                }
            },
            _ => None,
        },
    }
}

/// The `input_from` pass over the first `k` states.
pub open spec fn second_pass(states: Seq<StateDecl>, k: int) -> Seq<ViolationView>
    decreases k,
{
    if k <= 0 {
        Seq::empty()
    } else {
        second_pass(states, k - 1) + opt_violation(second_pass_violation(states, k - 1))
    }
}

/// Every violation of a state machine: the per-state pass in state order,
/// then the `input_from` pass in state order.
pub open spec fn invoke_route_violations(states: Seq<StateDecl>) -> Seq<ViolationView> {
    first_pass(states, states.len() as int) + second_pass(states, states.len() as int)
}

} // verus!

verus! {

fn declared_member(o: &Option<String>) -> (b: bool)
    ensures
        b == declared(*o),
{
    match o {
        Some(v) => !str_is_blank(v.as_str()),
        None => false,
    }
}

fn make_violation(code: &str, id: &str, suffix: &str, message: String) -> (v: InvokeRouteViolation)
    ensures
        v@ == (ViolationView { code: code@, path: state_path(id@, suffix@), message: message@ }),
{
    let mut path = String::new();
    push_str(&mut path, "state_machine.states.");
    push_str(&mut path, id);
    push_str(&mut path, suffix);
    InvokeRouteViolation { code: owned(code), path, message }
}

fn required_event_list(host_connector: bool) -> (r: Vec<String>)
    ensures
        texts(r@) == required_events(host_connector),
{
    let mut r: Vec<String> = Vec::new();
    if host_connector {
        r.push(owned("host_connector_succeeded"));
        r.push(owned("host_connector_failed"));
        r.push(owned("host_connector_timeout"));
        r.push(owned("host_connector_cancelled"));
    } else {
        r.push(owned("capability_succeeded"));
        r.push(owned("capability_failed"));
    }
    assert(texts(r@) =~= required_events(host_connector));
    r
}

fn collect_ons(ts: &Vec<TransitionDecl>) -> (r: Vec<String>)
    ensures
        texts(r@) == transition_ons(ts@),
{
    let mut r: Vec<String> = Vec::new();
    let n = ts.len();
    let mut i: usize = 0;
    while i < n
        invariant
            n == ts@.len(),
            i <= n,
            texts(r@) == transition_ons(ts@.take(i as int)),
        decreases n - i,
    {
        proof {
            assert(ts@.take(i + 1).drop_last() =~= ts@.take(i as int));
            assert(ts@.take(i + 1).last() == ts@[i as int]);
        }
        match &ts[i].on {
            Some(o) => {
                let ghost before = r@;
                r.push(o.clone());
                assert(texts(r@) =~= texts(before).push(o@));
            },
            None => {},
        }
        i = i + 1;
    }
    assert(ts@.take(n as int) =~= ts@);
    r
}

fn collect_missing(required: &Vec<String>, ons: &Vec<String>) -> (r: Vec<String>)
    ensures
        texts(r@) == missing_events(texts(required@), texts(ons@)),
{
    let mut r: Vec<String> = Vec::new();
    let n = required.len();
    let mut i: usize = 0;
    while i < n
        invariant
            n == required@.len(),
            i <= n,
            texts(r@) == missing_events(texts(required@).take(i as int), texts(ons@)),
        decreases n - i,
    {
        proof {
            let t = texts(required@).take(i + 1);
            assert(t.drop_last() =~= texts(required@).take(i as int));
            assert(t.last() == required@[i as int]@);
        }
        if !contains_text(ons, required[i].as_str()) {
            let ghost before = r@;
            r.push(required[i].clone());
            assert(texts(r@) =~= texts(before).push(required@[i as int]@));
        }
        i = i + 1;
    }
    assert(texts(required@).take(n as int) =~= texts(required@));
    r
}

/// The violation, if any, that the per-state pass reports for one state.
pub fn check_invoke_wait(s: &StateDecl) -> (r: Option<InvokeRouteViolation>)
    ensures
        match r {
            Some(v) => first_pass_violation(*s) == Some(v@),
            None => first_pass_violation(*s) is None,
        },
{
    let id = match &s.id {
        Some(id) => id,
        None => {
            return None;
        },
    };
    match &s.invoke {
        InvokeField::Absent => None,
        InvokeField::NotObject => Some(
            make_violation(
                CODE_EMPTY_INVOKE,
                id.as_str(),
                ".invoke",
                owned("invoke must be an object"),
            ),
        ),
        InvokeField::Object(d) => {
            let cap = declared_member(&d.capability_id);
            let hc = declared_member(&d.host_connector);
            if cap && hc {
                Some(
                    make_violation(
                        CODE_CONFLICTING_INVOKE,
                        id.as_str(),
                        ".invoke",
                        owned("invoke must not declare both capability_id and host_connector"),
                    ),
                )
            } else if !cap && !hc {
                Some(
                    make_violation(
                        CODE_EMPTY_INVOKE,
                        id.as_str(),
                        ".invoke",
                        owned("invoke requires capability_id or host_connector"),
                    ),
                )
            } else {
                let ons = collect_ons(&s.transitions);
                let required = required_event_list(hc);
                let missing = collect_missing(&required, &ons);
                if missing.len() == 0 {
                    None
                } else {
                    let mut message = owned(
                        "invoke wait is missing required unhappy-route transitions: ",
                    );
                    let joined = join_texts(&missing, ", ");
                    push_str(&mut message, joined.as_str());
                    Some(make_violation(CODE_MISSING_ROUTES, id.as_str(), ".transitions", message))
                }
            }
        },
    }
}

} // verus!

verus! {

fn transition_targets_text(t: &TransitionDecl, target: &str) -> (b: bool)
    ensures
        b == transition_targets(*t, target@),
{
    match &t.to {
        Some(x) => str_equals(x.as_str(), target),
        None => false,
    }
}

fn state_transitions_to(s: &StateDecl, target: &str) -> (b: bool)
    ensures
        b == transitions_to(*s, target@),
{
    let n = s.transitions.len();
    let mut k: usize = 0;
    while k < n
        invariant
            n == s.transitions@.len(),
            k <= n,
            forall|j: int| 0 <= j < k ==> !transition_targets(#[trigger] s.transitions@[j], target@),
        decreases n - k,
    {
        if transition_targets_text(&s.transitions[k], target) {
            return true;
        }
        k = k + 1;
    }
    false
}

/// Indices of the states with an id and a transition into `target`.
fn predecessors_of(states: &Vec<StateDecl>, target: &str) -> (r: Vec<usize>)
    ensures
        forall|k: int|
            0 <= k < r@.len() ==> (#[trigger] r@[k]) < states@.len() && states@[r@[k] as int].id is Some
                && transitions_to(states@[r@[k] as int], target@),
        forall|j: int|
            0 <= j < states@.len() && (#[trigger] states@[j]).id is Some && transitions_to(
                states@[j],
                target@,
            ) ==> r@.contains(j as usize),
{
    let mut r: Vec<usize> = Vec::new();
    let n = states.len();
    let mut j: usize = 0;
    while j < n
        invariant
            n == states@.len(),
            j <= n,
            forall|k: int|
                0 <= k < r@.len() ==> (#[trigger] r@[k]) < j && states@[r@[k] as int].id is Some
                    && transitions_to(states@[r@[k] as int], target@),
            forall|i: int|
                0 <= i < j && (#[trigger] states@[i]).id is Some && transitions_to(
                    states@[i],
                    target@,
                ) ==> r@.contains(i as usize),
        decreases n - j,
    {
        if states[j].id.is_some() && state_transitions_to(&states[j], target) {
            let ghost before = r@;
            r.push(j);
            assert(r@[r@.len() - 1] == j);
            assert forall|i: int|
                0 <= i < j && (#[trigger] states@[i]).id is Some && transitions_to(
                    states@[i],
                    target@,
                ) implies r@.contains(i as usize) by {
                let w = choose|w: int| 0 <= w < before.len() && before[w] == i as usize;
                assert(r@[w] == i as usize);
            }
        }
        j = j + 1;
    }
    r
}

/// Whether the last state with id `id` declares a host connector.
fn declares_host_connector_at(states: &Vec<StateDecl>, id: &str) -> (b: bool)
    ensures
        b == declares_host_connector(states@, id@),
{
    let mut i: usize = states.len();
    assert(states@.take(i as int) =~= states@);
    while i > 0
        invariant
            i <= states@.len(),
            declares_host_connector(states@, id@) == declares_host_connector(
                states@.take(i as int),
                id@,
            ),
        decreases i,
    {
        proof {
            assert(states@.take(i as int).drop_last() =~= states@.take(i - 1));
            assert(states@.take(i as int).last() == states@[i - 1]);
        }
        let s = &states[i - 1];
        let matches = match &s.id {
            Some(x) => str_equals(x.as_str(), id),
            None => false,
        };
        if matches {
            return match &s.invoke {
                InvokeField::Object(d) => declared_member(&d.host_connector),
                _ => false,
            };
        }
        i = i - 1;
    }
    false
}

} // verus!

verus! {

/// Number of states not yet visited.
pub open spec fn unvisited(s: Seq<bool>) -> nat
    decreases s.len(),
{
    if s.len() == 0 {
        0
    } else {
        unvisited(s.drop_last()) + if s.last() {
            0nat
        } else {
            1nat
        }
    }
}

proof fn lemma_unvisited_mark(s: Seq<bool>, i: int)
    requires
        0 <= i < s.len(),
        !s[i],
    ensures
        unvisited(s.update(i, true)) + 1 == unvisited(s),
    decreases s.len(),
{
    let t = s.update(i, true);
    if i == s.len() - 1 {
        assert(t.drop_last() =~= s.drop_last());
    } else {
        assert(t.drop_last() =~= s.drop_last().update(i, true));
        lemma_unvisited_mark(s.drop_last(), i);
    }
}

/// Extending a backward walk by one more predecessor.
proof fn lemma_walk_push(states: Seq<StateDecl>, q: Seq<char>, path: Seq<Seq<char>>, x: Seq<char>)
    requires
        path.len() > 0,
        backward_walk(states, q, path),
        predecessor(states, path.last(), x),
    ensures
        backward_walk(states, q, path.push(x)),
    decreases path.len(),
{
    let p = path.push(x);
    if path.len() == 1 {
        assert(p.drop_first() =~= seq![x]);
        assert(seq![x].drop_first() =~= Seq::<Seq<char>>::empty());
        assert(backward_walk(states, x, seq![x].drop_first()));
        assert(backward_walk(states, path[0], seq![x]));
    } else {
        assert(p.drop_first() =~= path.drop_first().push(x));
        lemma_walk_push(states, path[0], path.drop_first(), x);
    }
}

/// The states whose ids a backward walk passes stay inside any set of
/// visited states that holds every predecessor of `q` and of each of its
/// members.
proof fn lemma_walk_stays_visited(
    states: Seq<StateDecl>,
    visited: Seq<bool>,
    q: Seq<char>,
    path: Seq<Seq<char>>,
)
    requires
        visited.len() == states.len(),
        backward_walk(states, q, path),
        forall|j: int|
            0 <= j < states.len() && (#[trigger] states[j]).id is Some && transitions_to(states[j], q)
                ==> visited[j],
        forall|v: int, j: int|
            #![trigger visited[v], transitions_to(states[j], state_id(states[v]))]
            0 <= v < states.len() && visited[v] && 0 <= j < states.len() && states[j].id is Some
                && transitions_to(states[j], state_id(states[v])) ==> visited[j],
        forall|v: int|
            0 <= v < states.len() && #[trigger] visited[v] ==> states[v].id is Some
                && !declares_host_connector(states, state_id(states[v])),
    ensures
        path.len() > 0 ==> !declares_host_connector(states, path.last()),
    decreases path.len(),
{
    if path.len() > 0 {
        let j = choose|j: int|
            0 <= j < states.len() && (#[trigger] states[j]).id is Some && state_id(states[j])
                == path[0] && transitions_to(states[j], q);
        assert(visited[j]);
        assert forall|i: int|
            0 <= i < states.len() && (#[trigger] states[i]).id is Some && transitions_to(
                states[i],
                path[0],
            ) implies visited[i] by {
            assert(visited[j] && transitions_to(states[i], state_id(states[j])));
        }
        lemma_walk_stays_visited(states, visited, path[0], path.drop_first());
        if path.len() > 1 {
            assert(path.drop_first().last() == path.last());
        }
    }
}

/// Some host-connector state reaches `target`; the search walks transitions
/// backward from `target`, visiting each state at most once.
pub fn host_connector_reaches(states: &Vec<StateDecl>, target: &str) -> (b: bool)
    ensures
        b == host_connector_reachable(states@, target@),
{
    let n = states.len();
    let mut visited: Vec<bool> = Vec::new();
    while visited.len() < n
        invariant
            visited@.len() <= n,
            forall|v: int| 0 <= v < visited@.len() ==> !(#[trigger] visited@[v]),
        decreases n - visited@.len(),
    {
        visited.push(false);
    }
    let mut stack = predecessors_of(states, target);
    proof {
        assert forall|k: int| 0 <= k < stack@.len() implies reaches_id(
            states@,
            target@,
            state_id(states@[#[trigger] stack@[k] as int]),
        ) by {
            let x = state_id(states@[stack@[k] as int]);
            let w = seq![x];
            assert(w.drop_first() =~= Seq::<Seq<char>>::empty());
            assert(states@[stack@[k] as int].id is Some);
            assert(predecessor(states@, target@, x));
            assert(backward_walk(states@, x, w.drop_first()));
            assert(w[0] == x && w.last() == x);
            assert(backward_walk(states@, target@, w));
        }
    }
    loop
        invariant
            n == states@.len(),
            visited@.len() == n,
            forall|k: int|
                0 <= k < stack@.len() ==> (#[trigger] stack@[k]) < n && states@[stack@[k] as int].id is Some
                    && reaches_id(states@, target@, state_id(states@[stack@[k] as int])),
            forall|v: int|
                0 <= v < n && #[trigger] visited@[v] ==> states@[v].id is Some
                    && !declares_host_connector(states@, state_id(states@[v])),
            forall|j: int|
                0 <= j < n && (#[trigger] states@[j]).id is Some && transitions_to(states@[j], target@)
                    ==> visited@[j] || stack@.contains(j as usize),
            forall|v: int, j: int|
                #![trigger visited@[v], transitions_to(states@[j], state_id(states@[v]))]
                0 <= v < n && visited@[v] && 0 <= j < n && states@[j].id is Some && transitions_to(
                    states@[j],
                    state_id(states@[v]),
                ) ==> visited@[j] || stack@.contains(j as usize),
        decreases unvisited(visited@), stack@.len(),
    {
        let ghost before = stack@;
        let top = stack.pop();
        let p = match top {
            Some(p) => p,
            None => {
                proof {
                    if host_connector_reachable(states@, target@) {
                        let path = choose|path: Seq<Seq<char>>|
                            path.len() > 0 && #[trigger] backward_walk(states@, target@, path)
                                && declares_host_connector(states@, path.last());
                        lemma_walk_stays_visited(states@, visited@, target@, path);
                    }
                }
                return false;
            },
        };
        proof {
            assert(before =~= stack@.push(p));
            assert forall|j: usize| before.contains(j) implies j == p || stack@.contains(j) by {
                let w = choose|w: int| 0 <= w < before.len() && before[w] == j;
                if w < stack@.len() {
                    assert(stack@[w] == j);
                }
            }
        }
        if visited[p] {
            continue;
        }
        let ghost old_visited = visited@;
        visited.set(p, true);
        proof {
            lemma_unvisited_mark(old_visited, p as int);
            assert(visited@ == old_visited.update(p as int, true));
        }
        let pid: &String = match &states[p].id {
            Some(x) => x,
            None => {
                return false;
            },
        };
        assert(pid@ == state_id(states@[p as int]));
        if declares_host_connector_at(states, pid.as_str()) {
            proof {
                let path = choose|path: Seq<Seq<char>>|
                    path.len() > 0 && #[trigger] backward_walk(states@, target@, path) && path.last()
                        == pid@;
                assert(backward_walk(states@, target@, path));
            }
            return true;
        }
        let preds = predecessors_of(states, pid.as_str());
        let ghost mid = stack@;
        append_indices(&mut stack, &preds);
        proof {
            assert forall|k: int| 0 <= k < stack@.len() implies (#[trigger] stack@[k]) < n
                && states@[stack@[k] as int].id is Some && reaches_id(
                states@,
                target@,
                state_id(states@[stack@[k] as int]),
            ) by {
                if k >= mid.len() {
                    let j = preds@[k - mid.len()];
                    assert(stack@[k] == j);
                    let x = state_id(states@[j as int]);
                    let path = choose|path: Seq<Seq<char>>|
                        path.len() > 0 && #[trigger] backward_walk(states@, target@, path)
                            && path.last() == pid@;
                    assert(predecessor(states@, pid@, x)) by {
                        assert(states@[j as int].id is Some);
                    }
                    lemma_walk_push(states@, target@, path, x);
                    assert(path.push(x).last() == x);
                } else {
                    assert(stack@[k] == mid[k]);
                }
            }
            assert forall|j: usize| mid.contains(j) implies stack@.contains(j) by {
                let w = choose|w: int| 0 <= w < mid.len() && mid[w] == j;
                assert(stack@[w] == j);
            }
            assert forall|j: usize| preds@.contains(j) implies stack@.contains(j) by {
                let w = choose|w: int| 0 <= w < preds@.len() && preds@[w] == j;
                assert(stack@[mid.len() + w] == j);
            }
            assert forall|j: int|
                0 <= j < n && (#[trigger] states@[j]).id is Some && transitions_to(
                    states@[j],
                    target@,
                ) implies visited@[j] || stack@.contains(j as usize) by {
                if !old_visited[j] && j != p {
                    assert(before.contains(j as usize));
                }
            }
            assert forall|v: int, j: int|
                #![trigger visited@[v], transitions_to(states@[j], state_id(states@[v]))]
                0 <= v < n && visited@[v] && 0 <= j < n && states@[j].id is Some && transitions_to(
                    states@[j],
                    state_id(states@[v]),
                ) implies visited@[j] || stack@.contains(j as usize) by {
                if v == p {
                    assert(preds@.contains(j as usize));
                } else {
                    assert(old_visited[v]);
                    if !old_visited[j] && j != p {
                        assert(before.contains(j as usize));
                    }
                }
            }
        }
    }
}

fn append_indices(stack: &mut Vec<usize>, extra: &Vec<usize>)
    ensures
        final(stack)@ == old(stack)@ + extra@,
{
    let n = extra.len();
    let mut i: usize = 0;
    while i < n
        invariant
            n == extra@.len(),
            i <= n,
            stack@ == old(stack)@ + extra@.take(i as int),
        decreases n - i,
    {
        stack.push(extra[i]);
        assert(stack@ =~= old(stack)@ + extra@.take(i + 1));
        i = i + 1;
    }
    assert(extra@.take(n as int) =~= extra@);
}

/// Some backward walk from `target` ends at id `x`.
pub open spec fn reaches_id(states: Seq<StateDecl>, target: Seq<char>, x: Seq<char>) -> bool {
    exists|path: Seq<Seq<char>>|
        path.len() > 0 && #[trigger] backward_walk(states, target, path) && path.last() == x
}

} // verus!

verus! {

fn result_field_ref(input: &str) -> (b: bool)
    ensures
        b == reads_result_field(input@),
{
    let v = chars_of(input);
    let p = chars_of(HOST_CONNECTOR_RESULT_PREFIX);
    match strip_prefix_vec(v.as_slice(), p.as_slice()) {
        Some(field) => !is_blank(field.as_slice()),
        None => false,
    }
}

/// The violation, if any, that the `input_from` pass reports for
/// `states[i]`.
pub fn check_input_from(states: &Vec<StateDecl>, i: usize) -> (r: Option<InvokeRouteViolation>)
    requires
        i < states@.len(),
    ensures
        match r {
            Some(v) => second_pass_violation(states@, i as int) == Some(v@),
            None => second_pass_violation(states@, i as int) is None,
        },
{
    let s = &states[i];
    let id = match &s.id {
        Some(id) => id,
        None => {
            return None;
        },
    };
    let d = match &s.invoke {
        InvokeField::Object(d) => d,
        _ => {
            return None;
        },
    };
    if !declared_member(&d.capability_id) || declared_member(&d.host_connector) {
        return None;
    }
    let input: String = match &d.input_from {
        Some(f) => f.clone(),
        None => owned(DEFAULT_INPUT_FROM),
    };
    if str_equals(input.as_str(), DEFAULT_INPUT_FROM) {
        return None;
    }
    if !result_field_ref(input.as_str()) {
        let mut message = owned("unsupported invoke.input_from '");
        push_str(&mut message, input.as_str());
        push_str(&mut message, "'");
        return Some(
            make_violation(CODE_INVALID_INPUT_FROM, id.as_str(), ".invoke.input_from", message),
        );
    }
    if host_connector_reaches(states, id.as_str()) {
        None
    } else {
        let mut message = owned("input_from '");
        push_str(&mut message, input.as_str());
        push_str(
            &mut message,
            "' references host_connector_result but no reachable predecessor state declares invoke.host_connector",
        );
        Some(
            make_violation(
                CODE_UNREACHABLE_HOST_CONNECTOR_RESULT,
                id.as_str(),
                ".invoke.input_from",
                message,
            ),
        )
    }
}

/// Appends the `input_from` pass: a capability step whose `input_from`
/// reads `host_connector_result.<field>` needs a state declaring a host
/// connector among its transitive predecessors. States the per-state pass
/// already flagged as conflicting or empty are skipped.
pub fn append_host_connector_result_violations(
    states: &Vec<StateDecl>,
    violations: &mut Vec<InvokeRouteViolation>,
)
    ensures
        violation_views(final(violations)@) == violation_views(old(violations)@) + second_pass(
            states@,
            states@.len() as int,
        ),
{
    let n = states.len();
    let mut i: usize = 0;
    assert(violation_views(violations@) =~= violation_views(old(violations)@) + second_pass(
        states@,
        0,
    ));
    while i < n
        invariant
            n == states@.len(),
            i <= n,
            violation_views(violations@) == violation_views(old(violations)@) + second_pass(
                states@,
                i as int,
            ),
        decreases n - i,
    {
        let ghost before = violations@;
        match check_input_from(states, i) {
            Some(v) => {
                violations.push(v);
                assert(violation_views(violations@) =~= violation_views(before) + seq![v@]);
            },
            None => {},
        }
        assert(violation_views(violations@) =~= violation_views(old(violations)@) + second_pass(
            states@,
            i + 1,
        ));
        i = i + 1;
    }
}

/// Every violation of the `invoke` waits of a state machine: the per-state
/// pass in state order, then the `input_from` pass in state order.
pub fn validate_state_machine_invoke_routes(states: &Vec<StateDecl>) -> (r: Vec<
    InvokeRouteViolation,
>)
    ensures
        violation_views(r@) == invoke_route_violations(states@),
{
    let mut r: Vec<InvokeRouteViolation> = Vec::new();
    let n = states.len();
    let mut i: usize = 0;
    assert(violation_views(r@) =~= first_pass(states@, 0));
    while i < n
        invariant
            n == states@.len(),
            i <= n,
            violation_views(r@) == first_pass(states@, i as int),
        decreases n - i,
    {
        let ghost before = r@;
        match check_invoke_wait(&states[i]) {
            Some(v) => {
                r.push(v);
                assert(violation_views(r@) =~= violation_views(before) + seq![v@]);
            },
            None => {},
        }
        assert(violation_views(r@) =~= first_pass(states@, i + 1));
        i = i + 1;
    }
    append_host_connector_result_violations(states, &mut r);
    r
}

} // verus!

verus! {

/// A state that the per-state pass rejects as conflicting or empty gets no
/// second, overlapping violation from the `input_from` pass.
pub proof fn lemma_broken_invoke_reported_once(states: Seq<StateDecl>, i: int)
    requires
        0 <= i < states.len(),
        first_pass_violation(states[i]) matches Some(v) && (v.code == CODE_CONFLICTING_INVOKE@
            || v.code == CODE_EMPTY_INVOKE@),
    ensures
        second_pass_violation(states, i) is None,
{
    reveal_strlit("app_state_machine_conflicting_invoke");
    reveal_strlit("app_state_machine_empty_invoke");
    reveal_strlit("app_state_machine_missing_unhappy_routes");
    let s = states[i];
    match s.invoke {
        InvokeField::Object(d) => {
            if declared(d.capability_id) && !declared(d.host_connector) {
                assert(CODE_MISSING_ROUTES@[19] != CODE_CONFLICTING_INVOKE@[19]);
                assert(CODE_MISSING_ROUTES@[19] != CODE_EMPTY_INVOKE@[19]);
            }
        },
        _ => {},
    }
}

/// A state whose only host-connector predecessor is a direct one: a single
/// transition from a host-connector state makes the result reachable.
pub proof fn lemma_direct_host_connector_predecessor(
    states: Seq<StateDecl>,
    target: Seq<char>,
    j: int,
)
    requires
        0 <= j < states.len(),
        states[j].id is Some,
        transitions_to(states[j], target),
        declares_host_connector(states, state_id(states[j])),
    ensures
        host_connector_reachable(states, target),
{
    let x = state_id(states[j]);
    let w = seq![x];
    assert(w.drop_first() =~= Seq::<Seq<char>>::empty());
    assert(predecessor(states, target, x));
    assert(backward_walk(states, x, w.drop_first()));
    assert(backward_walk(states, target, w));
    assert(w.last() == x);
}

} // verus!
