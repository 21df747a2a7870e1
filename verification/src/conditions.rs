//! Transition conditions of application state machines, evaluated against
//! a capability's JSON output: the value at an `output.` path, its kind,
//! equality of JSON values, and membership in a JSON array.  Ordering
//! comparisons compare numbers as floating point, which this library does
//! not do: it hands the two numbers back for the host to compare.

use vstd::prelude::*;
use crate::app_events::ConditionVerdict;
use crate::text::{chars_of, split_chars, split_on, str_equals, strip_prefix, strip_prefix_vec};

verus! {

/// A JSON number as `serde_json` holds it: a non-negative integer, a
/// negative integer, or a finite float, held by its IEEE-754 bits.
#[derive(Clone, Copy, Debug, PartialEq, Eq, Structural)]
pub enum JsonNumber {
    PosInt(u64),
    NegInt(i64),
    Float(u64),
}

/// A JSON value; an object's members are in key order, each key once.
#[derive(Debug)]
pub enum JsonValue {
    Null,
    Bool(bool),
    Number(JsonNumber),
    Text(String),
    Array(Vec<JsonValue>),
    Object(Vec<(String, JsonValue)>),
}

/// All bits of an `f64` but its sign.
pub const FLOAT_MAGNITUDE_BITS: u64 = 0x7fff_ffff_ffff_ffff;

/// Two JSON numbers are equal when they are the same kind of number with the
/// same value; finite floats compare as IEEE-754 does, so `0.0` equals `-0.0`.
pub open spec fn number_eq(a: JsonNumber, b: JsonNumber) -> bool {
    match (a, b) {
        (JsonNumber::PosInt(x), JsonNumber::PosInt(y)) => x == y,
        (JsonNumber::NegInt(x), JsonNumber::NegInt(y)) => x == y,
        (JsonNumber::Float(x), JsonNumber::Float(y)) => x == y || ((x & FLOAT_MAGNITUDE_BITS) == 0
            && (y & FLOAT_MAGNITUDE_BITS) == 0),
        _ => false,
    }
}

/// Equality of JSON values: same kind, and equal numbers, texts, elements in
/// order, or members (keys and values) in order.
pub open spec fn json_eq(a: JsonValue, b: JsonValue) -> bool
    decreases a,
{
    match (a, b) {
        (JsonValue::Null, JsonValue::Null) => true,
        (JsonValue::Bool(x), JsonValue::Bool(y)) => x == y,
        (JsonValue::Number(x), JsonValue::Number(y)) => number_eq(x, y),
        (JsonValue::Text(x), JsonValue::Text(y)) => x@ == y@,
        (JsonValue::Array(xs), JsonValue::Array(ys)) => items_eq(xs@, ys@),
        (JsonValue::Object(xs), JsonValue::Object(ys)) => members_eq(xs@, ys@),
        _ => false,
    }
}

pub open spec fn items_eq(xs: Seq<JsonValue>, ys: Seq<JsonValue>) -> bool
    decreases xs,
{
    if xs.len() != ys.len() {
        false
    } else if xs.len() == 0 {
        true
    } else {
        items_eq(xs.drop_last(), ys.drop_last()) && json_eq(xs.last(), ys.last())
    }
}

pub open spec fn members_eq(xs: Seq<(String, JsonValue)>, ys: Seq<(String, JsonValue)>) -> bool
    decreases xs,
{
    if xs.len() != ys.len() {
        false
    } else if xs.len() == 0 {
        true
    } else {
        members_eq(xs.drop_last(), ys.drop_last()) && xs.last().0@ == ys.last().0@ && json_eq(
            xs.last().1,
            ys.last().1,
        )
    }
}

fn numbers_equal(a: JsonNumber, b: JsonNumber) -> (r: bool)
    ensures
        r == number_eq(a, b),
{
    match (a, b) {
        (JsonNumber::PosInt(x), JsonNumber::PosInt(y)) => x == y,
        (JsonNumber::NegInt(x), JsonNumber::NegInt(y)) => x == y,
        (JsonNumber::Float(x), JsonNumber::Float(y)) => x == y || ((x & FLOAT_MAGNITUDE_BITS) == 0 && (y
            & FLOAT_MAGNITUDE_BITS) == 0),
        _ => false,
    }
}

/// `==` on JSON values.
pub fn json_equal(a: &JsonValue, b: &JsonValue) -> (r: bool)
    ensures
        r == json_eq(*a, *b),
    decreases *a,
{
    match (a, b) {
        (JsonValue::Null, JsonValue::Null) => true,
        (JsonValue::Bool(x), JsonValue::Bool(y)) => *x == *y,
        (JsonValue::Number(x), JsonValue::Number(y)) => numbers_equal(*x, *y),
        (JsonValue::Text(x), JsonValue::Text(y)) => str_equals(x.as_str(), y.as_str()),
        (JsonValue::Array(xs), JsonValue::Array(ys)) => {
            if xs.len() != ys.len() {
                return false;
            }
            let n = xs.len();
            let mut i: usize = 0;
            proof {
                assert(json_eq(*a, *b) == items_eq(xs@, ys@));
                assert forall|k: int| 0 <= k < n implies decreases_to!(*a => #[trigger] xs@[k]) by {
                    assert(decreases_to!(*a => *xs));
                    assert(decreases_to!(*xs => xs@));
                    assert(decreases_to!(xs@ => xs@[k]));
                }
            }
            while i < n
                invariant
                    n == xs@.len(),
                    n == ys@.len(),
                    i <= n,
                    items_eq(xs@.take(i as int), ys@.take(i as int)),
                    json_eq(*a, *b) == items_eq(xs@, ys@),
                    forall|k: int| 0 <= k < n ==> decreases_to!(*a => #[trigger] xs@[k]),
                decreases n - i,
            {
                proof {
                    assert(decreases_to!(*a => xs@[i as int]));
                }
                if !json_equal(&xs[i], &ys[i]) {
                    proof {
                        lemma_items_eq_prefix(xs@, ys@, i as int);
                    }
                    return false;
                }
                proof {
                    assert(xs@.take(i + 1).drop_last() =~= xs@.take(i as int));
                    assert(ys@.take(i + 1).drop_last() =~= ys@.take(i as int));
                }
                i = i + 1;
            }
            assert(xs@.take(n as int) =~= xs@);
            assert(ys@.take(n as int) =~= ys@);
            true
        },
        (JsonValue::Object(xs), JsonValue::Object(ys)) => {
            if xs.len() != ys.len() {
                return false;
            }
            let n = xs.len();
            let mut i: usize = 0;
            proof {
                assert(json_eq(*a, *b) == members_eq(xs@, ys@));
                assert forall|k: int| 0 <= k < n implies decreases_to!(*a => #[trigger] xs@[k].1) by {
                    assert(decreases_to!(*a => *xs));
                    assert(decreases_to!(*xs => xs@));
                    assert(decreases_to!(xs@ => xs@[k]));
                    assert(decreases_to!(xs@[k] => xs@[k].1));
                }
            }
            while i < n
                invariant
                    n == xs@.len(),
                    n == ys@.len(),
                    i <= n,
                    members_eq(xs@.take(i as int), ys@.take(i as int)),
                    json_eq(*a, *b) == members_eq(xs@, ys@),
                    forall|k: int| 0 <= k < n ==> decreases_to!(*a => #[trigger] xs@[k].1),
                decreases n - i,
            {
                proof {
                    assert(decreases_to!(*a => xs@[i as int].1));
                }
                if !str_equals(xs[i].0.as_str(), ys[i].0.as_str()) || !json_equal(&xs[i].1, &ys[i].1) {
                    proof {
                        lemma_members_eq_prefix(xs@, ys@, i as int);
                    }
                    return false;
                }
                proof {
                    assert(xs@.take(i + 1).drop_last() =~= xs@.take(i as int));
                    assert(ys@.take(i + 1).drop_last() =~= ys@.take(i as int));
                }
                i = i + 1;
            }
            assert(xs@.take(n as int) =~= xs@);
            assert(ys@.take(n as int) =~= ys@);
            true
        },
        _ => false,
    }
}

/// Equal sequences of items are equal item by item.
proof fn lemma_items_eq_prefix(xs: Seq<JsonValue>, ys: Seq<JsonValue>, i: int)
    requires
        0 <= i < xs.len(),
        xs.len() == ys.len(),
        !json_eq(xs[i], ys[i]),
    ensures
        !items_eq(xs, ys),
    decreases xs.len(),
{
    if i < xs.len() - 1 {
        assert(xs.drop_last()[i] == xs[i]);
        assert(ys.drop_last()[i] == ys[i]);
        lemma_items_eq_prefix(xs.drop_last(), ys.drop_last(), i);
    }
}

proof fn lemma_members_eq_prefix(xs: Seq<(String, JsonValue)>, ys: Seq<(String, JsonValue)>, i: int)
    requires
        0 <= i < xs.len(),
        xs.len() == ys.len(),
        !(xs[i].0@ == ys[i].0@ && json_eq(xs[i].1, ys[i].1)),
    ensures
        !members_eq(xs, ys),
    decreases xs.len(),
{
    if i < xs.len() - 1 {
        assert(xs.drop_last()[i] == xs[i]);
        assert(ys.drop_last()[i] == ys[i]);
        lemma_members_eq_prefix(xs.drop_last(), ys.drop_last(), i);
    }
}


/// The member named `key` of an object's members, from position `k` on.
pub open spec fn member_from(entries: Seq<(String, JsonValue)>, key: Seq<char>, k: int) -> Option<JsonValue>
    decreases entries.len() - k,
{
    if k < 0 || k >= entries.len() {
        None
    } else if entries[k].0@ == key {
        Some(entries[k].1)
    } else {
        member_from(entries, key, k + 1)
    }
}

/// `Value::get` with a key: an object's member, nothing for any other kind.
pub open spec fn json_get(v: JsonValue, key: Seq<char>) -> Option<JsonValue> {
    match v {
        JsonValue::Object(entries) => member_from(entries@, key, 0),
        _ => None,
    }
}

/// The value reached from `v` by the keys `path`, one after the other.
pub open spec fn json_path(v: JsonValue, path: Seq<Seq<char>>) -> Option<JsonValue>
    decreases path.len(),
{
    if path.len() == 0 {
        Some(v)
    } else {
        match json_get(v, path[0]) {
            Some(w) => json_path(w, path.drop_first()),
            None => None,
        }
    }
}

/// The value a condition's field names: `output.a.b` is the member `b` of
/// the member `a` of the output; a field outside `output.` names nothing.
pub open spec fn field_value(field: Seq<char>, output: JsonValue) -> Option<JsonValue> {
    match strip_prefix(field, "output."@) {
        Some(p) => json_path(output, split_on(p, '.')),
        None => None,
    }
}

fn member<'a>(entries: &'a Vec<(String, JsonValue)>, key: &[char]) -> (r: Option<&'a JsonValue>)
    ensures
        match r {
            Some(v) => member_from(entries@, key@, 0) == Some(*v),
            None => member_from(entries@, key@, 0) is None,
        },
{
    let n = entries.len();
    let mut k: usize = 0;
    while k < n
        invariant
            n == entries@.len(),
            k <= n,
            member_from(entries@, key@, 0) == member_from(entries@, key@, k as int),
        decreases n - k,
    {
        let name = chars_of(entries[k].0.as_str());
        if crate::text::chars_equal(name.as_slice(), key) {
            return Some(&entries[k].1);
        }
        k = k + 1;
    }
    None
}

/// The value at a condition's field in the output.
pub fn lookup_field<'a>(field: &str, output: &'a JsonValue) -> (r: Option<&'a JsonValue>)
    ensures
        match r {
            Some(v) => field_value(field@, *output) == Some(*v),
            None => field_value(field@, *output) is None,
        },
{
    let fv = chars_of(field);
    let prefix = chars_of("output.");
    let path = match strip_prefix_vec(fv.as_slice(), prefix.as_slice()) {
        Some(p) => p,
        None => return None,
    };
    let segments = split_chars(path.as_slice(), '.');
    let ghost segs = split_on(path@, '.');
    let mut current: &JsonValue = output;
    let n = segments.len();
    let mut i: usize = 0;
    assert(segs.skip(0) =~= segs);
    assert(field_value(field@, *output) == json_path(*output, segs));
    while i < n
        invariant
            field_value(field@, *output) == json_path(*output, segs),
            n == segments@.len(),
            n == segs.len(),
            forall|k: int| 0 <= k < n ==> #[trigger] segments@[k]@ == segs[k],
            i <= n,
            json_path(*output, segs) == json_path(*current, segs.skip(i as int)),
        decreases n - i,
    {
        assert(segs.skip(i as int)[0] == segs[i as int]);
        assert(segs.skip(i as int).drop_first() =~= segs.skip(i + 1));
        let next = match current {
            JsonValue::Object(entries) => member(entries, segments[i].as_slice()),
            _ => None,
        };
        proof {
            assert(segments@[i as int]@ == segs[i as int]);
            assert(json_path(*current, segs.skip(i as int)) == match json_get(*current, segs[i as int]) {
                Some(w) => json_path(w, segs.skip(i + 1)),
                None => None,
            });
            assert(next matches Some(w) ==> json_get(*current, segs[i as int]) == Some(*w));
            assert(next is None ==> json_get(*current, segs[i as int]) is None);
        }
        match next {
            Some(w) => {
                current = w;
            },
            None => {
                return None;
            },
        }
        i = i + 1;
    }
    assert(segs.skip(n as int) =~= Seq::<Seq<char>>::empty());
    Some(current)
}

/// The kind of a JSON value, as `json_value_kind` names it.
pub open spec fn json_kind(v: JsonValue) -> int {
    match v {
        JsonValue::Null => 0,
        JsonValue::Bool(_) => 1,
        JsonValue::Number(_) => 2,
        JsonValue::Text(_) => 3,
        JsonValue::Array(_) => 4,
        JsonValue::Object(_) => 5,
    }
}

fn kind_of(v: &JsonValue) -> (k: u8)
    ensures
        k == json_kind(*v),
{
    match v {
        JsonValue::Null => 0,
        JsonValue::Bool(_) => 1,
        JsonValue::Number(_) => 2,
        JsonValue::Text(_) => 3,
        JsonValue::Array(_) => 4,
        JsonValue::Object(_) => 5,
    }
}

/// The operator of a transition condition.
#[derive(Clone, Copy, Debug, PartialEq, Eq, Structural)]
pub enum ConditionOp {
    Exists,
    In,
    Eq,
    Neq,
    Gt,
    Gte,
    Lt,
    Lte,
}

/// A transition's condition: a field of the capability output, an operator
/// and the value compared with.
#[derive(Debug)]
pub struct TransitionCondition {
    pub field: String,
    pub op: ConditionOp,
    pub value: Option<JsonValue>,
}

/// What evaluating a condition comes to: a verdict, or, for an ordering
/// operator on two numbers, the numbers to compare (actual, then expected).
#[derive(Clone, Copy, Debug, PartialEq, Eq)]
pub enum ConditionCheck {
    Decided(ConditionVerdict),
    Compare(JsonNumber, JsonNumber),
}

pub open spec fn verdict_of(b: bool) -> ConditionVerdict {
    if b {
        ConditionVerdict::Met
    } else {
        ConditionVerdict::NotMet
    }
}

/// A condition against a capability output: `exists` holds for a present,
/// non-null value; `in` for a value equal to an element of the expected
/// array (a type error when the expected value is no array); `eq` and `neq`
/// compare values of one kind (a type error for two kinds or no expected
/// value); a missing value meets none of these.  The ordering operators need
/// two numbers (a type error otherwise).
pub open spec fn condition_check(c: TransitionCondition, output: JsonValue) -> ConditionCheck {
    let value = field_value(c.field@, output);
    match c.op {
        ConditionOp::Exists => ConditionCheck::Decided(verdict_of(value matches Some(v) && !(v is Null))),
        ConditionOp::In => match value {
            None => ConditionCheck::Decided(ConditionVerdict::NotMet),
            Some(actual) => match c.value {
                Some(JsonValue::Array(xs)) => ConditionCheck::Decided(
                    verdict_of(exists|i: int| 0 <= i < xs@.len() && json_eq(#[trigger] xs@[i], actual)),
                ),
                _ => ConditionCheck::Decided(ConditionVerdict::TypeError),
            },
        },
        ConditionOp::Eq | ConditionOp::Neq => match value {
            None => ConditionCheck::Decided(ConditionVerdict::NotMet),
            Some(actual) => match c.value {
                None => ConditionCheck::Decided(ConditionVerdict::TypeError),
                Some(expected) => if json_kind(actual) != json_kind(expected) {
                    ConditionCheck::Decided(ConditionVerdict::TypeError)
                } else {
                    ConditionCheck::Decided(verdict_of(json_eq(actual, expected) == (c.op is Eq)))
                },
            },
        },
        _ => match (value, c.value) {
            (Some(JsonValue::Number(x)), Some(JsonValue::Number(y))) => ConditionCheck::Compare(x, y),
            _ => ConditionCheck::Decided(ConditionVerdict::TypeError),
        },
    }
}

/// Evaluates a condition against a capability output.
pub fn check_transition_condition(condition: &TransitionCondition, output: &JsonValue) -> (r: ConditionCheck)
    ensures
        r == condition_check(*condition, *output),
{
    let value = lookup_field(condition.field.as_str(), output);
    match condition.op {
        ConditionOp::Exists => {
            let present = match value {
                Some(JsonValue::Null) => false,
                Some(_) => true,
                None => false,
            };
            ConditionCheck::Decided(if present { ConditionVerdict::Met } else { ConditionVerdict::NotMet })
        },
        ConditionOp::In => {
            let actual = match value {
                None => return ConditionCheck::Decided(ConditionVerdict::NotMet),
                Some(a) => a,
            };
            let xs = match &condition.value {
                Some(JsonValue::Array(xs)) => xs,
                _ => return ConditionCheck::Decided(ConditionVerdict::TypeError),
            };
            let n = xs.len();
            let mut i: usize = 0;
            assert(condition_check(*condition, *output) == ConditionCheck::Decided(
                verdict_of(exists|j: int| 0 <= j < xs@.len() && json_eq(#[trigger] xs@[j], *actual)),
            ));
            while i < n
                invariant
                    n == xs@.len(),
                    i <= n,
                    forall|j: int| 0 <= j < i ==> !json_eq(#[trigger] xs@[j], *actual),
                    condition_check(*condition, *output) == ConditionCheck::Decided(
                        verdict_of(exists|j: int| 0 <= j < xs@.len() && json_eq(#[trigger] xs@[j], *actual)),
                    ),
                decreases n - i,
            {
                if json_equal(&xs[i], actual) {
                    assert(json_eq(xs@[i as int], *actual));
                    return ConditionCheck::Decided(ConditionVerdict::Met);
                }
                i = i + 1;
            }
            ConditionCheck::Decided(ConditionVerdict::NotMet)
        },
        ConditionOp::Eq | ConditionOp::Neq => {
            let actual = match value {
                None => return ConditionCheck::Decided(ConditionVerdict::NotMet),
                Some(a) => a,
            };
            let expected = match &condition.value {
                None => return ConditionCheck::Decided(ConditionVerdict::TypeError),
                Some(e) => e,
            };
            if kind_of(actual) != kind_of(expected) {
                return ConditionCheck::Decided(ConditionVerdict::TypeError);
            }
            let equal = json_equal(actual, expected);
            let wanted = match condition.op {
                ConditionOp::Eq => true,
                _ => false,
            };
            ConditionCheck::Decided(if equal == wanted { ConditionVerdict::Met } else { ConditionVerdict::NotMet })
        },
        _ => match (value, &condition.value) {
            (Some(JsonValue::Number(x)), Some(JsonValue::Number(y))) => ConditionCheck::Compare(*x, *y),
            _ => ConditionCheck::Decided(ConditionVerdict::TypeError),
        },
    }
}


/// An `in` condition is met when any element of the expected array, at any
/// position, equals the value at the field, and not met when none does.
pub proof fn lemma_in_condition_looks_at_every_element(c: TransitionCondition, output: JsonValue, k: int)
    requires
        c.op == ConditionOp::In,
    ensures
        match (field_value(c.field@, output), c.value) {
            (Some(a), Some(JsonValue::Array(xs))) => {
                &&& (0 <= k < xs@.len() && json_eq(xs@[k], a)) ==> condition_check(c, output)
                    == ConditionCheck::Decided(ConditionVerdict::Met)
                &&& (forall|j: int| 0 <= j < xs@.len() ==> !json_eq(#[trigger] xs@[j], a)) ==> condition_check(c, output)
                    == ConditionCheck::Decided(ConditionVerdict::NotMet)
            },
            _ => true,
        },
{
    match (field_value(c.field@, output), c.value) {
        (Some(a), Some(JsonValue::Array(xs))) => {
            if 0 <= k < xs@.len() && json_eq(xs@[k], a) {
                assert(exists|j: int| 0 <= j < xs@.len() && json_eq(#[trigger] xs@[j], a));
            }
        },
        _ => {},
    }
}

/// JSON equality is reflexive: every value equals itself.
pub proof fn lemma_json_eq_reflexive(v: JsonValue)
    ensures
        json_eq(v, v),
    decreases v,
{
    match v {
        JsonValue::Array(xs) => {
            lemma_items_eq_reflexive(xs@);
        },
        JsonValue::Object(xs) => {
            lemma_members_eq_reflexive(xs@);
        },
        _ => {},
    }
}

proof fn lemma_items_eq_reflexive(xs: Seq<JsonValue>)
    ensures
        items_eq(xs, xs),
    decreases xs,
{
    if xs.len() > 0 {
        lemma_items_eq_reflexive(xs.drop_last());
        lemma_json_eq_reflexive(xs.last());
    }
}

proof fn lemma_members_eq_reflexive(xs: Seq<(String, JsonValue)>)
    ensures
        members_eq(xs, xs),
    decreases xs,
{
    if xs.len() > 0 {
        lemma_members_eq_reflexive(xs.drop_last());
        lemma_json_eq_reflexive(xs.last().1);
    }
}

/// `exists` is met exactly when the field names a value other than null;
/// `eq` and `neq` with the same field and expected value, on values of one
/// kind, give opposite verdicts, `eq` being met exactly when the values are
/// JSON-equal; a value is `eq` to a copy of itself.
pub proof fn lemma_condition_operators_agree(field: String, value: Option<JsonValue>, output: JsonValue)
    ensures
        ({
            let ex = TransitionCondition { field, op: ConditionOp::Exists, value };
            condition_check(ex, output) == ConditionCheck::Decided(
                if field_value(field@, output) matches Some(v) && !(v is Null) {
                    ConditionVerdict::Met
                } else {
                    ConditionVerdict::NotMet
                },
            )
        }),
        ({
            let eq = TransitionCondition { field, op: ConditionOp::Eq, value };
            let neq = TransitionCondition { field, op: ConditionOp::Neq, value };
            match (field_value(field@, output), value) {
                (Some(a), Some(e)) => json_kind(a) == json_kind(e) ==> {
                    &&& (condition_check(eq, output) == ConditionCheck::Decided(ConditionVerdict::Met)) == json_eq(a, e)
                    &&& condition_check(eq, output) is Decided && condition_check(neq, output) is Decided
                    &&& (condition_check(eq, output) == ConditionCheck::Decided(ConditionVerdict::Met)) != (condition_check(
                        neq,
                        output,
                    ) == ConditionCheck::Decided(ConditionVerdict::Met))
                },
                _ => true,
            }
        }),
        ({
            let eq = TransitionCondition { field, op: ConditionOp::Eq, value };
            match field_value(field@, output) {
                Some(a) => value == Some(a) ==> condition_check(eq, output) == ConditionCheck::Decided(
                    ConditionVerdict::Met,
                ),
                None => true,
            }
        }),
{
    if let Some(a) = field_value(field@, output) {
        lemma_json_eq_reflexive(a);
    }
}

} // verus!
