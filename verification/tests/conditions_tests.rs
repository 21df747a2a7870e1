use traverse_cli::app_events::ConditionVerdict;
use traverse_cli::conditions::{
    check_transition_condition, json_equal, lookup_field, ConditionCheck, ConditionOp, JsonNumber, JsonValue,
    TransitionCondition,
};

fn text(s: &str) -> JsonValue {
    JsonValue::Text(s.to_string())
}

fn whole(n: u64) -> JsonValue {
    JsonValue::Number(JsonNumber::PosInt(n))
}

/// `{"empty": null, "label": "ready", "present": true, "score": 2}`, members in key order.
fn output() -> JsonValue {
    JsonValue::Object(vec![
        ("empty".to_string(), JsonValue::Null),
        ("label".to_string(), text("ready")),
        ("present".to_string(), JsonValue::Bool(true)),
        ("score".to_string(), whole(2)),
    ])
}

fn as_f64(n: JsonNumber) -> f64 {
    match n {
        JsonNumber::PosInt(u) => u as f64,
        JsonNumber::NegInt(i) => i as f64,
        JsonNumber::Float(bits) => f64::from_bits(bits),
    }
}

/// The verdict, comparing numbers as the host does.
fn evaluate(condition: &TransitionCondition, output: &JsonValue) -> ConditionVerdict {
    match check_transition_condition(condition, output) {
        ConditionCheck::Decided(v) => v,
        ConditionCheck::Compare(a, e) => {
            let (a, e) = (as_f64(a), as_f64(e));
            let holds = match condition.op {
                ConditionOp::Gt => a > e,
                ConditionOp::Gte => a >= e,
                ConditionOp::Lt => a < e,
                ConditionOp::Lte => a <= e,
                _ => false,
            };
            if holds { ConditionVerdict::Met } else { ConditionVerdict::NotMet }
        },
    }
}

fn condition(op: ConditionOp, field: &str, value: Option<JsonValue>) -> TransitionCondition {
    TransitionCondition { field: field.to_string(), op, value }
}

#[test]
fn transition_condition_evaluator_supports_all_approved_operators() {
    let output = output();
    let cases = vec![
        condition(ConditionOp::Eq, "output.label", Some(text("ready"))),
        condition(ConditionOp::Neq, "output.label", Some(text("waiting"))),
        condition(ConditionOp::Gt, "output.score", Some(whole(1))),
        condition(ConditionOp::Gte, "output.score", Some(whole(2))),
        condition(ConditionOp::Lt, "output.score", Some(whole(3))),
        condition(ConditionOp::Lte, "output.score", Some(whole(2))),
        condition(ConditionOp::In, "output.label", Some(JsonValue::Array(vec![text("ready"), text("done")]))),
        condition(ConditionOp::Exists, "output.present", None),
    ];
    for c in &cases {
        assert_eq!(evaluate(c, &output), ConditionVerdict::Met);
    }
    let missing = condition(ConditionOp::Exists, "output.missing", None);
    assert_eq!(evaluate(&missing, &output), ConditionVerdict::NotMet);
}

#[test]
fn conditions_report_type_errors_and_missing_values() {
    let output = output();
    assert_eq!(evaluate(&condition(ConditionOp::Exists, "output.empty", None), &output), ConditionVerdict::NotMet);
    assert_eq!(evaluate(&condition(ConditionOp::Eq, "output.label", Some(whole(1))), &output), ConditionVerdict::TypeError);
    assert_eq!(evaluate(&condition(ConditionOp::Eq, "output.label", None), &output), ConditionVerdict::TypeError);
    assert_eq!(evaluate(&condition(ConditionOp::Eq, "output.absent", Some(whole(1))), &output), ConditionVerdict::NotMet);
    assert_eq!(evaluate(&condition(ConditionOp::In, "output.label", Some(text("ready"))), &output), ConditionVerdict::TypeError);
    assert_eq!(evaluate(&condition(ConditionOp::Gt, "output.label", Some(whole(1))), &output), ConditionVerdict::TypeError);
    assert_eq!(evaluate(&condition(ConditionOp::Gt, "output.absent", Some(whole(1))), &output), ConditionVerdict::TypeError);
    assert_eq!(
        check_transition_condition(&condition(ConditionOp::Lt, "output.score", Some(whole(3))), &output),
        ConditionCheck::Compare(JsonNumber::PosInt(2), JsonNumber::PosInt(3))
    );
    assert_eq!(evaluate(&condition(ConditionOp::Eq, "label", Some(text("ready"))), &output), ConditionVerdict::NotMet);
}

#[test]
fn json_paths_follow_object_members() {
    let nested = JsonValue::Object(vec![("a".to_string(), JsonValue::Object(vec![("b".to_string(), whole(7))]))]);
    assert!(matches!(lookup_field("output.a.b", &nested), Some(JsonValue::Number(JsonNumber::PosInt(7)))));
    assert!(lookup_field("output.a.c", &nested).is_none());
    assert!(lookup_field("output.a.b.c", &nested).is_none());
    assert!(matches!(lookup_field("output.a", &nested), Some(JsonValue::Object(_))));
}

#[test]
fn json_equality_is_structural_and_zero_signs_agree() {
    let zero = JsonValue::Number(JsonNumber::Float(0.0f64.to_bits()));
    let negative_zero = JsonValue::Number(JsonNumber::Float((-0.0f64).to_bits()));
    assert!(json_equal(&zero, &negative_zero));
    assert!(!json_equal(&whole(1), &JsonValue::Number(JsonNumber::Float(1.0f64.to_bits()))));
    let a = JsonValue::Array(vec![text("x"), JsonValue::Object(vec![("k".to_string(), JsonValue::Null)])]);
    let b = JsonValue::Array(vec![text("x"), JsonValue::Object(vec![("k".to_string(), JsonValue::Null)])]);
    let c = JsonValue::Array(vec![text("x"), JsonValue::Object(vec![("j".to_string(), JsonValue::Null)])]);
    assert!(json_equal(&a, &b));
    assert!(!json_equal(&a, &c));
    assert!(!json_equal(&a, &JsonValue::Array(vec![text("x")])));
}
