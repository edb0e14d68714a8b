use co_scientist::marker::normalizer::{canonicalize, derive_summary, find_alias, normalize, NormalizeError};
use co_scientist::json::{Json, Number};
use serde_json::Value;

fn json(text: &str) -> Json {
    from_value(&serde_json::from_str(text).expect("valid JSON"))
}

fn from_value(v: &Value) -> Json {
    match v {
        Value::Null => Json::Null,
        Value::Bool(b) => Json::Bool(*b),
        Value::Number(n) => Json::Number(if let Some(u) = n.as_u64() {
            Number::PosInt(u)
        } else if let Some(i) = n.as_i64() {
            Number::NegInt(i)
        } else {
            Number::Float(n.to_string())
        }),
        Value::String(s) => Json::Str(s.clone()),
        Value::Array(items) => Json::Array(items.iter().map(from_value).collect()),
        Value::Object(map) => {
            Json::Object(map.iter().map(|(k, v)| (k.clone(), from_value(v))).collect())
        }
    }
}

fn to_value(v: &Json) -> Value {
    match v {
        Json::Null => Value::Null,
        Json::Bool(b) => Value::from(*b),
        Json::Number(Number::PosInt(n)) => Value::from(*n),
        Json::Number(Number::NegInt(n)) => Value::from(*n),
        Json::Number(Number::Float(s)) => serde_json::from_str(s).expect("a number"),
        Json::Str(s) => Value::from(s.as_str()),
        Json::Array(items) => Value::from(items.iter().map(to_value).collect::<Vec<Value>>()),
        Json::Object(fields) => Value::Object(
            fields.iter().map(|(k, v)| (k.clone(), to_value(v))).collect::<serde_json::Map<String, Value>>(),
        ),
    }
}

#[test]
fn canonicalize_first_class_tools_pass_through_as_none() {
    assert_eq!(canonicalize("record_hypothesis"), None);
    assert_eq!(canonicalize("record_review"), None);
    assert_eq!(canonicalize("save_semantic"), None);
    assert_eq!(canonicalize("save_behavior"), None);
}

#[test]
fn canonicalize_known_aliases() {
    assert_eq!(canonicalize("record_system_feedback"), Some("save_behavior"));
    assert_eq!(canonicalize("record_research_plan"), Some("save_semantic"));
}

#[test]
fn normalize_passes_through_first_class_record_hypothesis() {
    let (op, payload) = normalize("record_hypothesis", json(r#"{"summary": "x"}"#)).unwrap();
    assert_eq!(op, "record_hypothesis");
    assert_eq!(to_value(&payload), to_value(&json(r#"{"summary": "x"}"#)));
}

#[test]
fn normalize_passes_through_save_behavior_unchanged() {
    let (op, payload) = normalize(
        "save_behavior",
        json(r#"{"pattern": "p", "notes": "n"}"#),
    )
    .unwrap();
    assert_eq!(op, "save_behavior");
    assert_eq!(to_value(&payload), to_value(&json(r#"{"pattern": "p", "notes": "n"}"#)));
}

#[test]
fn normalize_passes_through_save_semantic_when_scope_and_summary_present() {
    let (op, payload) = normalize(
        "save_semantic",
        json(r#"{"scope": "experiment", "summary": "x"}"#),
    )
    .unwrap();
    assert_eq!(op, "save_semantic");
    assert_eq!(to_value(&payload), to_value(&json(r#"{"scope": "experiment", "summary": "x"}"#)));
}

#[test]
fn normalize_preserves_explicit_scope_over_implied() {
    let (op, payload) = normalize(
        "record_research_plan",
        json(r#"{"scope": "experiment", "summary": "x"}"#),
    )
    .unwrap();
    assert_eq!(op, "save_semantic");
    assert_eq!(payload.str_at("scope").unwrap(), "experiment");
}

#[test]
fn normalize_alias_record_research_plan_fills_scope_plan() {
    let (op, payload) = normalize(
        "record_research_plan",
        json(r#"{"summary": "research plan summary"}"#),
    )
    .unwrap();
    assert_eq!(op, "save_semantic");
    assert_eq!(payload.str_at("scope").unwrap(), "plan");
    assert_eq!(payload.str_at("summary").unwrap(), "research plan summary");
}

#[test]
fn normalize_save_semantic_without_alias_does_not_inject_scope() {
    let (_, payload) = normalize("save_semantic", json(r#"{"summary": "x"}"#)).unwrap();
    assert!(payload.get("scope").is_none());
}

#[test]
fn normalize_derives_summary_from_objective() {
    let (_, payload) = normalize(
        "save_semantic",
        json(r#"{"scope": "experiment", "objective": "do the thing"}"#),
    )
    .unwrap();
    assert_eq!(payload.str_at("summary").unwrap(), "do the thing");
}

#[test]
fn normalize_derives_summary_from_verdict() {
    let (_, payload) = normalize(
        "save_semantic",
        json(r#"{"scope": "review", "verdict": "looks good"}"#),
    )
    .unwrap();
    assert_eq!(payload.str_at("summary").unwrap(), "looks good");
}

#[test]
fn normalize_derives_summary_from_statement() {
    let (_, payload) = normalize(
        "save_semantic",
        json(r#"{"scope": "hypothesis", "statement": "x predicts y"}"#),
    )
    .unwrap();
    assert_eq!(payload.str_at("summary").unwrap(), "x predicts y");
}

#[test]
fn normalize_summary_fallback_precedence_is_objective_then_verdict_then_statement() {
    let (_, payload) = normalize(
        "save_semantic",
        json(r#"{
            "scope": "s",
            "objective": "from-objective",
            "verdict": "from-verdict",
            "statement": "from-statement"
        }"#),
    )
    .unwrap();
    assert_eq!(payload.str_at("summary").unwrap(), "from-objective");

    let (_, payload) = normalize(
        "save_semantic",
        json(r#"{
            "scope": "s",
            "verdict": "from-verdict",
            "statement": "from-statement"
        }"#),
    )
    .unwrap();
    assert_eq!(payload.str_at("summary").unwrap(), "from-verdict");

    let (_, payload) = normalize(
        "save_semantic",
        json(r#"{"scope": "s", "statement": "from-statement"}"#),
    )
    .unwrap();
    assert_eq!(payload.str_at("summary").unwrap(), "from-statement");
}

#[test]
fn normalize_derives_summary_with_truncation() {
    let long = "a".repeat(500);
    let (_, payload) = normalize(
        "save_semantic",
        json(&format!("{{\"scope\": \"s\", \"objective\": \"{long}\"}}")),
    )
    .unwrap();
    let s = payload.str_at("summary").unwrap();
    assert!(s.ends_with('…'));
    assert!(s.chars().count() <= 200);
}

#[test]
fn normalize_trims_whitespace_in_derived_summary() {
    let (_, payload) = normalize(
        "save_semantic",
        json(r#"{"scope": "s", "objective": "  hello  "}"#),
    )
    .unwrap();
    assert_eq!(payload.str_at("summary").unwrap(), "hello");
}

#[test]
fn normalize_rejects_save_semantic_missing_summary() {
    let err = normalize(
        "save_semantic",
        json(r#"{"scope": "experiment"}"#),
    )
    .unwrap_err();
    assert!(err.message().contains("missing 'summary'"));
}

#[test]
fn normalize_rejects_empty_object_payload_for_save_semantic() {
    let err = normalize("save_semantic", json(r#"{}"#)).unwrap_err();
    assert!(err.message().contains("missing 'summary'"));
}

#[test]
fn normalize_rejects_non_object_payload_for_save_semantic() {
    let err = normalize("save_semantic", json(r#""just a string""#)).unwrap_err();
    assert!(err.message().contains("payload must be a JSON object"));
}

#[test]
fn normalize_record_research_plan_with_objective_derives_summary() {
    let (op, payload) = normalize(
        "record_research_plan",
        json(r#"{"objective": "do x then y"}"#),
    )
    .unwrap();
    assert_eq!(op, "save_semantic");
    assert_eq!(payload.str_at("scope").unwrap(), "plan");
    assert_eq!(payload.str_at("summary").unwrap(), "do x then y");
}

#[test]
fn normalize_record_system_feedback_passes_through_to_save_behavior() {
    let (op, payload) = normalize(
        "record_system_feedback",
        json(r#"{"pattern": "p", "notes": "n"}"#),
    )
    .unwrap();
    assert_eq!(op, "save_behavior");
    assert_eq!(to_value(&payload), to_value(&json(r#"{"pattern": "p", "notes": "n"}"#)));
}

#[test]
fn derive_summary_short_passes_through_trimmed() {
    assert_eq!(derive_summary("  hello  "), "hello");
}

#[test]
fn derive_summary_long_truncates_with_ellipsis() {
    let s = "x".repeat(300);
    let out = derive_summary(&s);
    assert!(out.ends_with('…'));
    assert!(out.chars().count() <= 200);
}

#[test]
fn both_refusals_are_told_apart() {
    assert_eq!(
        normalize("save_semantic", Json::Null).unwrap_err(),
        NormalizeError::NotAnObject
    );
    assert_eq!(
        normalize("record_research_plan", json(r#"{"objective": 3}"#)).unwrap_err(),
        NormalizeError::MissingSummary
    );
}

#[test]
fn normalizing_twice_changes_nothing_more() {
    let (op, payload) = normalize("record_research_plan", json(r#"{"objective": "o"}"#)).unwrap();
    let once = to_value(&payload);
    let (again, payload) = normalize(&op, payload).unwrap();
    assert_eq!(again, op);
    assert_eq!(to_value(&payload), once);
}

#[test]
fn summaries_count_characters() {
    let s = "ä".repeat(200);
    assert_eq!(derive_summary(&s), s);
    let s = "ä".repeat(201);
    let out = derive_summary(&s);
    assert_eq!(out.chars().count(), 198);
    assert!(out.ends_with('…'));
    assert!(find_alias("save_semantic").is_none());
}
