use baijimu_digital_employee_connector::events::{
    normalize_codex_notification, CODEX_THREAD_CLOSED, CODEX_TURN_COMPLETED,
};
use baijimu_digital_employee_connector::json::{Json, JsonNumber};
use serde_json::Value;

fn to_json(v: &Value) -> Json {
    match v {
        Value::Null => Json::Null,
        Value::Bool(b) => Json::Bool(*b),
        Value::Number(n) => Json::Number(if let Some(u) = n.as_u64() {
            JsonNumber::PosInt(u)
        } else if let Some(i) = n.as_i64() {
            JsonNumber::NegInt(i)
        } else {
            JsonNumber::Float(n.as_f64().unwrap_or(0.0).to_bits())
        }),
        Value::String(s) => Json::Str(s.clone()),
        Value::Array(items) => Json::Array(items.iter().map(to_json).collect()),
        Value::Object(members) => Json::Object(
            members
                .iter()
                .map(|(k, v)| (k.clone(), to_json(v)))
                .collect(),
        ),
    }
}

fn parse(text: &str) -> Json {
    to_json(&serde_json::from_str::<Value>(text).unwrap())
}

fn text_at<'a>(j: &'a Json, key: &str) -> Option<&'a str> {
    j.get(key).and_then(|v| v.as_str()).map(|s| s.as_str())
}

#[test]
fn turn_completion_is_normalized_without_exposing_turn_items() {
    let params = parse(
        r#"{
            "threadId": "thr_123",
            "turn": {
                "id": "turn_456",
                "status": "failed",
                "completedAt": 100,
                "durationMs": 2500,
                "error": {"message": "provider failed"},
                "items": [{"type": "agentMessage", "text": "sensitive output"}]
            }
        }"#,
    );

    let event = normalize_codex_notification("turn/completed", &params, "101", "stream-a", 7)
        .unwrap()
        .unwrap();

    assert_eq!(event.name, CODEX_TURN_COMPLETED);
    assert_eq!(event.payload.get("schemaVersion").and_then(|v| v.as_u64()), Some(1));
    assert_eq!(text_at(&event.payload, "threadId"), Some("thr_123"));
    assert_eq!(text_at(&event.payload, "turnId"), Some("turn_456"));
    assert_eq!(text_at(&event.payload, "status"), Some("failed"));
    assert_eq!(
        event.payload.get("error").and_then(|e| text_at(e, "message")),
        Some("provider failed")
    );
    assert!(event.payload.get("items").is_none());
}

#[test]
fn repeated_turn_completion_has_the_same_id_across_streams() {
    let params = parse(r#"{"threadId": "thr_123", "turn": {"id": "turn_456", "status": "completed"}}"#);

    let first = normalize_codex_notification("turn/completed", &params, "101", "stream-a", 7)
        .unwrap()
        .unwrap();
    let replay = normalize_codex_notification("turn/completed", &params, "102", "stream-b", 1)
        .unwrap()
        .unwrap();

    assert_eq!(first.event_id, replay.event_id);
}

#[test]
fn repeated_thread_closes_remain_distinct_lifecycle_occurrences() {
    let params = parse(r#"{"threadId": "thr_123"}"#);
    let first = normalize_codex_notification("thread/closed", &params, "101", "stream-a", 7)
        .unwrap()
        .unwrap();
    let second = normalize_codex_notification("thread/closed", &params, "101", "stream-a", 8)
        .unwrap()
        .unwrap();

    assert_eq!(first.name, CODEX_THREAD_CLOSED);
    assert_ne!(first.event_id, second.event_id);
}

#[test]
fn malformed_final_events_fail_closed() {
    let error = normalize_codex_notification(
        "turn/completed",
        &parse(r#"{"threadId": "thr_123", "turn": {"id": "turn_456", "status": "inProgress"}}"#),
        "101",
        "stream-a",
        7,
    )
    .unwrap_err();

    assert_eq!(error, "turn/completed has no final turn.status");
}

#[test]
fn turn_completion_id_is_the_sha256_of_thread_and_turn() {
    let params = parse(r#"{"threadId": "thr_123", "turn": {"id": "turn_456", "status": "completed"}}"#);
    let event = normalize_codex_notification("turn/completed", &params, "101", "stream-a", 7)
        .unwrap()
        .unwrap();
    assert!(event.event_id.starts_with("codex_domain_v1_"));
    assert_eq!(event.event_id.len(), "codex_domain_v1_".len() + 64);
    assert!(event.event_id["codex_domain_v1_".len()..]
        .chars()
        .all(|c| c.is_ascii_hexdigit() && !c.is_ascii_uppercase()));
    assert_eq!(event.occurred_at, "101");
    assert_eq!(text_at(&event.payload, "occurredAt"), Some("101"));
    assert_eq!(text_at(&event.payload, "source"), Some("codex-app-server"));
    assert_eq!(text_at(&event.payload, "sourceMethod"), Some("turn/completed"));
    assert_eq!(text_at(&event.payload, "connectorVersion"), Some("1.0.0"));
    assert_eq!(event.payload.get("completedAt"), Some(&Json::Null));
}

#[test]
fn other_methods_are_not_domain_events() {
    let params = parse(r#"{"threadId": "thr_123"}"#);
    assert!(normalize_codex_notification("turn/started", &params, "1", "s", 1)
        .unwrap()
        .is_none());
}

#[test]
fn lifecycle_events_need_a_thread_id() {
    let params = parse(r#"{"threadId": ""}"#);
    assert_eq!(
        normalize_codex_notification("thread/archived", &params, "1", "s", 1).unwrap_err(),
        "thread/archived is missing string field threadId"
    );
    let missing_turn = parse(r#"{"threadId": "t"}"#);
    assert_eq!(
        normalize_codex_notification("turn/completed", &missing_turn, "1", "s", 1).unwrap_err(),
        "turn/completed is missing object field turn"
    );
    let empty_turn_id = parse(r#"{"threadId": "t", "turn": {"id": "", "status": "failed"}}"#);
    assert_eq!(
        normalize_codex_notification("turn/completed", &empty_turn_id, "1", "s", 1).unwrap_err(),
        "turn/completed is missing turn.id"
    );
}

#[test]
fn deleted_and_archived_threads_have_their_own_names() {
    let params = parse(r#"{"threadId": "thr_9"}"#);
    let archived = normalize_codex_notification("thread/archived", &params, "5", "s", 2)
        .unwrap()
        .unwrap();
    let deleted = normalize_codex_notification("thread/deleted", &params, "5", "s", 2)
        .unwrap()
        .unwrap();
    assert_eq!(archived.name, "codexThreadArchived");
    assert_eq!(deleted.name, "codexThreadDeleted");
    assert_ne!(archived.event_id, deleted.event_id);
}
