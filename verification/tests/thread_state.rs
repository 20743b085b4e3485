use baijimu_digital_employee_connector::json::{Json, JsonNumber};
use baijimu_digital_employee_connector::thread_state::{
    desktop_unread_thread_ids, mark_thread_unread, store_from_document, ThreadReadEntry,
    ThreadReadStore, STATE_VERSION,
};
use serde_json::Value;

fn to_json(v: &Value) -> Json {
    match v {
        Value::Null => Json::Null,
        Value::Bool(b) => Json::Bool(*b),
        Value::Number(n) => Json::Number(if let Some(u) = n.as_u64() {
            JsonNumber::PosInt(u)
        } else if let Some(i) = n.as_i64() {
            JsonNumber::NegInt(i)
        } else {
            JsonNumber::Float(n.as_f64().unwrap_or(0.0).to_bits())
        }),
        Value::String(s) => Json::Str(s.clone()),
        Value::Array(items) => Json::Array(items.iter().map(to_json).collect()),
        Value::Object(members) => Json::Object(
            members
                .iter()
                .map(|(k, v)| (k.clone(), to_json(v)))
                .collect(),
        ),
    }
}

fn parse(text: &str) -> Json {
    to_json(&serde_json::from_str::<Value>(text).unwrap())
}

fn saved_and_loaded(store: &ThreadReadStore) -> ThreadReadStore {
    let document = store.to_json();
    let decoded = ThreadReadStore::from_json(&document).unwrap();
    store_from_document(Some(Ok(decoded)), "/state/thread-read-state.json").unwrap()
}

fn text<'a>(j: &'a Json, key: &str) -> Option<&'a str> {
    j.get(key).and_then(|v| v.as_str()).map(|s| s.as_str())
}

#[test]
fn enriches_runtime_and_desktop_unread_state_then_marks_read() {
    let desktop_state = parse(r#"{"unread-thread-ids-by-host-v1":{"local":["thread-1"]}}"#);
    let desktop =
        desktop_unread_thread_ids(Some(&desktop_state), "/codex/.codex-global-state.json").unwrap();
    let mut store = store_from_document(None, "/connector/thread-read-state.json").unwrap();
    let mut threads = vec![parse(
        r#"{
            "id": "thread-1",
            "updatedAt": 10,
            "status": {"type": "active", "activeFlags": ["waitingOnApproval"]},
            "turns": []
        }"#,
    )];

    store.enrich_thread_list(&mut threads, &desktop);
    store = saved_and_loaded(&store);
    assert_eq!(threads[0].get("hasUnreadTurn"), Some(&Json::Bool(true)));
    assert_eq!(threads[0].get("isInProgress"), Some(&Json::Bool(true)));
    assert_eq!(text(&threads[0], "latestTurnStatus"), Some("inProgress"));
    assert_eq!(
        threads[0]
            .get("activeFlags")
            .and_then(|f| f.as_array())
            .and_then(|f| f.first())
            .and_then(|f| f.as_str())
            .map(|s| s.as_str()),
        Some("waitingOnApproval")
    );
    assert_eq!(text(&threads[0], "runtimeStatusAvailability"), Some("live"));
    assert_eq!(text(&threads[0], "runtimeStatusSource"), Some("codexAppServer"));

    let desktop_unread = desktop.iter().any(|id| id == "thread-1");
    store.set_thread_read_state(
        "thread-1",
        false,
        Some(Json::Number(JsonNumber::PosInt(10))),
        desktop_unread,
    );
    store = saved_and_loaded(&store);
    store.enrich_thread_list(&mut threads, &desktop);
    store = saved_and_loaded(&store);
    assert_eq!(threads[0].get("hasUnreadTurn"), Some(&Json::Bool(false)));

    threads[0].insert("updatedAt", Json::Number(JsonNumber::PosInt(11)));
    threads[0].insert("status", parse(r#"{"type": "idle"}"#));
    threads[0].insert("turns", parse(r#"[{"status": "completed"}]"#));
    store.enrich_thread_list(&mut threads, &desktop);
    assert_eq!(threads[0].get("hasUnreadTurn"), Some(&Json::Bool(true)));
}

#[test]
fn marks_persisted_threads_without_runtime_state_as_history_only() {
    let mut store = store_from_document(None, "/connector/thread-read-state.json").unwrap();
    let desktop = desktop_unread_thread_ids(None, "/codex/.codex-global-state.json").unwrap();
    let mut threads = vec![parse(r#"{"id": "thread-history", "updatedAt": 10}"#)];

    store.enrich_thread_list(&mut threads, &desktop);

    assert_eq!(
        threads[0].get("threadRuntimeStatus").and_then(|s| text(s, "type")),
        Some("notLoaded")
    );
    assert_eq!(text(&threads[0], "runtimeStatusAvailability"), Some("persistedOnly"));
    assert_eq!(threads[0].get("isInProgress"), Some(&Json::Bool(false)));
}

#[test]
fn completion_marks_a_thread_unread_without_touching_desktop_state() {
    let mut store = store_from_document(None, "/connector/thread-read-state.json").unwrap();
    mark_thread_unread(&mut store, "thread-2");
    let store = saved_and_loaded(&store);
    assert!(store.get("thread-2").unwrap().has_unread_turn);
    assert!(!store.get("thread-2").unwrap().observed_desktop_unread);
}

#[test]
fn an_empty_store_has_the_current_version() {
    let store = ThreadReadStore::new();
    assert_eq!(store.version, STATE_VERSION);
    assert!(store.get("anything").is_none());
}

#[test]
fn entries_round_trip_through_their_json_form() {
    let mut entry = ThreadReadEntry::new();
    entry.has_unread_turn = true;
    entry.observed_updated_at = Some(Json::Number(JsonNumber::PosInt(42)));
    entry.observed_runtime_status_type = Some("idle".to_string());
    let back = ThreadReadEntry::from_json(&entry.to_json()).unwrap();
    assert!(back.has_unread_turn);
    assert_eq!(back.observed_updated_at, Some(Json::Number(JsonNumber::PosInt(42))));
    assert_eq!(back.observed_runtime_status_type.as_deref(), Some("idle"));
    assert_eq!(back.observed_latest_turn_status, None);
    assert!(!back.observed_desktop_unread);
}

#[test]
fn desktop_state_without_the_unread_key_marks_nothing() {
    let doc = parse(r#"{"other": 1}"#);
    assert!(desktop_unread_thread_ids(Some(&doc), "/x").unwrap().is_empty());
}

#[test]
fn unreadable_and_foreign_stores_are_refused() {
    assert_eq!(
        store_from_document(Some(Err("missing field `version`".to_string())), "/s.json").err().as_deref(),
        Some("invalid thread read state /s.json: missing field `version`")
    );
    let mut newer = ThreadReadStore::new();
    newer.version = 2;
    assert_eq!(
        store_from_document(Some(Ok(newer)), "/s.json").err().as_deref(),
        Some("unsupported thread read state version 2 in /s.json")
    );
}

#[test]
fn listing_the_shown_threads_again_changes_nothing() {
    let desktop_state = parse(r#"{"unread-thread-ids-by-host-v1":{"local":["thread-b"]}}"#);
    let desktop =
        desktop_unread_thread_ids(Some(&desktop_state), "/codex/.codex-global-state.json").unwrap();
    let mut store = store_from_document(None, "/connector/thread-read-state.json").unwrap();
    mark_thread_unread(&mut store, "thread-a");
    let mut threads = vec![
        parse(r#"{"id": "thread-a", "updatedAt": 3, "status": "idle", "turns": [{"status": "completed"}]}"#),
        parse(r#"{"threadId": "thread-b", "status": {"type": "active"}}"#),
        parse(r#"{"id": "thread-c", "updatedAt": null}"#),
        parse(r#""not a thread""#),
    ];
    let first = store.enrich_thread_list(&mut threads, &desktop);
    assert!(first.changed);
    let shown: Vec<Json> = threads.iter().map(|t| t.copy()).collect();
    let state = store.to_json();

    let again = store.enrich_thread_list(&mut threads, &desktop);
    assert!(!again.changed);
    assert_eq!(threads, shown);
    assert_eq!(store.to_json(), state);
    assert_eq!(threads[0].get("hasUnreadTurn"), Some(&Json::Bool(true)));
    assert_eq!(threads[1].get("hasUnreadTurn"), Some(&Json::Bool(true)));
    assert_eq!(threads[2].get("hasUnreadTurn"), Some(&Json::Bool(false)));
}

#[test]
fn negative_zero_revision_is_the_same_revision() {
    let desktop = desktop_unread_thread_ids(None, "/codex/.codex-global-state.json").unwrap();
    let mut store = store_from_document(None, "/connector/thread-read-state.json").unwrap();
    let mut threads = vec![parse(r#"{"id": "t", "updatedAt": 0.0, "status": {"type": "active"}}"#)];
    store.enrich_thread_list(&mut threads, &desktop);
    assert_eq!(threads[0].get("hasUnreadTurn"), Some(&Json::Bool(false)));

    let mut threads = vec![parse(r#"{"id": "t", "updatedAt": -0.0, "status": {"type": "idle"}}"#)];
    store.enrich_thread_list(&mut threads, &desktop);
    assert_eq!(threads[0].get("hasUnreadTurn"), Some(&Json::Bool(false)));

    let mut threads = vec![parse(r#"{"id": "t", "updatedAt": 0.0, "status": {"type": "idle"}}"#)];
    let outcome = store.enrich_thread_list(&mut threads, &desktop);
    assert!(!outcome.changed);

    let mut threads = vec![parse(r#"{"id": "t", "updatedAt": 1.5, "status": {"type": "active"}}"#)];
    store.enrich_thread_list(&mut threads, &desktop);
    let mut threads = vec![parse(r#"{"id": "t", "updatedAt": 2.5, "status": {"type": "idle"}}"#)];
    store.enrich_thread_list(&mut threads, &desktop);
    assert_eq!(threads[0].get("hasUnreadTurn"), Some(&Json::Bool(true)));
}
