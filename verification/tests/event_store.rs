use baijimu_digital_employee_connector::event_store::{
    domain_job, publish_decision, publish_request, raw_job, retryable_event_status, EventLog,
    PublishDecision, SendOutcome, MAX_EVENTS,
};
use baijimu_digital_employee_connector::json::{Json, JsonNumber};

fn params(thread: &str) -> Json {
    Json::Object(vec![("threadId".to_string(), Json::Str(thread.to_string()))])
}

fn object(members: Vec<(&str, Json)>) -> Json {
    Json::Object(members.into_iter().map(|(k, v)| (k.to_string(), v)).collect())
}

#[test]
fn events_are_numbered_and_the_oldest_give_way() {
    let mut log = EventLog::new("stream".to_string());
    for i in 0..(MAX_EVENTS + 5) {
        let outcome = log.push("item/started", params("t"), format!("{i}"));
        assert_eq!(outcome.event.sequence, (i + 1) as u64);
    }
    let (latest, retained) = log.summary();
    assert_eq!(latest, (MAX_EVENTS + 5) as u64);
    assert_eq!(retained, MAX_EVENTS);
    let recent = log.recent(&object(vec![("limit", Json::Number(JsonNumber::PosInt(2)))]));
    let events = recent.get("events").and_then(|e| e.as_array()).unwrap();
    assert_eq!(events.len(), 2);
    assert_eq!(events[1].get("sequence").and_then(|s| s.as_u64()), Some((MAX_EVENTS + 5) as u64));
    assert_eq!(recent.get("latestSequence").and_then(|s| s.as_u64()), Some((MAX_EVENTS + 5) as u64));
}

#[test]
fn recent_events_follow_a_sequence_number() {
    let mut log = EventLog::new("stream".to_string());
    for _ in 0..5 {
        log.push("item/started", params("t"), "1".to_string());
    }
    let recent = log.recent(&object(vec![("afterSequence", Json::Number(JsonNumber::PosInt(3)))]));
    let events = recent.get("events").and_then(|e| e.as_array()).unwrap();
    assert_eq!(events.len(), 2);
    assert_eq!(events[0].get("sequence").and_then(|s| s.as_u64()), Some(4));
    let none = log.recent(&object(vec![("limit", Json::Number(JsonNumber::PosInt(0)))]));
    assert_eq!(none.get("events").and_then(|e| e.as_array()).unwrap().len(), 1);
}

#[test]
fn completed_turns_leave_their_thread_unread_and_become_domain_events() {
    let mut log = EventLog::new("stream".to_string());
    let turn = object(vec![
        ("threadId", Json::Str("thr".to_string())),
        ("turn", object(vec![("id", Json::Str("u".to_string())), ("status", Json::Str("completed".to_string()))])),
    ]);
    let outcome = log.push("turn/completed", turn, "9".to_string());
    assert_eq!(outcome.unread_thread.as_deref(), Some("thr"));
    let domain = outcome.domain.unwrap().unwrap();
    let job = domain_job(domain);
    assert_eq!(job.attempts, 5);
    let raw = raw_job(&outcome.event, "codex_evt_1".to_string());
    assert_eq!(raw.event_name, "codexNotification");
    assert_eq!(raw.attempts, 1);
    let request = publish_request("app", &raw);
    assert_eq!(request.get("appId"), Some(&Json::Str("app".to_string())));
    let other = log.push("item/started", params("thr"), "10".to_string());
    assert!(other.unread_thread.is_none());
    assert!(other.domain.unwrap().is_none());
}

#[test]
fn publishing_retries_only_transient_failures() {
    assert!(retryable_event_status(408));
    assert!(retryable_event_status(429));
    assert!(retryable_event_status(503));
    assert!(!retryable_event_status(404));
    assert!(matches!(publish_decision(1, 5, &SendOutcome::Status(204)), PublishDecision::Delivered));
    assert!(matches!(publish_decision(1, 5, &SendOutcome::Status(403)), PublishDecision::Refused(403)));
    assert!(matches!(publish_decision(5, 5, &SendOutcome::TransportError), PublishDecision::Exhausted));
    assert!(matches!(publish_decision(2, 5, &SendOutcome::Status(500)), PublishDecision::RetryAfter(2)));
    assert!(matches!(publish_decision(1, 1, &SendOutcome::Status(500)), PublishDecision::Exhausted));
}
