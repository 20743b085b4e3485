use baijimu_digital_employee_connector::json::{Json, JsonNumber};
use baijimu_digital_employee_connector::server_requests::{
    reply_from_json, validate_reply, PendingRequests, ReceiveOutcome, RequestId, ServerRequest,
    MAX_PENDING_REQUESTS,
};
use serde_json::Value;

fn to_json(v: &Value) -> Json {
    match v {
        Value::Null => Json::Null,
        Value::Bool(b) => Json::Bool(*b),
        Value::Number(n) => Json::Number(if let Some(u) = n.as_u64() {
            JsonNumber::PosInt(u)
        } else if let Some(i) = n.as_i64() {
            JsonNumber::NegInt(i)
        } else {
            JsonNumber::Float(n.as_f64().unwrap_or(0.0).to_bits())
        }),
        Value::String(s) => Json::Str(s.clone()),
        Value::Array(items) => Json::Array(items.iter().map(to_json).collect()),
        Value::Object(members) => Json::Object(
            members
                .iter()
                .map(|(k, v)| (k.clone(), to_json(v)))
                .collect(),
        ),
    }
}

fn parse(text: &str) -> Json {
    to_json(&serde_json::from_str::<Value>(text).unwrap())
}

#[test]
fn replies_are_scoped_to_both_thread_and_turn_and_do_not_grant_future_approval() {
    let request = ServerRequest {
        request_id: RequestId::Number(1),
        method: "item/commandExecution/requestApproval".into(),
        thread_id: "thread".into(),
        turn_id: "turn".into(),
        params: Json::Object(Vec::new()),
    };
    let body = r#"{"requestId":1,"threadId":"thread","turnId":"turn","result":{"decision":"accept"}}"#;
    let mut reply = reply_from_json(&parse(body)).unwrap();
    assert!(validate_reply(&request, &reply).is_ok());
    reply.thread_id = "other".into();
    assert!(validate_reply(&request, &reply).is_err());
    let changed =
        r#"{"requestId":1,"threadId":"thread","turnId":"turn","result":{"decision":"acceptForSession"}}"#;
    assert!(reply_from_json(&parse(changed)).is_none());
}

#[test]
fn a_reply_for_another_turn_is_refused() {
    let request = ServerRequest {
        request_id: RequestId::Number(1),
        method: "item/commandExecution/requestApproval".into(),
        thread_id: "thread".into(),
        turn_id: "turn".into(),
        params: Json::Object(Vec::new()),
    };
    let body = r#"{"requestId":1,"threadId":"thread","turnId":"other","result":{"decision":"decline"}}"#;
    let reply = reply_from_json(&parse(body)).unwrap();
    assert!(validate_reply(&request, &reply).is_err());
}

#[test]
fn pending_requests_are_announced_answered_once_and_then_gone() {
    let mut pending = PendingRequests::new();
    let message = parse(
        r#"{"id":7,"method":"item/commandExecution/requestApproval","params":{"threadId":"thread","turnId":"turn","command":"cargo test"}}"#,
    );
    match pending.receive(&message) {
        ReceiveOutcome::Registered(event) => {
            assert_eq!(event.get("requestId").and_then(|v| v.as_u64()), Some(7));
        }
        ReceiveOutcome::Refused(_) => panic!("a supported request is registered"),
    }
    assert_eq!(pending.len(), 1);
    match pending.receive(&message) {
        ReceiveOutcome::Refused(_) => {}
        ReceiveOutcome::Registered(_) => panic!("an id that is pending is refused"),
    }
    assert_eq!(pending.len(), 1);

    let other_thread = reply_from_json(&parse(
        r#"{"requestId":7,"threadId":"other","turnId":"turn","result":{"decision":"accept"}}"#,
    ))
    .unwrap();
    assert!(pending.respond(&other_thread).is_err());
    assert_eq!(pending.len(), 1);

    let reply = reply_from_json(&parse(
        r#"{"requestId":7,"threadId":"thread","turnId":"turn","result":{"decision":"accept"}}"#,
    ))
    .unwrap();
    let response = pending.respond(&reply).unwrap();
    assert_eq!(response.get("id").and_then(|v| v.as_u64()), Some(7));
    assert_eq!(pending.len(), 0);
    let again = pending.respond(&reply).unwrap_err();
    assert_eq!(again.status, 409);
    assert_eq!(again.message, "request no longer pending");
}

#[test]
fn unsupported_server_requests_are_refused() {
    let mut pending = PendingRequests::new();
    let message = parse(r#"{"id":3,"method":"something/else","params":{}}"#);
    match pending.receive(&message) {
        ReceiveOutcome::Refused(response) => {
            let error = response.get("error").unwrap();
            assert_eq!(error.get("code"), Some(&Json::Number(JsonNumber::NegInt(-32601))));
        }
        ReceiveOutcome::Registered(_) => panic!("an unsupported request is refused"),
    }
    assert_eq!(pending.len(), 0);
}

#[test]
fn at_most_a_bounded_number_of_requests_wait() {
    let mut pending = PendingRequests::new();
    for id in 0..MAX_PENDING_REQUESTS {
        let message = parse(&format!(
            r#"{{"id":{id},"method":"item/fileChange/requestApproval","params":{{"threadId":"t","turnId":"u"}}}}"#
        ));
        assert!(matches!(pending.receive(&message), ReceiveOutcome::Registered(_)));
    }
    let one_more = parse(
        r#"{"id":"extra","method":"item/fileChange/requestApproval","params":{"threadId":"t","turnId":"u"}}"#,
    );
    match pending.receive(&one_more) {
        ReceiveOutcome::Refused(response) => {
            let error = response.get("error").unwrap();
            assert_eq!(error.get("code"), Some(&Json::Number(JsonNumber::NegInt(-32000))));
            assert_eq!(
                response.get("id"),
                Some(&Json::Str("extra".to_string()))
            );
        }
        ReceiveOutcome::Registered(_) => panic!("a full table refuses new requests"),
    }
    assert_eq!(pending.len(), MAX_PENDING_REQUESTS);
}

#[test]
fn server_requests_are_announced_in_the_event_log() {
    use_log();
}

fn use_log() {
    let mut pending = PendingRequests::new();
    let mut events = baijimu_digital_employee_connector::event_store::EventLog::new("test-stream".to_string());
    let message = parse(
        r#"{"id":7,"method":"item/commandExecution/requestApproval","params":{"threadId":"thread","turnId":"turn","command":"cargo test"}}"#,
    );
    match baijimu_digital_employee_connector::server_requests::receive_server_request(
        &mut pending,
        &mut events,
        &message,
        "1".to_string(),
    ) {
        baijimu_digital_employee_connector::server_requests::ServerRequestOutcome::Announced(o) => {
            assert_eq!(o.event.method, "connector/serverRequest");
        }
        _ => panic!("a supported request is announced"),
    }
    assert_eq!(pending.len(), 1);
    let delivered = events.recent(&Json::Object(Vec::new()));
    let first = &delivered.get("events").and_then(|e| e.as_array()).unwrap()[0];
    assert_eq!(
        first.get("method"),
        Some(&Json::Str("connector/serverRequest".to_string()))
    );
    assert_eq!(
        first.get("params").and_then(|p| p.get("requestId")).and_then(|i| i.as_u64()),
        Some(7)
    );
    let unsupported = parse(r#"{"id":8,"method":"other","params":{}}"#);
    match baijimu_digital_employee_connector::server_requests::receive_server_request(
        &mut pending,
        &mut events,
        &unsupported,
        "2".to_string(),
    ) {
        baijimu_digital_employee_connector::server_requests::ServerRequestOutcome::Refused(_) => {}
        _ => panic!("an unsupported request is refused"),
    }
    assert_eq!(events.summary().0, 1);
}
