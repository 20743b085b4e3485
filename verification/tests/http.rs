use baijimu_digital_employee_connector::http::{
    body_expected, envelope, find_headers_end, header_block, health_body, invalid_request_body,
    invoke_route, management_action, management_authorized, missing_workspace, not_supported,
    parse_content_length, parse_request, reason_phrase, response_head, route, unauthorized_body,
    HttpError, InvokeRoute, ManagementAction, Route,
};
use baijimu_digital_employee_connector::json::Json;

const TOKEN: &str = "0123456789abcdef0123456789abcdef";

fn text<'a>(j: &'a Json, key: &str) -> Option<&'a str> {
    j.get(key).and_then(|v| v.as_str()).map(|s| s.as_str())
}

#[test]
fn the_head_ends_at_the_first_blank_line() {
    assert_eq!(find_headers_end(b"GET / HTTP/1.1\r\nHost: x\r\n\r\nbody\r\n\r\n"), Some(23));
    assert_eq!(find_headers_end(b"GET / HTTP/1.1\r\n"), None);
    assert_eq!(find_headers_end(b"\r\n\r"), None);
    assert_eq!(find_headers_end(b"\r\n\r\n"), Some(0));
    assert_eq!(header_block(&vec![b'a'; 65537]), Err("HTTP headers too large".to_string()));
    assert_eq!(header_block(b"x\r\n\r\n"), Ok(Some(1)));
}

#[test]
fn content_length_is_read_from_any_header_case() {
    assert_eq!(parse_content_length(b"POST / HTTP/1.1\r\ncontent-LENGTH:  12 "), Some(12));
    assert_eq!(parse_content_length(b"POST / HTTP/1.1\r\nHost: x"), None);
    assert_eq!(parse_content_length(b"POST / HTTP/1.1\r\nContent-Length: abc"), None);
    let big = b"POST / HTTP/1.1\r\nContent-Length: 8388609\r\n\r\n";
    assert_eq!(body_expected(big, big.len() - 4), Err("HTTP body too large".to_string()));
    let ok = b"POST / HTTP/1.1\r\nContent-Length: 2\r\n\r\n";
    assert_eq!(body_expected(ok, ok.len() - 4), Ok(2));
}

#[test]
fn requests_are_read_with_their_trusted_headers() {
    let raw = b"POST /invoke/status?x=1 HTTP/1.1\r\nAuthorization: Bearer abc \r\nX-Baijimu-Workspace-Id: 12\r\n\r\n{}";
    let end = find_headers_end(raw).unwrap();
    let request = parse_request(raw, end, 2).unwrap();
    assert_eq!(request.method, "POST");
    assert_eq!(request.path, "/invoke/status?x=1");
    assert_eq!(request.authorization.as_deref(), Some("Bearer abc"));
    assert_eq!(request.workspace_id, Some(12));
    assert_eq!(request.body, b"{}".to_vec());

    assert_eq!(
        parse_request(raw, end, 3).err().as_deref(),
        Some("HTTP body length mismatch")
    );
    let zero = b"GET / HTTP/1.1\r\nx-baijimu-workspace-id: 0\r\n\r\n";
    let end = find_headers_end(zero).unwrap();
    assert_eq!(parse_request(zero, end, 0).unwrap().workspace_id, None);
    let bad = b"GET / HTTP/1.1\r\nx-baijimu-workspace-id: -1\r\n\r\n";
    let end = find_headers_end(bad).unwrap();
    assert_eq!(
        parse_request(bad, end, 0).err().as_deref(),
        Some("x-baijimu-workspace-id must be a positive integer")
    );
}

#[test]
fn only_health_checks_are_public() {
    let bearer = format!("Bearer {TOKEN}");
    assert!(matches!(route("GET", "/healthz", None, TOKEN, None), Route::Health));
    assert!(matches!(route("GET", "/readyz?probe=1", None, TOKEN, None), Route::Health));
    assert!(matches!(route("POST", "/healthz", None, TOKEN, None), Route::Unauthorized));
    assert!(matches!(
        route("GET", "/management/v1/setup/state", Some("Bearer wrong"), TOKEN, None),
        Route::Unauthorized
    ));
    assert!(matches!(
        route("POST", "/invoke/status", Some(&bearer), TOKEN, None),
        Route::MissingWorkspace
    ));
    match route("POST", "/invoke/status?a=b", Some(&bearer), TOKEN, Some(4)) {
        Route::Invoke { path, workspace } => {
            assert_eq!(path, "/invoke/status");
            assert_eq!(workspace, 4);
        }
        _ => panic!("an authorised invocation with a workspace is routed"),
    }
    match route("GET", "/management/v1/setup/state", Some(&bearer), TOKEN, None) {
        Route::Management { path } => assert_eq!(path, "/management/v1/setup/state"),
        _ => panic!("an authorised management request is routed"),
    }
}

#[test]
fn the_token_must_match_exactly() {
    let bearer = format!("Bearer {TOKEN}");
    assert!(management_authorized(Some(&bearer), TOKEN));
    assert!(!management_authorized(Some(TOKEN), TOKEN));
    assert!(!management_authorized(Some(&format!("{bearer}x")), TOKEN));
    assert!(!management_authorized(Some("bearer 0123456789abcdef0123456789abcdef"), TOKEN));
    assert!(!management_authorized(None, TOKEN));
}

#[test]
fn management_requests_are_dispatched_by_method_and_path() {
    assert_eq!(management_action("GET", "/management/v1/setup/state"), ManagementAction::Status);
    assert_eq!(
        management_action("POST", "/management/v1/setup/ensure-ready"),
        ManagementAction::Status
    );
    assert_eq!(
        management_action("POST", "/management/v1/projects/checkout"),
        ManagementAction::Checkout
    );
    assert_eq!(
        management_action("GET", "/management/v1/projects/checkout"),
        ManagementAction::NotSupported
    );
    assert_eq!(invoke_route("/invoke/prepareProject"), InvokeRoute::PrepareProject);
    assert_eq!(invoke_route("/invoke/status"), InvokeRoute::Status);
    assert_eq!(invoke_route("/invoke/startThread"), InvokeRoute::Codex);
}

#[test]
fn responses_carry_their_envelope() {
    let (status, body) = envelope(&Ok(Json::Bool(true)));
    assert_eq!(status, 200);
    assert_eq!(body.get("ok"), Some(&Json::Bool(true)));
    assert_eq!(body.get("data"), Some(&Json::Bool(true)));

    let (status, body) = envelope(&Err(not_supported("/nope")));
    assert_eq!(status, 404);
    assert_eq!(body.get("ok"), Some(&Json::Bool(false)));
    let error = body.get("error").unwrap();
    assert_eq!(text(error, "code"), Some("METHOD_NOT_SUPPORTED"));
    assert_eq!(text(error.get("data").unwrap(), "path"), Some("/nope"));

    let (status, body) = envelope(&Err(HttpError::new(400, "bad")));
    assert_eq!(status, 400);
    assert_eq!(body.get("error").unwrap().get("code"), Some(&Json::Null));

    let missing = missing_workspace();
    assert_eq!(missing.status, 400);
    assert_eq!(missing.code, Some(Json::Str("WORKSPACE_CONTEXT_REQUIRED".to_string())));

    let unauthorized = unauthorized_body();
    assert_eq!(text(unauthorized.get("error").unwrap(), "code"), Some("UNAUTHORIZED"));
    let invalid = invalid_request_body("connection closed");
    assert_eq!(text(invalid.get("error").unwrap(), "message"), Some("connection closed"));

    let health = health_body(42);
    let connector = health.get("status").unwrap().get("connector").unwrap();
    assert_eq!(text(connector, "name"), Some("@baijimu/digital-employee-connector"));
    assert_eq!(connector.get("pid").and_then(|p| p.as_u64()), Some(42));
}

#[test]
fn response_heads_name_status_and_length() {
    assert_eq!(
        response_head(404, 17),
        "HTTP/1.1 404 Not Found\r\nContent-Type: application/json; charset=utf-8\r\nContent-Length: 17\r\nConnection: close\r\n\r\n"
    );
    assert_eq!(reason_phrase(409), "Conflict");
    assert_eq!(reason_phrase(418), "OK");
    assert_eq!(HttpError::internal("x").status, 500);
}
