use baijimu_digital_employee_connector::cli::{parse_args, server_options, ServerEnv};
use baijimu_digital_employee_connector::json::{Json, JsonNumber};
use baijimu_digital_employee_connector::runtime::{
    check_token_read_back, connector_pid, daemon_args, daemon_report, event_id_from_bytes,
    health_accepted, health_request, health_response_body, new_management_token, not_stopped_report,
    pid_file_text, random_event_id, running_pid, started_pid, status_report, stopped_report,
    timestamp, token_from_bytes, usable_token, verified_connector_pid,
};

fn health(name: &str, pid: Json, ok: bool) -> Json {
    let connector = Json::Object(vec![("name".to_string(), Json::Str(name.to_string())), ("pid".to_string(), pid)]);
    let status = Json::Object(vec![("connector".to_string(), connector)]);
    Json::Object(vec![("ok".to_string(), Json::Bool(ok)), ("status".to_string(), status)])
}

const NAME: &str = "@baijimu/digital-employee-connector";

#[test]
fn only_this_connector_is_stopped() {
    assert_eq!(verified_connector_pid(&health(NAME, Json::Number(JsonNumber::PosInt(321)), true)), Ok(321));
    assert_eq!(
        verified_connector_pid(&health("other", Json::Number(JsonNumber::PosInt(321)), true)),
        Err("health endpoint does not belong to the Codex connector".to_string())
    );
    assert_eq!(
        verified_connector_pid(&health(NAME, Json::Number(JsonNumber::PosInt(1 << 40)), true)),
        Err("connector health response does not contain a valid pid".to_string())
    );
    assert_eq!(
        verified_connector_pid(&health(NAME, Json::Str("1".into()), true)),
        Err("connector health response does not contain a valid pid".to_string())
    );
}

#[test]
fn health_is_accepted_for_the_expected_process() {
    let body = health(NAME, Json::Number(JsonNumber::PosInt(55)), true);
    assert!(health_accepted(&body, None));
    assert!(health_accepted(&body, Some(55)));
    assert!(!health_accepted(&body, Some(56)));
    assert!(!health_accepted(&health(NAME, Json::Number(JsonNumber::PosInt(55)), false), None));
    assert_eq!(connector_pid(&body), Some(55));
    assert_eq!(started_pid(&body, 9), 55);
    assert_eq!(started_pid(&Json::Null, 9), 9);
    assert_eq!(running_pid(&body), Some(Json::Number(JsonNumber::PosInt(55))));
    assert_eq!(running_pid(&health(NAME, Json::Null, false)), None);
}

#[test]
fn health_checks_send_only_usable_tokens() {
    let token = "a".repeat(32);
    assert_eq!(
        health_request(Some(&format!(" {token}\n"))),
        format!("GET /healthz HTTP/1.1\r\nHost: 127.0.0.1\r\nAuthorization: Bearer {token}\r\nConnection: close\r\n\r\n")
    );
    assert_eq!(
        health_request(Some("short")),
        "GET /healthz HTTP/1.1\r\nHost: 127.0.0.1\r\nConnection: close\r\n\r\n"
    );
    assert_eq!(health_request(None), health_request(Some("")));
    assert_eq!(usable_token(Some(&"b".repeat(31))), None);
    assert_eq!(usable_token(Some(&"b".repeat(32))), Some("b".repeat(32)));
}

#[test]
fn health_responses_yield_their_body() {
    let response = b"HTTP/1.1 200 OK\r\nContent-Type: application/json\r\n\r\n{\"ok\":true}";
    assert_eq!(health_response_body(response), Ok("{\"ok\":true}".to_string()));
    assert_eq!(
        health_response_body(b"HTTP/1.0 200 OK\r\n\r\na\r\n\r\nb"),
        Ok("a".to_string())
    );
    assert_eq!(health_response_body(b"HTTP/1.1 200 OK\r\n"), Ok(String::new()));
    assert_eq!(
        health_response_body(b"HTTP/1.1 401 Unauthorized\r\n\r\n{}"),
        Err("HTTP/1.1 401 Unauthorized\r\n\r\n{}".to_string())
    );
    assert_eq!(
        health_response_body(&vec![b'x'; 65537]),
        Err("connector health response exceeds 65536 bytes".to_string())
    );
}

#[test]
fn daemons_restart_with_their_options() {
    let parsed = parse_args(&["start".to_string(), "--port".to_string(), "4100".to_string()]).unwrap();
    let env = ServerEnv { codex_args: None, listen: None, host: None, port: None, request_timeout_ms: None };
    let options = server_options(&parsed, &env, 1).unwrap();
    assert_eq!(
        daemon_args(&options),
        vec!["start", "--host", "127.0.0.1", "--port", "4100", "--listen", "stdio://"]
    );
    let report = daemon_report(Json::Number(JsonNumber::PosInt(8)), true, "127.0.0.1", 4100, "/l");
    assert_eq!(report.get("existing"), Some(&Json::Bool(true)));
    assert_eq!(report.get("url"), Some(&Json::Str("http://127.0.0.1:4100".to_string())));
    let fresh = daemon_report(Json::Number(JsonNumber::PosInt(8)), false, "127.0.0.1", 4100, "/l");
    assert_eq!(fresh.get("existing"), None);
    assert_eq!(pid_file_text(8), "8\n");
}

#[test]
fn reports_of_status_and_stop() {
    let status = status_report("/h/connector.pid", Some(" 12\n"), "/h/connector.log");
    assert_eq!(status.get("pid"), Some(&Json::Str("12".to_string())));
    assert_eq!(status_report("/p", None, "/l").get("pid"), Some(&Json::Null));
    assert_eq!(not_stopped_report().get("stopped"), Some(&Json::Bool(false)));
    assert_eq!(stopped_report(4).get("pid"), Some(&Json::Number(JsonNumber::PosInt(4))));
}

#[test]
fn identifiers_are_lower_case_hex() {
    assert_eq!(event_id_from_bytes(&[0x00, 0xab, 0x10]), "codex_evt_00ab10");
    assert_eq!(token_from_bytes(&[0xff, 0x01]), "ff01");
    let id = random_event_id().unwrap();
    assert!(id.starts_with("codex_evt_"));
    assert_eq!(id.len(), 42);
    assert!(id["codex_evt_".len()..].chars().all(|c| c.is_ascii_hexdigit() && !c.is_ascii_uppercase()));
    let token = new_management_token().unwrap();
    assert_eq!(token.len(), 64);
    assert_ne!(new_management_token().unwrap(), token);
    assert!(check_token_read_back(&format!("{token}\n"), &token).is_ok());
    assert!(check_token_read_back("other", &token).is_err());
    assert!(timestamp().chars().all(|c| c.is_ascii_digit()));
}

#[test]
fn extra_codex_arguments_travel_as_json_text() {
    let options = baijimu_digital_employee_connector::cli::ServerOptions {
        host: "127.0.0.1".to_string(),
        port: 4100,
        listen: "stdio://".to_string(),
        extra_args: vec!["--a".to_string(), "b c".to_string()],
        request_timeout_ms: 1,
        daemon: true,
    };
    let args = daemon_args(&options);
    assert_eq!(args[7], "--codex-args");
    assert_eq!(args[8], "[\"--a\",\"b c\"]");
    assert_eq!(args.len(), 9);
}

#[test]
fn the_employee_home_stays_out_of_the_desktop_codex_directory() {
    let refused = Some("数字员工运行目录不能指向用户桌面 Codex 目录".to_string());
    assert_eq!(baijimu_digital_employee_connector::runtime::check_employee_home("/home/u/.codex", Some("/home/u/.codex"), baijimu_digital_employee_connector::paths::PathStyle::Unix).err(), refused);
    assert_eq!(baijimu_digital_employee_connector::runtime::check_employee_home("/home/u/.codex/employee", Some("/home/u/.codex"), baijimu_digital_employee_connector::paths::PathStyle::Unix).err(), refused);
    assert!(baijimu_digital_employee_connector::runtime::check_employee_home("/home/u/.codexes", Some("/home/u/.codex"), baijimu_digital_employee_connector::paths::PathStyle::Unix).is_ok());
    assert!(baijimu_digital_employee_connector::runtime::check_employee_home("/home/u/app/runtime/codex", Some("/home/u/.codex"), baijimu_digital_employee_connector::paths::PathStyle::Unix).is_ok());
    assert!(baijimu_digital_employee_connector::runtime::check_employee_home("/home/u/app/runtime/codex", None, baijimu_digital_employee_connector::paths::PathStyle::Unix).is_ok());
    assert_eq!(baijimu_digital_employee_connector::runtime::check_employee_home("/anything", Some("/"), baijimu_digital_employee_connector::paths::PathStyle::Unix).err(), refused);
}

#[test]
fn the_employee_home_stays_out_of_the_desktop_codex_directory_on_windows() {
    use_windows();
}

fn use_windows() {
    let w = baijimu_digital_employee_connector::paths::PathStyle::Windows;
    let refused = Some("数字员工运行目录不能指向用户桌面 Codex 目录".to_string());
    let check = baijimu_digital_employee_connector::runtime::check_employee_home;
    assert_eq!(check("\\\\?\\C:\\Users\\u\\.codex\\runtime", Some("\\\\?\\C:\\Users\\u\\.codex"), w).err(), refused);
    assert_eq!(check("C:\\a\\b", Some("C:\\a"), w).err(), refused);
    assert_eq!(check("C:/a/b", Some("C:\\a"), w).err(), refused);
    assert!(check("C:\\ab", Some("C:\\a"), w).is_ok());
    assert!(check("C:\\a\\b", Some("C:\\a"), baijimu_digital_employee_connector::paths::PathStyle::Unix).is_ok());
}

#[test]
fn extra_codex_arguments_are_escaped_as_json_strings() {
    let options = baijimu_digital_employee_connector::cli::ServerOptions {
        host: "h".to_string(),
        port: 1,
        listen: "l".to_string(),
        extra_args: vec![
            "say \"hi\"".to_string(),
            "a\\b\tc\nd".to_string(),
            "\u{1}\u{8}\u{c}\r\u{1f}".to_string(),
            "中文/é".to_string(),
        ],
        request_timeout_ms: 1,
        daemon: true,
    };
    let args = daemon_args(&options);
    assert_eq!(
        args[8],
        "[\"say \\\"hi\\\"\",\"a\\\\b\\tc\\nd\",\"\\u0001\\b\\f\\r\\u001f\",\"中文/é\"]"
    );
    let single = baijimu_digital_employee_connector::cli::ServerOptions {
        extra_args: vec![String::new()],
        ..options
    };
    assert_eq!(daemon_args(&single)[8], "[\"\"]");
}
