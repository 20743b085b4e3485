use baijimu_digital_employee_connector::cli::{
    checkout_request, cli_command, parse_args, required_u64_arg, server_options, string_arg,
    to_camel_case, to_kebab_case, CliCommand, ServerEnv, DEFAULT_HOST, DEFAULT_LISTEN,
    DEFAULT_REQUEST_TIMEOUT_MS,
};

fn args(words: &[&str]) -> Vec<String> {
    words.iter().map(|w| w.to_string()).collect()
}

fn no_env() -> ServerEnv {
    ServerEnv { codex_args: None, listen: None, host: None, port: None, request_timeout_ms: None }
}

#[test]
fn option_names_change_case_both_ways() {
    assert_eq!(to_camel_case("codex-binary"), "codexBinary");
    assert_eq!(to_camel_case("request-timeout-ms"), "requestTimeoutMs");
    assert_eq!(to_camel_case("port"), "port");
    assert_eq!(to_camel_case("a--b"), "aB");
    assert_eq!(to_camel_case("trailing-"), "trailing");
    assert_eq!(to_kebab_case("workspaceId"), "workspace-id");
    assert_eq!(to_kebab_case("requestTimeoutMs"), "request-timeout-ms");
    for name in ["workspace-id", "project-id", "branch", "request-timeout-ms"] {
        assert_eq!(to_kebab_case(&to_camel_case(name)), name);
    }
}

#[test]
fn the_first_word_is_the_command() {
    let parsed = parse_args(&args(&["start", "--port", "4100", "--daemon", "extra"])).unwrap();
    assert_eq!(parsed.command, "start");
    assert!(parsed.daemon);
    assert_eq!(string_arg(&parsed, "port").as_deref(), Some("4100"));
    assert!(matches!(cli_command(&parsed), Ok(CliCommand::Start)));

    let empty = parse_args(&[]).unwrap();
    assert_eq!(empty.command, "help");
    assert!(matches!(cli_command(&empty), Ok(CliCommand::Help)));

    let version = parse_args(&args(&["start", "--version"])).unwrap();
    assert_eq!(version.command, "--version");
    assert!(matches!(cli_command(&version), Ok(CliCommand::Version)));

    let unknown = parse_args(&args(&["launch"])).unwrap();
    assert_eq!(cli_command(&unknown).err().as_deref(), Some("unknown command: launch"));
}

#[test]
fn inline_values_and_missing_values() {
    let parsed = parse_args(&args(&["checkout-project", "--workspace-id=3", "--project-id", "9"])).unwrap();
    assert_eq!(string_arg(&parsed, "workspaceId").as_deref(), Some("3"));
    assert_eq!(string_arg(&parsed, "projectId").as_deref(), Some("9"));
    assert_eq!(
        parse_args(&args(&["start", "--host"])).err().as_deref(),
        Some("missing value for --host")
    );
    assert_eq!(
        parse_args(&args(&["start", "--codex-binary", "/bin/codex"])).err().as_deref(),
        Some("--codex-binary is no longer supported; Codex CLI discovery is automatic")
    );
    let later = parse_args(&args(&["start", "--host", "a", "--host", "b"])).unwrap();
    assert_eq!(string_arg(&later, "host").as_deref(), Some("b"));
}

#[test]
fn required_ids_are_positive_integers() {
    let parsed = parse_args(&args(&["checkout-project", "--workspace-id", " 7 ", "--project-id", "0", "--branch", "  "])).unwrap();
    assert_eq!(required_u64_arg(&parsed, "workspaceId"), Ok(7));
    assert_eq!(
        required_u64_arg(&parsed, "projectId").err().as_deref(),
        Some("--project-id must be greater than zero")
    );
    assert_eq!(
        required_u64_arg(&parsed, "missingKey").err().as_deref(),
        Some("--missing-key is required")
    );
    assert_eq!(string_arg(&parsed, "branch"), None);
    let bad = parse_args(&args(&["x", "--project-id", "seven"])).unwrap();
    assert_eq!(
        required_u64_arg(&bad, "projectId").err().as_deref(),
        Some("--project-id must be a positive integer")
    );
    let request = checkout_request(
        &parse_args(&args(&["checkout-project", "--workspace-id", "2", "--project-id", "5", "--branch", " main "])).unwrap(),
    )
    .unwrap();
    assert_eq!(request.workspace_id, 2);
    assert_eq!(request.project_id, 5);
    assert_eq!(request.branch.as_deref(), Some("main"));
}

#[test]
fn server_options_fall_back_on_environment_then_defaults() {
    let parsed = parse_args(&args(&["start"])).unwrap();
    let options = server_options(&parsed, &no_env(), 4310).unwrap();
    assert_eq!(options.host, DEFAULT_HOST);
    assert_eq!(options.port, 4310);
    assert_eq!(options.listen, DEFAULT_LISTEN);
    assert_eq!(options.request_timeout_ms, DEFAULT_REQUEST_TIMEOUT_MS);
    assert!(options.extra_args.is_empty());
    assert!(!options.daemon);

    let env = ServerEnv {
        codex_args: None,
        listen: Some("stdio://".to_string()),
        host: Some("::1".to_string()),
        port: Some("5000".to_string()),
        request_timeout_ms: Some("1500".to_string()),
    };
    let options = server_options(&parsed, &env, 4310).unwrap();
    assert_eq!(options.host, "::1");
    assert_eq!(options.port, 5000);
    assert_eq!(options.request_timeout_ms, 1500);

    let with_options = parse_args(&args(&["start", "--port", "6000", "--request-timeout-ms", "soon", "--daemon"])).unwrap();
    let options = server_options(&with_options, &env, 4310).unwrap();
    assert_eq!(options.port, 6000);
    assert_eq!(options.request_timeout_ms, 1500);
    assert!(options.daemon);
}

#[test]
fn other_transports_and_extra_arguments_are_refused() {
    let refused = "不支持切换 transport 或自定义 Codex 启动参数";
    let listen = parse_args(&args(&["start", "--listen", "ws://127.0.0.1:1"])).unwrap();
    assert_eq!(server_options(&listen, &no_env(), 1).err().as_deref(), Some(refused));
    let extra = parse_args(&args(&["start", "--codex-args", "[\"--x\"]"])).unwrap();
    assert_eq!(server_options(&extra, &no_env(), 1).err().as_deref(), Some(refused));
    let empty = parse_args(&args(&["start", "--codex-args", "[]"])).unwrap();
    assert!(server_options(&empty, &no_env(), 1).is_ok());
    let broken = parse_args(&args(&["start", "--codex-args", "[oops"])).unwrap();
    assert!(server_options(&broken, &no_env(), 1).is_err());
    let mut env = no_env();
    env.listen = Some("tcp://x".to_string());
    let plain = parse_args(&args(&["start"])).unwrap();
    assert_eq!(server_options(&plain, &env, 1).err().as_deref(), Some(refused));
}

#[test]
fn ports_must_be_in_range() {
    let message = Some("port must be an integer in 1..65535");
    for port in ["0", "65536", "-1", "http"] {
        let parsed = parse_args(&args(&["start", "--port", port])).unwrap();
        assert_eq!(server_options(&parsed, &no_env(), 1).err().as_deref(), message);
    }
    let parsed = parse_args(&args(&["start", "--port", "+65535"])).unwrap();
    assert_eq!(server_options(&parsed, &no_env(), 1).unwrap().port, 65535);
}

#[test]
fn option_names_in_messages_are_those_written() {
    let parsed = parse_args(&args(&["checkout-project", "--workspace-id", "x"])).unwrap();
    assert_eq!(
        required_u64_arg(&parsed, &to_camel_case("workspace-id")).err().as_deref(),
        Some("--workspace-id must be a positive integer")
    );
    assert_eq!(to_camel_case("é-é"), "éÉ");
    assert_eq!(to_camel_case("x-ß"), "xSS");
}
