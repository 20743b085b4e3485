use baijimu_digital_employee_connector::codex_binary::{
    inspect, inspect_version, is_transient_executable_busy, parse_version_output,
    protocol_minimum, retry_command, CliInspection, CommandError, CommandOutcome, SemVer, COMMAND,
};
use baijimu_digital_employee_connector::json::Json;

fn exited(success: bool, status: &str, stdout: &str, stderr: &str) -> CommandOutcome {
    CommandOutcome::Exited {
        success,
        status: status.to_string(),
        stdout: stdout.as_bytes().to_vec(),
        stderr: stderr.as_bytes().to_vec(),
    }
}

#[test]
fn inspects_the_same_command_for_version_and_app_server() {
    let version_run = exited(true, "exit status: 0", "codex-cli 1.2.3\n", "");
    let app_server_run = exited(true, "exit status: 0", "", "");

    let inspection = inspect(&version_run, &app_server_run).expect("inspect");

    assert_eq!(inspection.version.as_deref(), Some("codex-cli 1.2.3"));
    assert!(inspection.app_server_supported);
}

#[test]
fn parses_stable_and_prerelease_cli_versions() {
    assert_eq!(
        parse_version_output("codex-cli 0.149.0"),
        Some(SemVer::new(0, 149, 0))
    );
    assert_eq!(
        parse_version_output("codex-cli 0.149.0-alpha.4.1"),
        SemVer::parse("0.149.0-alpha.4.1")
    );
    assert_eq!(parse_version_output("codex-cli unknown"), None);
}

#[test]
fn recognizes_linux_text_file_busy_as_a_transient_execution_error() {
    assert!(is_transient_executable_busy(
        std::io::Error::from_raw_os_error(libc::ETXTBSY).raw_os_error(),
        Some(libc::ETXTBSY)
    ));
    assert!(!is_transient_executable_busy(
        std::io::Error::from_raw_os_error(libc::ENOENT).raw_os_error(),
        Some(libc::ETXTBSY)
    ));
    assert!(!is_transient_executable_busy(
        std::io::Error::from_raw_os_error(libc::ETXTBSY).raw_os_error(),
        None
    ));
}

#[test]
fn reports_app_server_capability_failure_without_selecting_another_command() {
    let version_run = exited(true, "exit status: 0", "codex-cli 1.2.3\n", "");
    let app_server_run = exited(false, "exit status: 3", "", "");

    let inspection = inspect(&version_run, &app_server_run).expect("inspect");

    assert!(!inspection.app_server_supported);
    assert!(inspection
        .error
        .as_deref()
        .is_some_and(|error| error.contains("退出状态")));
}

#[test]
fn unavailable_command_error_names_the_path_contract() {
    let missing = CommandOutcome::Failed(
        std::io::Error::from(std::io::ErrorKind::NotFound).to_string(),
    );
    let error = inspect(&missing, &missing).expect_err("missing command must fail");

    assert!(error.message().contains("当前进程 PATH"));
    assert_eq!(
        error.data_value().get("command").and_then(|c| c.as_str()).map(|s| s.as_str()),
        Some(COMMAND)
    );
}

#[test]
fn version_words_may_carry_a_leading_v() {
    assert_eq!(
        parse_version_output("codex v1.2.3 (build)"),
        Some(SemVer::new(1, 2, 3))
    );
    assert_eq!(
        parse_version_output("vv0.150.1"),
        Some(SemVer::new(0, 150, 1))
    );
    assert_eq!(parse_version_output(""), None);
}

#[test]
fn protocol_minimum_is_checked_against_the_announced_version() {
    let minimum = protocol_minimum();
    assert_eq!(minimum, SemVer::new(0, 149, 0));
    let recent = CliInspection {
        version: Some("codex-cli 0.150.0".to_string()),
        app_server_supported: true,
        error: None,
    };
    let old = CliInspection {
        version: Some("codex-cli 0.148.9".to_string()),
        app_server_supported: true,
        error: None,
    };
    let prerelease = CliInspection {
        version: Some("codex-cli 0.149.0-alpha.4.1".to_string()),
        app_server_supported: true,
        error: None,
    };
    let exact = CliInspection {
        version: Some("codex-cli 0.149.0".to_string()),
        app_server_supported: true,
        error: None,
    };
    let no_app_server = CliInspection {
        version: Some("codex-cli 0.150.0".to_string()),
        app_server_supported: false,
        error: None,
    };
    assert!(recent.satisfies(&minimum));
    assert!(exact.satisfies(&minimum));
    assert!(!old.satisfies(&minimum));
    assert!(!prerelease.satisfies(&minimum));
    assert!(!no_app_server.satisfies(&minimum));
    assert!(!CliInspection::default().satisfies(&minimum));
}

#[test]
fn version_run_errors_name_the_failure() {
    let failed = CommandOutcome::Failed("permission denied".to_string());
    assert_eq!(
        inspect_version(&failed).unwrap_err().reason,
        "执行 codex --version 失败：permission denied"
    );
    let exit = exited(false, "exit status: 2", "", "");
    assert_eq!(
        inspect_version(&exit).unwrap_err().reason,
        "codex --version 退出状态为 exit status: 2"
    );
    let stderr_only = exited(true, "exit status: 0", "  \n", " codex 1.0.0 \n");
    assert_eq!(
        inspect_version(&stderr_only).unwrap().as_deref(),
        Some("codex 1.0.0")
    );
    let silent = exited(true, "exit status: 0", "", "");
    assert_eq!(inspect_version(&silent).unwrap(), None);
}

#[test]
fn app_server_start_failure_is_recorded() {
    let version_run = exited(true, "exit status: 0", "codex-cli 1.2.3", "");
    let failed = CommandOutcome::Failed("No such file".to_string());
    let inspection = inspect(&version_run, &failed).unwrap();
    assert!(!inspection.app_server_supported);
    assert_eq!(inspection.error.as_deref(), Some("No such file"));
}

#[test]
fn command_error_text_and_status() {
    let error = CommandError { reason: "boom".to_string() };
    assert_eq!(
        error.message(),
        "无法通过当前进程 PATH 执行 Codex CLI 命令“codex”（boom）。请确认宿主已向连接器注入当前用户 PATH"
    );
    let status = error.status_value();
    assert_eq!(status.get("appServerSupported"), Some(&Json::Null));
    assert_eq!(
        status.get("error").and_then(|e| e.as_str()).map(|s| s.as_str()),
        Some(error.message().as_str())
    );
    assert_eq!(
        status.get("mode").and_then(|e| e.as_str()).map(|s| s.as_str()),
        Some("path")
    );
    let inspection = CliInspection {
        version: Some("codex-cli 1.2.3".to_string()),
        app_server_supported: true,
        error: None,
    };
    let value = inspection.status_value();
    assert_eq!(value.get("appServerSupported"), Some(&Json::Bool(true)));
    assert_eq!(value.get("inspectionError"), Some(&Json::Null));
    assert_eq!(value.get("checkedPaths"), Some(&Json::Array(Vec::new())));
    assert_eq!(
        value.get("resolved").and_then(|e| e.as_str()).map(|s| s.as_str()),
        Some("codex")
    );
}

#[test]
fn busy_executables_are_retried_a_bounded_number_of_times() {
    let busy = Some(libc::ETXTBSY);
    assert!(retry_command(Some(libc::ETXTBSY), busy, 1));
    assert!(retry_command(Some(libc::ETXTBSY), busy, 4));
    assert!(!retry_command(Some(libc::ETXTBSY), busy, 5));
    assert!(!retry_command(Some(libc::ENOENT), busy, 1));
    assert!(!retry_command(None, busy, 1));
    assert!(!retry_command(Some(libc::ETXTBSY), None, 1));
}
