use baijimu_digital_employee_connector::baijimu_cli::{binary, validate_binary_path};
use baijimu_digital_employee_connector::paths::PathStyle::{Unix, Windows};

#[test]
fn the_managed_cli_path_must_be_absolute_and_exist() {
    assert_eq!(
        validate_binary_path("baijimu", true, Unix).err().as_deref(),
        Some("DIGITAL_EMPLOYEE_CONNECTOR_BAIJIMU_BINARY 必须是绝对路径，不能依赖 PATH 查找")
    );
    assert_eq!(
        validate_binary_path("/opt/baijimu/bin/baijimu", false, Unix).err().as_deref(),
        Some("Bridge Agent 注入的 baijimu CLI 不存在：/opt/baijimu/bin/baijimu")
    );
    assert_eq!(
        validate_binary_path("/opt/baijimu/bin/baijimu", true, Unix),
        Ok("/opt/baijimu/bin/baijimu".to_string())
    );
}

#[test]
fn the_managed_cli_must_be_injected() {
    let missing = "Bridge Agent 未注入平台管理的 baijimu CLI 绝对路径；请升级或重启 Bridge Agent";
    assert_eq!(binary(None, false, Unix).err().as_deref(), Some(missing));
    assert_eq!(binary(Some(""), false, Unix).err().as_deref(), Some(missing));
    assert_eq!(binary(Some("/bin/baijimu"), true, Unix), Ok("/bin/baijimu".to_string()));
}

#[test]
fn windows_cli_paths_need_a_drive_or_unc_prefix() {
    assert!(validate_binary_path("C:\\Program Files\\baijimu.exe", true, Windows).is_ok());
    assert!(validate_binary_path("\\\\server\\share\\baijimu.exe", true, Windows).is_ok());
    assert!(validate_binary_path("\\baijimu.exe", true, Windows).is_err());
    assert!(validate_binary_path("C:baijimu.exe", true, Windows).is_err());
    assert!(validate_binary_path("C:\\baijimu.exe", true, Unix).is_err());
}
