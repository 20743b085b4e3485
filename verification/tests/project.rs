use baijimu_digital_employee_connector::json::{Json, JsonNumber};
use baijimu_digital_employee_connector::project_checkout::{
    check_branch, check_origin, check_owner, checkout_args, checkout_directory_names,
    checkout_failure, checkout_location, PROJECTS_ROOT_NOT_ABSOLUTE, existing_checkout_result, fresh_checkout_result, git_result,
    git_start_error, required_json_string, validate_request, CheckoutRequest,
};
use baijimu_digital_employee_connector::paths::PathStyle::{Unix, Windows};
use baijimu_digital_employee_connector::project_preparation::{
    check_absolute_directory, check_destination, check_new_directory_name, checkout_prepared,
    creation_failure, local_directory, prepare, PrepareProject, PreparationStep,
};

fn request(workspace_id: u64, project_id: u64, branch: Option<&str>) -> CheckoutRequest {
    CheckoutRequest { workspace_id, project_id, branch: branch.map(|b| b.to_string()) }
}

fn object(members: &[(&str, Json)]) -> Json {
    Json::Object(
        members
            .iter()
            .map(|(k, v)| (k.to_string(), v.copy()))
            .collect(),
    )
}

#[test]
fn preparation_needs_a_trusted_workspace() {
    assert!(prepare(0, PrepareProject::LocalDirectory { directory: "/".into() }, Unix).is_err());
    let error = prepare(0, PrepareProject::WorkspaceProject { project_id: 7 }, Unix).err().unwrap();
    assert_eq!(error.status, 400);
    assert_eq!(error.message, "缺少可信工作区");
}

#[test]
fn new_directory_names_must_be_single_components() {
    for name in ["", "..", ".", "../escape", "/absolute", "nested/child", "C:drive", "back\\slash", " padded", "tab\t"] {
        assert!(check_new_directory_name(name).is_err(), "{name:?} must be refused");
    }
    assert!(check_new_directory_name("新项目").is_ok());
    assert!(check_new_directory_name("...").is_ok());
    let refused = prepare(
        3,
        PrepareProject::NewLocalDirectory { parent: "/work".into(), name: "../escape".into() },
        Unix,
    )
    .err()
    .unwrap();
    assert_eq!(refused.message, "新项目名称必须是单个目录名");
    match prepare(3, PrepareProject::NewLocalDirectory { parent: "/work".into(), name: "新项目".into() }, Unix) {
        Ok(PreparationStep::CreateDirectory { parent, name }) => {
            assert_eq!(parent, "/work");
            assert_eq!(name, "新项目");
        }
        _ => panic!("a valid new directory is created"),
    }
}

#[test]
fn directories_must_be_absolute_clean_and_short() {
    assert!(check_absolute_directory("/work/project", Unix).is_ok());
    assert!(check_absolute_directory("relative", Unix).is_err());
    assert!(check_absolute_directory("/work/ ", Unix).is_err());
    assert!(check_absolute_directory("/work\n", Unix).is_err());
    let long = format!("/{}", "a".repeat(1023));
    assert!(check_absolute_directory(&long, Unix).is_ok());
    let too_long = format!("/{}", "a".repeat(1024));
    assert!(check_absolute_directory(&too_long, Unix).is_err());
    let wide = format!("/{}", "项".repeat(341));
    assert!(check_absolute_directory(&wide, Unix).is_ok());
    let too_wide = format!("/{}", "项".repeat(342));
    assert!(check_absolute_directory(&too_wide, Unix).is_err());
    let error = prepare(1, PrepareProject::LocalDirectory { directory: "relative".into() }, Unix)
        .err()
        .unwrap();
    assert_eq!(error.message, "必须提供设备上的绝对目录路径");
    match prepare(1, PrepareProject::LocalDirectory { directory: "/work".into() }, Unix) {
        Ok(PreparationStep::UseDirectory { directory }) => assert_eq!(directory, "/work"),
        _ => panic!("an absolute directory is used"),
    }
}

#[test]
fn workspace_projects_are_checked_out_for_the_header_workspace() {
    match prepare(9, PrepareProject::WorkspaceProject { project_id: 4 }, Unix) {
        Ok(PreparationStep::Checkout { request }) => {
            assert_eq!(request.workspace_id, 9);
            assert_eq!(request.project_id, 4);
            assert!(request.branch.is_none());
        }
        _ => panic!("a workspace project is checked out"),
    }
    let error = prepare(9, PrepareProject::WorkspaceProject { project_id: 0 }, Unix).err().unwrap();
    assert_eq!(error.message, "projectId 必须大于零");
}

#[test]
fn resolved_directories_become_prepared_projects() {
    let prepared = local_directory(Some("/work/a")).unwrap();
    assert_eq!(prepared.directory, "/work/a");
    assert_eq!(prepared.project_id, None);
    assert_eq!(local_directory(None).err().unwrap().message, "目录路径不是有效 UTF-8");
    let long = format!("/{}", "a".repeat(1024));
    assert_eq!(local_directory(Some(&long)).err().unwrap().message, "目录路径超过会话长度限制");
    assert!(check_destination(Some("/work/new")).is_ok());
    assert!(check_destination(None).is_err());
    assert_eq!(creation_failure(true, "exists").status, 409);
    assert_eq!(creation_failure(false, "denied").status, 400);
    assert_eq!(creation_failure(false, "denied").message, "创建项目目录失败: denied");
    let failed = checkout_prepared(4, Err("boom".to_string())).err().unwrap();
    assert_eq!(failed.status, 500);
    assert_eq!(failed.message, "boom");
}

#[test]
fn checkout_requests_need_positive_ids() {
    assert!(validate_request(&request(1, 2, None)).is_ok());
    assert_eq!(
        validate_request(&request(0, 2, None)).err().as_deref(),
        Some("workspaceId和projectId必须大于0")
    );
    assert!(validate_request(&request(1, 0, None)).is_err());
    let (w, p) = checkout_directory_names(&request(12, 34, None));
    assert_eq!(w, "workspace-12");
    assert_eq!(p, "project-34");
}

#[test]
fn checkout_arguments_carry_a_requested_branch() {
    assert_eq!(
        checkout_args(&request(2, 7, Some(" feature ")), "/p/workspace-2/project-7"),
        vec![
            "project", "checkout", "7", "--workspace-id", "2", "--directory",
            "/p/workspace-2/project-7", "--branch", "feature"
        ]
    );
    assert_eq!(
        checkout_args(&request(2, 7, Some("   ")), "/d"),
        vec!["project", "checkout", "7", "--workspace-id", "2", "--directory", "/d"]
    );
    assert_eq!(checkout_failure(b" denied \n"), "平台项目检出失败: denied");
}

#[test]
fn fresh_checkouts_report_branch_and_remote() {
    let report = object(&[
        ("branch", Json::Str(" codex/main ".into())),
        ("remoteUrl", Json::Str("https://x/git/v1/workspaces/2/projects/7.git".into())),
    ]);
    let result = fresh_checkout_result(&request(2, 7, None), "/d", report).unwrap();
    assert_eq!(result.branch, "codex/main");
    assert!(!result.reused);
    let missing = object(&[("branch", Json::Str("b".into()))]);
    assert_eq!(
        fresh_checkout_result(&request(2, 7, None), "/d", missing).err().as_deref(),
        Some("baijimu project checkout 响应缺少remoteUrl")
    );
    let blank = object(&[("branch", Json::Str("  ".into()))]);
    assert_eq!(
        required_json_string(&blank, "branch").err().as_deref(),
        Some("baijimu project checkout 响应缺少branch")
    );
}

#[test]
fn existing_checkouts_must_belong_to_the_request() {
    let r = request(2, 7, None);
    assert!(check_owner(&r, "2", "7", "/d").is_ok());
    assert_eq!(
        check_owner(&r, "2", "8", "/d").err().as_deref(),
        Some("目标目录已存在但不属于请求的平台项目，拒绝复用: /d")
    );
    assert!(check_origin(&r, "https://git.example/git/v1/workspaces/2/projects/7.git").is_ok());
    assert_eq!(
        check_origin(&r, "https://git.example/git/v1/workspaces/2/projects/8.git").err().as_deref(),
        Some("现有项目 origin 与请求的平台项目不一致，拒绝复用")
    );
    assert_eq!(
        check_origin(&r, "not a url").err().as_deref(),
        Some("现有项目 origin URL 无效")
    );
    assert_eq!(git_result(true, b" 2\n", b""), Ok("2".to_string()));
    assert_eq!(
        git_result(false, b"", b"fatal: not a git repository\n"),
        Err("现有目录不是有效的平台 Git checkout: fatal: not a git repository".to_string())
    );
    assert_eq!(
        git_start_error(&vec!["config".to_string(), "--get".to_string(), "baijimu.projectId".to_string()]),
        "执行 git config --get baijimu.projectId 失败"
    );
}

#[test]
fn existing_branches_stay_in_the_codex_namespace() {
    assert!(check_branch(&request(2, 7, None), "codex/main").is_ok());
    assert_eq!(
        check_branch(&request(2, 7, None), "main").err().as_deref(),
        Some("现有项目当前分支不在 codex 命名空间，拒绝作为 Codex 工作区")
    );
    assert!(check_branch(&request(2, 7, Some("codex/main")), "codex/main").is_ok());
    assert!(check_branch(&request(2, 7, Some("main")), "codex/feature/main").is_ok());
    assert_eq!(
        check_branch(&request(2, 7, Some("codex/other")), "codex/main").err().as_deref(),
        Some("现有项目分支与请求分支不一致: current=codex/main, requested=codex/other")
    );
    assert!(check_branch(&request(2, 7, Some("other")), "codex/main").is_err());
    let reused = existing_checkout_result(&request(2, 7, None), "/d", "codex/main", "https://r");
    assert!(reused.reused);
    assert_eq!(
        reused.checkout.get("projectId"),
        Some(&Json::Number(JsonNumber::PosInt(7)))
    );
}

#[test]
fn windows_directories_need_a_drive_or_unc_prefix() {
    assert!(check_absolute_directory("C:\\work\\project", Windows).is_ok());
    assert!(check_absolute_directory("\\\\?\\C:\\work", Windows).is_ok());
    assert!(check_absolute_directory("/work", Windows).is_err());
    assert!(check_absolute_directory("C:work", Windows).is_err());
    assert!(prepare(1, PrepareProject::LocalDirectory { directory: "D:\\p".into() }, Windows).is_ok());
}

#[test]
fn project_preparation_rejects_workspace_spoofing_and_unknown_fields() {
    assert!(prepare(
        0,
        PrepareProject::LocalDirectory {
            directory: "/".into()
        },
        Unix
    )
    .is_err());
}

#[test]
fn checkouts_need_an_absolute_projects_root() {
    assert_eq!(
        checkout_location(&request(3, 9, None), "/data/projects", Unix).unwrap(),
        ("workspace-3".to_string(), "project-9".to_string())
    );
    assert_eq!(
        checkout_location(&request(3, 9, None), "data/projects", Unix).err(),
        Some(PROJECTS_ROOT_NOT_ABSOLUTE.to_string())
    );
    assert_eq!(
        checkout_location(&request(0, 9, None), "data/projects", Unix).err(),
        Some("workspaceId和projectId必须大于0".to_string())
    );
    assert!(checkout_location(&request(3, 9, None), "C:\\data\\projects", Windows).is_ok());
    assert!(checkout_location(&request(3, 9, None), "\\\\server\\share", Windows).is_ok());
    assert!(checkout_location(&request(3, 9, None), "\\data\\projects", Windows).is_err());
    assert_eq!(
        checkout_location(&request(3, 9, None), "/data/projects", Windows).err(),
        Some(PROJECTS_ROOT_NOT_ABSOLUTE.to_string())
    );
}
