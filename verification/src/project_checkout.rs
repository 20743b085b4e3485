//! Checking out a platform project into the connector's project directory,
//! and deciding whether an existing checkout may be reused.
use vstd::prelude::*;

use crate::json::{entries_view, jobject, jstr, ju64, lemma_entries_view, Json, JsonView};
use crate::paths::{absolute, is_absolute, PathStyle};
use crate::text::{
    chars_of, concat, decimal, lossy_text, starts_with, starts_with_view, str_eq, string_of, trim,
    trim_view, u64_to_decimal, utf8_lossy,
};

verus! {

/// A request to check out one project of one workspace.
#[derive(Clone, Debug)]
pub struct CheckoutRequest {
    pub workspace_id: u64,
    pub project_id: u64,
    pub branch: Option<String>,
}

pub struct CheckoutRequestView {
    pub workspace_id: u64,
    pub project_id: u64,
    pub branch: Option<Seq<char>>,
}

pub open spec fn opt_text(s: Option<String>) -> Option<Seq<char>> {
    match s {
        Some(s) => Some(s@),
        None => None,
    }
}

impl View for CheckoutRequest {
    type V = CheckoutRequestView;

    open spec fn view(&self) -> CheckoutRequestView {
        CheckoutRequestView {
            workspace_id: self.workspace_id,
            project_id: self.project_id,
            branch: opt_text(self.branch),
        }
    }
}

/// A prepared checkout: where it is, on which branch, from which remote,
/// whether an existing checkout was reused, and what the checkout reported.
#[derive(Debug)]
pub struct CheckoutResult {
    pub workspace_id: u64,
    pub project_id: u64,
    pub directory: String,
    pub branch: String,
    pub remote_url: String,
    pub reused: bool,
    pub checkout: Json,
}

pub struct CheckoutResultView {
    pub workspace_id: u64,
    pub project_id: u64,
    pub directory: Seq<char>,
    pub branch: Seq<char>,
    pub remote_url: Seq<char>,
    pub reused: bool,
    pub checkout: JsonView,
}

impl View for CheckoutResult {
    type V = CheckoutResultView;

    open spec fn view(&self) -> CheckoutResultView {
        CheckoutResultView {
            workspace_id: self.workspace_id,
            project_id: self.project_id,
            directory: self.directory@,
            branch: self.branch@,
            remote_url: self.remote_url@,
            reused: self.reused,
            checkout: self.checkout@,
        }
    }
}

/// What is said when the checkout command's output is not JSON.
pub const INVALID_CHECKOUT_OUTPUT: &'static str = "baijimu project checkout 未返回合法JSON";

/// Both ids must be positive.
pub fn validate_request(request: &CheckoutRequest) -> (r: Result<(), String>)
    ensures
        r is Ok <==> request.workspace_id > 0 && request.project_id > 0,
        r matches Err(e) ==> e@ == "workspaceId和projectId必须大于0"@,
{
    if request.workspace_id == 0 || request.project_id == 0 {
        return Err(String::from_str("workspaceId和projectId必须大于0"));
    }
    Ok(())
}

/// The branch asked for: the given name trimmed, when anything is left.
pub open spec fn requested_branch(branch: Option<Seq<char>>) -> Option<Seq<char>> {
    match branch {
        Some(b) => if trim_view(b).len() > 0 {
            Some(trim_view(b))
        } else {
            None
        },
        None => None,
    }
}

pub fn requested_branch_of(request: &CheckoutRequest) -> (r: Option<String>)
    ensures
        opt_text(r) == requested_branch(request@.branch),
{
    match &request.branch {
        Some(b) => {
            let t = trim(b.as_str());
            if t.as_str().unicode_len() > 0 {
                Some(t)
            } else {
                None
            }
        },
        None => None,
    }
}

/// The two directory levels under the projects root where a project lives.
pub fn checkout_directory_names(request: &CheckoutRequest) -> (r: (String, String))
    ensures
        r.0@ == "workspace-"@ + decimal(request.workspace_id as nat),
        r.1@ == "project-"@ + decimal(request.project_id as nat),
{
    let w = u64_to_decimal(request.workspace_id);
    let p = u64_to_decimal(request.project_id);
    (concat("workspace-", w.as_str()), concat("project-", p.as_str()))
}

/// Where a request is checked out under the projects root `root`: the
/// directories `workspace-{w}` and `project-{p}` below it. The ids must be
/// positive (checked first), and the root must be absolute in the host's
/// path syntax.
pub open spec fn checkout_location_spec(request: CheckoutRequestView, root: Seq<char>, style: PathStyle) -> Result<
    (Seq<char>, Seq<char>),
    Seq<char>,
> {
    if request.workspace_id == 0 || request.project_id == 0 {
        Err("workspaceId和projectId必须大于0"@)
    } else if !absolute(root, style) {
        Err(PROJECTS_ROOT_NOT_ABSOLUTE@)
    } else {
        Ok(
            (
                "workspace-"@ + decimal(request.workspace_id as nat),
                "project-"@ + decimal(request.project_id as nat),
            ),
        )
    }
}

pub fn checkout_location(request: &CheckoutRequest, root: &str, style: PathStyle) -> (r: Result<
    (String, String),
    String,
>)
    ensures
        match checkout_location_spec(request@, root@, style) {
            Ok((w, p)) => r matches Ok((a, b)) && a@ == w && b@ == p,
            Err(e) => r matches Err(m) && m@ == e,
        },
{
    validate_request(request)?;
    if !is_absolute(root, style) {
        return Err(String::from_str(PROJECTS_ROOT_NOT_ABSOLUTE));
    }
    Ok(checkout_directory_names(request))
}

/// The arguments of `baijimu project checkout` for a request and a target
/// directory.
pub open spec fn checkout_args_spec(request: CheckoutRequestView, directory: Seq<char>) -> Seq<
    Seq<char>,
> {
    let base = seq![
        "project"@,
        "checkout"@,
        decimal(request.project_id as nat),
        "--workspace-id"@,
        decimal(request.workspace_id as nat),
        "--directory"@,
        directory,
    ];
    match requested_branch(request.branch) {
        Some(b) => base + seq!["--branch"@, b],
        None => base,
    }
}

pub fn checkout_args(request: &CheckoutRequest, directory: &str) -> (r: Vec<String>)
    ensures
        r@.map_values(|a: String| a@) == checkout_args_spec(request@, directory@),
{
    let mut r: Vec<String> = Vec::new();
    r.push(String::from_str("project"));
    r.push(String::from_str("checkout"));
    r.push(u64_to_decimal(request.project_id));
    r.push(String::from_str("--workspace-id"));
    r.push(u64_to_decimal(request.workspace_id));
    r.push(String::from_str("--directory"));
    r.push(string_of(chars_of(directory).as_slice()));
    let ghost base = r@.map_values(|a: String| a@);
    assert(base =~= seq![
        "project"@,
        "checkout"@,
        decimal(request.project_id as nat),
        "--workspace-id"@,
        decimal(request.workspace_id as nat),
        "--directory"@,
        directory@,
    ]);
    match requested_branch_of(request) {
        Some(b) => {
            r.push(String::from_str("--branch"));
            r.push(b);
            assert(r@.map_values(|a: String| a@) =~= base + seq!["--branch"@, requested_branch(
                request@.branch,
            )->0]);
        },
        None => {},
    }
    r
}

/// The error of a checkout command that exited unsuccessfully.
pub fn checkout_failure(stderr: &[u8]) -> (r: String)
    ensures
        r@ == "平台项目检出失败: "@ + trim_view(utf8_lossy(stderr@)),
{
    let text = lossy_text(stderr);
    let t = trim(text.as_str());
    concat("平台项目检出失败: ", t.as_str())
}

/// The member `key` of the checkout's report: a string with something left
/// after trimming, trimmed.
pub open spec fn required_string_spec(value: JsonView, key: Seq<char>) -> Result<
    Seq<char>,
    Seq<char>,
> {
    match value.get_str(key) {
        Some(s) => if trim_view(s).len() > 0 {
            Ok(trim_view(s))
        } else {
            Err("baijimu project checkout 响应缺少"@ + key)
        },
        None => Err("baijimu project checkout 响应缺少"@ + key),
    }
}

pub fn required_json_string(value: &Json, key: &str) -> (r: Result<String, String>)
    ensures
        match required_string_spec(value@, key@) {
            Ok(s) => r is Ok && r->Ok_0@ == s,
            Err(e) => r is Err && r->Err_0@ == e,
        },
{
    match value.get_str(key) {
        Some(s) => {
            let t = trim(s.as_str());
            if t.as_str().unicode_len() > 0 {
                Ok(t)
            } else {
                Err(concat("baijimu project checkout 响应缺少", key))
            }
        },
        None => Err(concat("baijimu project checkout 响应缺少", key)),
    }
}

/// What a fresh checkout reports: the branch and remote from its output.
pub open spec fn fresh_result_spec(
    request: CheckoutRequestView,
    directory: Seq<char>,
    checkout: JsonView,
) -> Result<CheckoutResultView, Seq<char>> {
    match required_string_spec(checkout, "branch"@) {
        Err(e) => Err(e),
        Ok(branch) => match required_string_spec(checkout, "remoteUrl"@) {
            Err(e) => Err(e),
            Ok(remote_url) => Ok(
                CheckoutResultView {
                    workspace_id: request.workspace_id,
                    project_id: request.project_id,
                    directory,
                    branch,
                    remote_url,
                    reused: false,
                    checkout,
                },
            ),
        },
    }
}

/// The result of a fresh checkout into `directory` that reported `checkout`.
pub fn fresh_checkout_result(request: &CheckoutRequest, directory: &str, checkout: Json) -> (r:
    Result<CheckoutResult, String>)
    ensures
        match fresh_result_spec(request@, directory@, checkout@) {
            Ok(v) => r is Ok && r->Ok_0@ == v,
            Err(e) => r is Err && r->Err_0@ == e,
        },
{
    let branch = match required_json_string(&checkout, "branch") {
        Ok(b) => b,
        Err(e) => {
            return Err(e);
        },
    };
    let remote_url = match required_json_string(&checkout, "remoteUrl") {
        Ok(u) => u,
        Err(e) => {
            return Err(e);
        },
    };
    Ok(
        CheckoutResult {
            workspace_id: request.workspace_id,
            project_id: request.project_id,
            directory: string_of(chars_of(directory).as_slice()),
            branch,
            remote_url,
            reused: false,
            checkout,
        },
    )
}

/// What a `git` run in an existing directory gives: its trimmed output, or
/// the refusal of a directory that is no valid checkout.
pub open spec fn git_result_spec(success: bool, stdout: Seq<u8>, stderr: Seq<u8>) -> Result<
    Seq<char>,
    Seq<char>,
> {
    if !success {
        Err("现有目录不是有效的平台 Git checkout: "@ + trim_view(utf8_lossy(stderr)))
    } else {
        Ok(trim_view(utf8_lossy(stdout)))
    }
}

pub fn git_result(success: bool, stdout: &[u8], stderr: &[u8]) -> (r: Result<String, String>)
    ensures
        match git_result_spec(success, stdout@, stderr@) {
            Ok(s) => r is Ok && r->Ok_0@ == s,
            Err(e) => r is Err && r->Err_0@ == e,
        },
{
    if !success {
        let text = lossy_text(stderr);
        let t = trim(text.as_str());
        return Err(concat("现有目录不是有效的平台 Git checkout: ", t.as_str()));
    }
    let text = lossy_text(stdout);
    Ok(trim(text.as_str()))
}

/// The words joined by single spaces.
pub open spec fn joined(words: Seq<Seq<char>>) -> Seq<char>
    decreases words.len(),
{
    if words.len() == 0 {
        Seq::empty()
    } else if words.len() == 1 {
        words[0]
    } else {
        joined(words.drop_last()) + " "@ + words.last()
    }
}

/// The error of a `git` run that could not be started.
pub fn git_start_error(args: &Vec<String>) -> (r: String)
    ensures
        r@ == "执行 git "@ + joined(args@.map_values(|a: String| a@)) + " 失败"@,
{
    let ghost ws = args@.map_values(|a: String| a@);
    let mut j = String::new();
    let mut i: usize = 0;
    while i < args.len()
        invariant
            i <= args@.len(),
            ws == args@.map_values(|a: String| a@),
            j@ == joined(ws.take(i as int)),
        decreases args@.len() - i,
    {
        if i > 0 {
            j = concat(j.as_str(), " ");
        }
        j = concat(j.as_str(), args[i].as_str());
        proof {
            assert(ws.take(i + 1).drop_last() =~= ws.take(i as int));
            assert(ws.take(i + 1).last() == ws[i as int]);
            if i == 0 {
                assert(ws.take(1) =~= seq![ws[0]]);
            }
        }
        i = i + 1;
    }
    assert(ws.take(i as int) =~= ws);
    let a = concat("执行 git ", j.as_str());
    concat(a.as_str(), " 失败")
}

/// An existing directory is reused only when its recorded workspace and
/// project ids are the requested ones.
pub fn check_owner(
    request: &CheckoutRequest,
    workspace_id: &str,
    project_id: &str,
    directory: &str,
) -> (r: Result<(), String>)
    ensures
        r is Ok <==> workspace_id@ == decimal(request.workspace_id as nat) && project_id@ == decimal(
            request.project_id as nat,
        ),
        r matches Err(e) ==> e@ == "目标目录已存在但不属于请求的平台项目，拒绝复用: "@ + directory@,
{
    let w = u64_to_decimal(request.workspace_id);
    let p = u64_to_decimal(request.project_id);
    if !str_eq(workspace_id, w.as_str()) || !str_eq(project_id, p.as_str()) {
        return Err(concat("目标目录已存在但不属于请求的平台项目，拒绝复用: ", directory));
    }
    Ok(())
}

/// The path of the URL that `url::Url::parse` reads from a text, if it
/// reads one.
pub uninterp spec fn url_path(text: Seq<char>) -> Option<Seq<char>>;

/// `reqwest::Url::parse`, then the URL's path. Which texts are URLs and
/// what their paths are is left to the `url` crate and named `url_path`.
#[verifier::external_body]
fn parse_url_path(text: &str) -> (r: Option<String>)
    ensures
        opt_text(r) == url_path(text@),
{
    match reqwest::Url::parse(text) {
        Ok(url) => Some(url.path().to_string()),
        Err(_) => None,
    }
}

/// The path the platform's Git remote of a project has.
pub open spec fn expected_remote_path(request: CheckoutRequestView) -> Seq<char> {
    "/git/v1/workspaces/"@ + decimal(request.workspace_id as nat) + "/projects/"@ + decimal(
        request.project_id as nat,
    ) + ".git"@
}

pub open spec fn origin_check_spec(request: CheckoutRequestView, remote_url: Seq<char>) -> Result<
    (),
    Seq<char>,
> {
    match url_path(remote_url) {
        None => Err("现有项目 origin URL 无效"@),
        Some(path) => if path == expected_remote_path(request) {
            Ok(())
        } else {
            Err("现有项目 origin 与请求的平台项目不一致，拒绝复用"@)
        },
    }
}

/// An existing checkout's `origin` must be the platform remote of the
/// requested project.
pub fn check_origin(request: &CheckoutRequest, remote_url: &str) -> (r: Result<(), String>)
    ensures
        match origin_check_spec(request@, remote_url@) {
            Ok(()) => r is Ok,
            Err(e) => r is Err && r->Err_0@ == e,
        },
{
    let w = u64_to_decimal(request.workspace_id);
    let p = u64_to_decimal(request.project_id);
    let a = concat("/git/v1/workspaces/", w.as_str());
    let b = concat(a.as_str(), "/projects/");
    let c = concat(b.as_str(), p.as_str());
    let expected = concat(c.as_str(), ".git");
    match parse_url_path(remote_url) {
        None => Err(String::from_str("现有项目 origin URL 无效")),
        Some(path) => if str_eq(path.as_str(), expected.as_str()) {
            Ok(())
        } else {
            Err(String::from_str("现有项目 origin 与请求的平台项目不一致，拒绝复用"))
        },
    }
}

/// The text after the last `/` (all of it when there is none).
pub open spec fn last_segment(s: Seq<char>) -> Seq<char>
    decreases s.len(),
{
    if s.len() == 0 {
        s
    } else if s.last() == '/' {
        Seq::empty()
    } else {
        last_segment(s.drop_last()).push(s.last())
    }
}

fn last_segment_of(s: &str) -> (r: String)
    ensures
        r@ == last_segment(s@),
{
    let cs = chars_of(s);
    let mut start: usize = cs.len();
    while start > 0 && cs[start - 1] != '/'
        invariant
            start <= cs@.len(),
            cs@ == s@,
            forall|k: int| start <= k < cs@.len() ==> cs@[k] != '/',
        decreases start,
    {
        start = start - 1;
    }
    let mut r: Vec<char> = Vec::new();
    let mut k: usize = start;
    while k < cs.len()
        invariant
            start <= k <= cs@.len(),
            r@ == cs@.subrange(start as int, k as int),
        decreases cs@.len() - k,
    {
        r.push(cs[k]);
        k = k + 1;
        assert(r@ =~= cs@.subrange(start as int, k as int));
    }
    proof {
        lemma_last_segment(cs@, start as int);
    }
    string_of(r.as_slice())
}

proof fn lemma_last_segment(s: Seq<char>, start: int)
    requires
        0 <= start <= s.len(),
        start == 0 || s[start - 1] == '/',
        forall|k: int| start <= k < s.len() ==> s[k] != '/',
    ensures
        last_segment(s) == s.subrange(start, s.len() as int),
    decreases s.len(),
{
    if s.len() == 0 {
    } else if start == s.len() {
        assert(s.subrange(start, s.len() as int) =~= Seq::<char>::empty());
    } else {
        lemma_last_segment(s.drop_last(), start);
        assert(s.drop_last().subrange(start, s.len() - 1).push(s.last()) =~= s.subrange(
            start,
            s.len() as int,
        ));
    }
}

/// When an existing checkout's branch is acceptable: it lies under
/// `codex/`, and a requested branch is either that branch or, when the
/// request does not itself start with `codex/`, its last segment.
pub open spec fn branch_check_spec(request: CheckoutRequestView, branch: Seq<char>) -> Result<
    (),
    Seq<char>,
> {
    if !starts_with_view(branch, "codex/"@) {
        Err("现有项目当前分支不在 codex 命名空间，拒绝作为 Codex 工作区"@)
    } else {
        match requested_branch(request.branch) {
            None => Ok(()),
            Some(requested) => {
                let suffix_matches = !starts_with_view(requested, "codex/"@) && last_segment(branch)
                    == requested;
                if branch != requested && !suffix_matches {
                    Err(
                        "现有项目分支与请求分支不一致: current="@ + branch + ", requested="@
                            + requested,
                    )
                } else {
                    Ok(())
                }
            },
        }
    }
}

pub fn check_branch(request: &CheckoutRequest, branch: &str) -> (r: Result<(), String>)
    ensures
        match branch_check_spec(request@, branch@) {
            Ok(()) => r is Ok,
            Err(e) => r is Err && r->Err_0@ == e,
        },
{
    if !starts_with(branch, "codex/") {
        return Err(String::from_str("现有项目当前分支不在 codex 命名空间，拒绝作为 Codex 工作区"));
    }
    match requested_branch_of(request) {
        None => Ok(()),
        Some(requested) => {
            let last = last_segment_of(branch);
            let suffix_matches = !starts_with(requested.as_str(), "codex/") && str_eq(
                last.as_str(),
                requested.as_str(),
            );
            if !str_eq(branch, requested.as_str()) && !suffix_matches {
                let a = concat("现有项目分支与请求分支不一致: current=", branch);
                let b = concat(a.as_str(), ", requested=");
                Err(concat(b.as_str(), requested.as_str()))
            } else {
                Ok(())
            }
        },
    }
}

/// What reusing an existing checkout reports.
pub open spec fn existing_result_spec(
    request: CheckoutRequestView,
    directory: Seq<char>,
    branch: Seq<char>,
    remote_url: Seq<char>,
) -> CheckoutResultView {
    CheckoutResultView {
        workspace_id: request.workspace_id,
        project_id: request.project_id,
        directory,
        branch,
        remote_url,
        reused: true,
        checkout: jobject(
            seq![
                ("branch"@, jstr(branch)),
                ("directory"@, jstr(directory)),
                ("projectId"@, ju64(request.project_id)),
                ("remoteUrl"@, jstr(remote_url)),
                ("workspaceId"@, ju64(request.workspace_id)),
            ],
        ),
    }
}

pub fn existing_checkout_result(
    request: &CheckoutRequest,
    directory: &str,
    branch: &str,
    remote_url: &str,
) -> (r: CheckoutResult)
    ensures
        r@ == existing_result_spec(request@, directory@, branch@, remote_url@),
{
    let entries: Vec<(String, Json)> = vec![
        (String::from_str("branch"), Json::str_of(branch)),
        (String::from_str("directory"), Json::str_of(directory)),
        (String::from_str("projectId"), Json::u64_of(request.project_id)),
        (String::from_str("remoteUrl"), Json::str_of(remote_url)),
        (String::from_str("workspaceId"), Json::u64_of(request.workspace_id)),
    ];
    proof {
        lemma_entries_view(entries@);
    }
    assert(entries_view(entries@) =~= seq![
        ("branch"@, jstr(branch@)),
        ("directory"@, jstr(directory@)),
        ("projectId"@, ju64(request.project_id)),
        ("remoteUrl"@, jstr(remote_url@)),
        ("workspaceId"@, ju64(request.workspace_id)),
    ]);
    CheckoutResult {
        workspace_id: request.workspace_id,
        project_id: request.project_id,
        directory: string_of(chars_of(directory).as_slice()),
        branch: string_of(chars_of(branch).as_slice()),
        remote_url: string_of(chars_of(remote_url).as_slice()),
        reused: true,
        checkout: Json::Object(entries),
    }
}

/// What is said when the platform CLI cannot be found.
pub const CLI_UNAVAILABLE: &'static str = "Bridge Agent 未提供平台管理的 baijimu CLI";

/// What is said when the checkout command cannot be started.
pub const CHECKOUT_START_FAILED: &'static str = "启动 baijimu project checkout 失败；请先安装平台管理的 baijimu CLI";

/// What is said when the checkout directory has no parent.
pub const CHECKOUT_PARENT_MISSING: &'static str = "平台项目检出目录缺少父目录";

/// What is said when the projects root is not absolute.
pub const PROJECTS_ROOT_NOT_ABSOLUTE: &'static str = "DIGITAL_EMPLOYEE_CONNECTOR_PROJECTS_DIR必须是绝对路径";

/// The error of a project directory that could not be created.
pub fn create_directory_failed(directory: &str) -> (r: String)
    ensures
        r@ == "创建平台项目目录失败: "@ + directory@,
{
    concat("创建平台项目目录失败: ", directory)
}

/// The error of a fresh checkout whose directory cannot be resolved.
pub fn checkout_lookup_failed(directory: &str) -> (r: String)
    ensures
        r@ == "检出目录回查失败: "@ + directory@,
{
    concat("检出目录回查失败: ", directory)
}

/// The error of an existing checkout whose directory cannot be resolved.
pub fn existing_lookup_failed(directory: &str) -> (r: String)
    ensures
        r@ == "现有项目目录回查失败: "@ + directory@,
{
    concat("现有项目目录回查失败: ", directory)
}

} // verus!
