//! Preparing a project directory on the device for a session. The
//! workspace comes only from the trusted request header; what the request
//! asks for is checked before the file system is touched.
use vstd::prelude::*;

use crate::http::{plain_error, HttpError, HttpErrorView};
use crate::paths::{absolute, is_absolute, PathStyle};
use crate::project_checkout::{CheckoutRequest, CheckoutRequestView, CheckoutResult};
use crate::text::{
    chars_of, concat, contains_char, is_control, is_ctrl, str_eq, trim, trim_view, utf8_len_exceeds,
};

verus! {

/// The longest directory path, in UTF-8 bytes, that a session accepts.
pub const MAX_DIRECTORY_BYTES: usize = 1024;

/// What a session asks to work in.
#[derive(Debug)]
pub enum PrepareProject {
    /// An existing directory on the device.
    LocalDirectory { directory: String },
    /// A new directory `name` under the existing directory `parent`.
    NewLocalDirectory { parent: String, name: String },
    /// A checkout of a platform project of the trusted workspace.
    WorkspaceProject { project_id: u64 },
}

pub enum PrepareProjectView {
    LocalDirectory { directory: Seq<char> },
    NewLocalDirectory { parent: Seq<char>, name: Seq<char> },
    WorkspaceProject { project_id: u64 },
}

impl View for PrepareProject {
    type V = PrepareProjectView;

    open spec fn view(&self) -> PrepareProjectView {
        match self {
            PrepareProject::LocalDirectory { directory } => PrepareProjectView::LocalDirectory {
                directory: directory@,
            },
            PrepareProject::NewLocalDirectory { parent, name } =>
                PrepareProjectView::NewLocalDirectory { parent: parent@, name: name@ },
            PrepareProject::WorkspaceProject { project_id } => PrepareProjectView::WorkspaceProject {
                project_id: *project_id,
            },
        }
    }
}

/// The directory a session will work in, and the project it holds.
#[derive(Debug)]
pub struct PreparedProject {
    pub directory: String,
    pub project_id: Option<u64>,
}

/// What the device does next for an accepted request.
#[derive(Debug)]
pub enum PreparationStep {
    /// Resolve the existing directory.
    UseDirectory { directory: String },
    /// Create `name` under the existing directory `parent`.
    CreateDirectory { parent: String, name: String },
    /// Check the platform project out.
    Checkout { request: CheckoutRequest },
}

pub enum PreparationStepView {
    UseDirectory { directory: Seq<char> },
    CreateDirectory { parent: Seq<char>, name: Seq<char> },
    Checkout { request: CheckoutRequestView },
}

impl View for PreparationStep {
    type V = PreparationStepView;

    open spec fn view(&self) -> PreparationStepView {
        match self {
            PreparationStep::UseDirectory { directory } => PreparationStepView::UseDirectory {
                directory: directory@,
            },
            PreparationStep::CreateDirectory { parent, name } =>
                PreparationStepView::CreateDirectory { parent: parent@, name: name@ },
            PreparationStep::Checkout { request } => PreparationStepView::Checkout {
                request: request@,
            },
        }
    }
}

/// The number of bytes of a text in UTF-8.
pub open spec fn utf8_len(s: Seq<char>) -> nat {
    vstd::utf8::encode_utf8(s).len()
}

pub open spec fn has_ctrl(s: Seq<char>) -> bool {
    exists|i: int| 0 <= i < s.len() && is_ctrl(#[trigger] s[i])
}

/// A text that can name a directory on the device: an absolute path in the
/// host's style, of at most 1024 bytes, without control characters or
/// surrounding white space.
pub open spec fn absolute_directory_text(value: Seq<char>, style: PathStyle) -> bool {
    &&& absolute(value, style)
    &&& utf8_len(value) <= MAX_DIRECTORY_BYTES
    &&& !has_ctrl(value)
    &&& trim_view(value) == value
}

/// A text that can name one new directory: a single path component other
/// than `.` and `..`, without separators, drive colons, control characters
/// or surrounding white space.
pub open spec fn single_directory_name(name: Seq<char>) -> bool {
    &&& name.len() > 0
    &&& name != "."@
    &&& name != ".."@
    &&& !name.contains('/')
    &&& !name.contains('\\')
    &&& !name.contains(':')
    &&& !has_ctrl(name)
    &&& trim_view(name) == name
}

fn any_control(s: &str) -> (r: bool)
    ensures
        r == has_ctrl(s@),
{
    let cs = chars_of(s);
    let mut i: usize = 0;
    while i < cs.len()
        invariant
            i <= cs@.len(),
            cs@ == s@,
            forall|j: int| 0 <= j < i ==> !is_ctrl(#[trigger] cs@[j]),
        decreases cs@.len() - i,
    {
        if is_control(cs[i]) {
            return true;
        }
        i = i + 1;
    }
    false
}

fn same_text(a: &str, b: &String) -> (r: bool)
    ensures
        r == (a@ == b@),
{
    str_eq(a, b.as_str())
}

/// Refuses a text that cannot name an existing directory on the device.
pub fn check_absolute_directory(value: &str, style: PathStyle) -> (r: Result<(), HttpError>)
    ensures
        r is Ok <==> absolute_directory_text(value@, style),
        r matches Err(e) ==> e@ == plain_error(400, "必须提供设备上的绝对目录路径"@),
{
    let t = trim(value);
    if !is_absolute(value, style) || utf8_len_exceeds(value, MAX_DIRECTORY_BYTES) || any_control(value) || !same_text(value, &t) {
        return Err(HttpError::new(400, "必须提供设备上的绝对目录路径"));
    }
    Ok(())
}

/// Refuses a text that is not a single new directory name.
pub fn check_new_directory_name(name: &str) -> (r: Result<(), HttpError>)
    ensures
        r is Ok <==> single_directory_name(name@),
        r matches Err(e) ==> e@ == plain_error(400, "新项目名称必须是单个目录名"@),
{
    let t = trim(name);
    proof {
        reveal_strlit(".");
        reveal_strlit("..");
    }
    let bad = name.unicode_len() == 0 || str_eq(name, ".") || str_eq(name, "..") || contains_char(
        name,
        '/',
    ) || contains_char(name, '\\') || contains_char(name, ':') || any_control(name) || !same_text(
        name,
        &t,
    );
    if bad {
        return Err(HttpError::new(400, "新项目名称必须是单个目录名"));
    }
    Ok(())
}

/// The step a request leads to, or why it is refused: a request without a
/// trusted workspace, a path that cannot be a directory, a name that is not
/// a single new directory, or project 0.
pub open spec fn preparation_spec(
    workspace: u64,
    request: PrepareProjectView,
    style: PathStyle,
) -> Result<
    PreparationStepView,
    HttpErrorView,
> {
    if workspace == 0 {
        Err(plain_error(400, "缺少可信工作区"@))
    } else {
        match request {
            PrepareProjectView::LocalDirectory { directory } => if absolute_directory_text(
                directory,
                style,
            ) {
                Ok(PreparationStepView::UseDirectory { directory })
            } else {
                Err(plain_error(400, "必须提供设备上的绝对目录路径"@))
            },
            PrepareProjectView::NewLocalDirectory { parent, name } => if !single_directory_name(
                name,
            ) {
                Err(plain_error(400, "新项目名称必须是单个目录名"@))
            } else if !absolute_directory_text(parent, style) {
                Err(plain_error(400, "必须提供设备上的绝对目录路径"@))
            } else {
                Ok(PreparationStepView::CreateDirectory { parent, name })
            },
            PrepareProjectView::WorkspaceProject { project_id } => if project_id == 0 {
                Err(plain_error(400, "projectId 必须大于零"@))
            } else {
                Ok(
                    PreparationStepView::Checkout {
                        request: CheckoutRequestView {
                            workspace_id: workspace,
                            project_id,
                            branch: None,
                        },
                    },
                )
            },
        }
    }
}

/// Decides what preparing a project takes, before anything on the device
/// is read or written.
pub fn prepare(workspace: u64, request: PrepareProject, style: PathStyle) -> (r: Result<
    PreparationStep,
    HttpError,
>)
    ensures
        match preparation_spec(workspace, request@, style) {
            Ok(step) => r is Ok && r->Ok_0@ == step,
            Err(e) => r is Err && r->Err_0@ == e,
        },
{
    if workspace == 0 {
        return Err(HttpError::new(400, "缺少可信工作区"));
    }
    match request {
        PrepareProject::LocalDirectory { directory } => {
            match check_absolute_directory(directory.as_str(), style) {
                Err(e) => Err(e),
                Ok(()) => Ok(PreparationStep::UseDirectory { directory }),
            }
        },
        PrepareProject::NewLocalDirectory { parent, name } => {
            match check_new_directory_name(name.as_str()) {
                Err(e) => {
                    return Err(e);
                },
                Ok(()) => {},
            }
            match check_absolute_directory(parent.as_str(), style) {
                Err(e) => Err(e),
                Ok(()) => Ok(PreparationStep::CreateDirectory { parent, name }),
            }
        },
        PrepareProject::WorkspaceProject { project_id } => {
            if project_id == 0 {
                return Err(HttpError::new(400, "projectId 必须大于零"));
            }
            Ok(
                PreparationStep::Checkout {
                    request: CheckoutRequest { workspace_id: workspace, project_id, branch: None },
                },
            )
        },
    }
}

/// A directory that could not be resolved.
pub fn inaccessible_directory(error: &str) -> (r: HttpError)
    ensures
        r@ == plain_error(400, "设备目录不可访问: "@ + error@),
{
    HttpError::new_owned(400, concat("设备目录不可访问: ", error))
}

/// A resolved path that is not a directory.
pub fn not_a_directory() -> (r: HttpError)
    ensures
        r@ == plain_error(400, "所选路径不是目录"@),
{
    HttpError::new(400, "所选路径不是目录")
}

/// The prepared local directory, from the text of its resolved path (none
/// when the path is not UTF-8).
pub open spec fn local_result_spec(resolved: Option<Seq<char>>) -> Result<Seq<char>, HttpErrorView> {
    match resolved {
        None => Err(plain_error(400, "目录路径不是有效 UTF-8"@)),
        Some(text) => if utf8_len(text) > MAX_DIRECTORY_BYTES {
            Err(plain_error(400, "目录路径超过会话长度限制"@))
        } else {
            Ok(text)
        },
    }
}

pub fn local_directory(resolved: Option<&str>) -> (r: Result<PreparedProject, HttpError>)
    ensures
        match local_result_spec(
            match resolved {
                Some(t) => Some(t@),
                None => None,
            },
        ) {
            Ok(d) => r is Ok && r->Ok_0.directory@ == d && r->Ok_0.project_id is None,
            Err(e) => r is Err && r->Err_0@ == e,
        },
{
    match resolved {
        None => Err(HttpError::new(400, "目录路径不是有效 UTF-8")),
        Some(text) => {
            if utf8_len_exceeds(text, MAX_DIRECTORY_BYTES) {
                return Err(HttpError::new(400, "目录路径超过会话长度限制"));
            }
            Ok(PreparedProject { directory: String::from_str(text), project_id: None })
        },
    }
}

/// A new directory's path must be UTF-8 and fit a session.
pub fn check_destination(destination: Option<&str>) -> (r: Result<(), HttpError>)
    ensures
        r is Ok <==> (destination matches Some(t) && utf8_len(t@) <= MAX_DIRECTORY_BYTES),
        r matches Err(e) ==> e@ == plain_error(400, "目录路径不是有效 UTF-8 或超过会话长度限制"@),
{
    match destination {
        Some(t) => if utf8_len_exceeds(t, MAX_DIRECTORY_BYTES) {
            Err(HttpError::new(400, "目录路径不是有效 UTF-8 或超过会话长度限制"))
        } else {
            Ok(())
        },
        None => Err(HttpError::new(400, "目录路径不是有效 UTF-8 或超过会话长度限制")),
    }
}

/// A directory that could not be created: 409 when it already exists, so
/// that nothing already there is overwritten or adopted.
pub fn creation_failure(already_exists: bool, error: &str) -> (r: HttpError)
    ensures
        r@ == plain_error(
            if already_exists {
                409
            } else {
                400
            },
            "创建项目目录失败: "@ + error@,
        ),
{
    let status: u16 = if already_exists {
        409
    } else {
        400
    };
    HttpError::new_owned(status, concat("创建项目目录失败: ", error))
}

/// The prepared workspace project, from its checkout.
pub fn checkout_prepared(project_id: u64, checkout: Result<CheckoutResult, String>) -> (r: Result<
    PreparedProject,
    HttpError,
>)
    ensures
        match checkout {
            Ok(c) => r is Ok && r->Ok_0.directory@ == c.directory@ && r->Ok_0.project_id == Some(
                project_id,
            ),
            Err(e) => r is Err && r->Err_0@ == plain_error(500, e@),
        },
{
    match checkout {
        Ok(c) => Ok(PreparedProject { directory: c.directory, project_id: Some(project_id) }),
        Err(e) => Err(HttpError::new_owned(500, e)),
    }
}

/// Nothing is prepared without a trusted workspace, and a platform
/// project is always checked out for the workspace of the trusted header,
/// never one named by the request.
pub proof fn law_workspace_comes_from_the_header(
    workspace: u64,
    request: PrepareProjectView,
    style: PathStyle,
)
    ensures
        workspace == 0 ==> preparation_spec(workspace, request, style) is Err,
        preparation_spec(workspace, request, style) matches Ok(PreparationStepView::Checkout { request: c })
            ==> c.workspace_id == workspace && c.branch is None,
{
}

/// A new directory is only ever made directly inside its parent: its name
/// holds no separator and is neither `.` nor `..`.
pub proof fn law_new_directory_stays_in_parent(
    workspace: u64,
    request: PrepareProjectView,
    style: PathStyle,
)
    ensures
        preparation_spec(workspace, request, style) matches Ok(
            PreparationStepView::CreateDirectory { parent, name },
        ) ==> !name.contains('/') && !name.contains('\\') && name != "."@ && name != ".."@
            && name.len() > 0 && absolute_directory_text(parent, style),
{
}

} // verus!
