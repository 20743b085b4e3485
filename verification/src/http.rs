//! The connector's local HTTP surface: errors, authorisation, request
//! framing and routing.
use vstd::prelude::*;

use crate::events::CONNECTOR_VERSION;
use crate::json::{entries_view, jobject, jstr, ju64, lemma_entries_view, Json, JsonView};
use crate::text::{
    chars_of, copy_range, eq_ignore_ascii_case, eq_ignore_ascii_case_view, index_of_from, lines,
    lines_view, parse_unsigned, parse_unsigned_at_most, split_once, split_once_view,
    starts_with, starts_with_view, str_eq, string_of, strip_prefix, trim_chars, trim_view,
    u64_to_decimal, decimal, words, words_view, first_index_of, lemma_first_index_of, lossy_text,
    utf8_lossy,
};

verus! {

/// An error answered over HTTP: a status, a message, and optionally a
/// machine-readable code and data.
#[derive(Debug)]
pub struct HttpError {
    pub status: u16,
    pub message: String,
    pub code: Option<Json>,
    pub data: Option<Json>,
}

pub struct HttpErrorView {
    pub status: u16,
    pub message: Seq<char>,
    pub code: Option<JsonView>,
    pub data: Option<JsonView>,
}

pub open spec fn opt_view(o: Option<Json>) -> Option<JsonView> {
    match o {
        Some(j) => Some(j@),
        None => None,
    }
}

impl View for HttpError {
    type V = HttpErrorView;

    open spec fn view(&self) -> HttpErrorView {
        HttpErrorView {
            status: self.status,
            message: self.message@,
            code: opt_view(self.code),
            data: opt_view(self.data),
        }
    }
}

/// A plain error: a status and a message.
pub open spec fn plain_error(status: u16, message: Seq<char>) -> HttpErrorView {
    HttpErrorView { status, message, code: None, data: None }
}

impl HttpError {
    pub fn new(status: u16, message: &str) -> (r: HttpError)
        ensures
            r@ == plain_error(status, message@),
    {
        HttpError { status, message: String::from_str(message), code: None, data: None }
    }

    pub fn new_owned(status: u16, message: String) -> (r: HttpError)
        ensures
            r@ == plain_error(status, message@),
    {
        HttpError { status, message, code: None, data: None }
    }

    /// An internal error (status 500).
    pub fn internal(message: &str) -> (r: HttpError)
        ensures
            r@ == plain_error(500, message@),
    {
        Self::new(500, message)
    }

    /// An error with a code and data.
    pub fn coded(status: u16, message: &str, code: &str, data: Json) -> (r: HttpError)
        ensures
            r@ == (HttpErrorView {
                status,
                message: message@,
                code: Some(JsonView::Str(code@)),
                data: Some(data@),
            }),
    {
        HttpError {
            status,
            message: String::from_str(message),
            code: Some(Json::str_of(code)),
            data: Some(data),
        }
    }
}

pub const CONNECTOR_NAME: &'static str = "@baijimu/digital-employee-connector";

/// The most bytes a request head may take.
pub const MAX_HEADER_BYTES: usize = 65536;

/// The largest request body accepted.
pub const MAX_BODY_BYTES: usize = 8388608;

/// Whether the four bytes at `i` are `\r\n\r\n`.
pub open spec fn blank_line_at(b: Seq<u8>, i: int) -> bool {
    0 <= i && i + 4 <= b.len() && b[i] == 13 && b[i + 1] == 10 && b[i + 2] == 13 && b[i + 3] == 10
}

/// Where the request head ends: the first `\r\n\r\n`.
pub fn find_headers_end(buffer: &[u8]) -> (r: Option<usize>)
    ensures
        match r {
            Some(i) => blank_line_at(buffer@, i as int) && forall|j: int|
                0 <= j < i ==> !#[trigger] blank_line_at(buffer@, j),
            None => forall|j: int| !#[trigger] blank_line_at(buffer@, j),
        },
{
    if buffer.len() < 4 {
        return None;
    }
    let mut i: usize = 0;
    while i < buffer.len() - 3
        invariant
            buffer@.len() >= 4,
            i + 3 <= buffer@.len(),
            forall|j: int| 0 <= j < i ==> !#[trigger] blank_line_at(buffer@, j),
        decreases buffer@.len() - i,
    {
        if buffer[i] == 13 && buffer[i + 1] == 10 && buffer[i + 2] == 13 && buffer[i + 3] == 10 {
            return Some(i);
        }
        i = i + 1;
    }
    None
}

/// After more of a request head has arrived: too large, complete up to an
/// index, or incomplete.
pub fn header_block(buffer: &[u8]) -> (r: Result<Option<usize>, String>)
    ensures
        buffer@.len() > MAX_HEADER_BYTES ==> r is Err && r->Err_0@ == "HTTP headers too large"@,
        buffer@.len() <= MAX_HEADER_BYTES ==> r is Ok && match r->Ok_0 {
            Some(i) => blank_line_at(buffer@, i as int) && forall|j: int|
                0 <= j < i ==> !#[trigger] blank_line_at(buffer@, j),
            None => forall|j: int| !#[trigger] blank_line_at(buffer@, j),
        },
{
    if buffer.len() > MAX_HEADER_BYTES {
        return Err(String::from_str("HTTP headers too large"));
    }
    Ok(find_headers_end(buffer))
}

/// The untrimmed value of the first line of the form `name: value` whose
/// name equals `name` without regard to ASCII case.
pub open spec fn first_header(ls: Seq<Seq<char>>, name: Seq<char>) -> Option<Seq<char>>
    decreases ls.len(),
{
    if ls.len() == 0 {
        None
    } else {
        match split_once_view(ls[0], ':') {
            Some((n, v)) => if eq_ignore_ascii_case_view(n, name) {
                Some(v)
            } else {
                first_header(ls.drop_first(), name)
            },
            None => first_header(ls.drop_first(), name),
        }
    }
}

fn find_header(ls: &Vec<Vec<char>>, from: usize, name: &str) -> (r: Option<Vec<char>>)
    requires
        from <= ls@.len(),
    ensures
        match first_header(ls@.map_values(|l: Vec<char>| l@).skip(from as int), name@) {
            Some(v) => r is Some && r->0@ == v,
            None => r is None,
        },
{
    let ghost lv = ls@.map_values(|l: Vec<char>| l@);
    let mut i: usize = from;
    while i < ls.len()
        invariant
            from <= i <= ls@.len(),
            lv == ls@.map_values(|l: Vec<char>| l@),
            first_header(lv.skip(from as int), name@) == first_header(lv.skip(i as int), name@),
        decreases ls@.len() - i,
    {
        assert(lv.skip(i as int).drop_first() =~= lv.skip(i + 1));
        assert(lv.skip(i as int)[0] == ls@[i as int]@);
        match split_once(ls[i].as_slice(), ':') {
            Some((n, v)) => {
                if eq_ignore_ascii_case(n.as_slice(), name) {
                    return Some(v);
                }
            },
            None => {},
        }
        i = i + 1;
    }
    assert(lv.skip(i as int).len() == 0);
    None
}

/// The declared body length: the `Content-Length` of the first line that
/// names it (any line of the head), when it parses; else none.
pub open spec fn content_length_spec(head: Seq<u8>) -> Option<nat> {
    match first_header(lines_view(utf8_lossy(head)), "content-length"@) {
        Some(v) => parse_unsigned(trim_view(v), usize::MAX as nat),
        None => None,
    }
}

/// The `Content-Length` a request head declares (std's usize parsing of the
/// trimmed value).
pub fn parse_content_length(head: &[u8]) -> (r: Option<usize>)
    ensures
        match content_length_spec(head@) {
            Some(n) => r == Some(n as usize),
            None => r is None,
        },
{
    let text = lossy_text(head);
    let cs = chars_of(text.as_str());
    let ls = lines(cs.as_slice());
    assert(ls@.map_values(|l: Vec<char>| l@).skip(0) =~= ls@.map_values(|l: Vec<char>| l@));
    match find_header(&ls, 0, "content-length") {
        Some(v) => {
            let t = trim_chars(v.as_slice());
            let ts = string_of(t.as_slice());
            match parse_unsigned_at_most(ts.as_str(), usize::MAX as u64) {
                Some(n) => Some(n as usize),
                None => None,
            }
        },
        None => None,
    }
}

/// How many body bytes to expect after a head ending at `headers_end`: the
/// declared length (0 when none parses), refused beyond `MAX_BODY_BYTES`.
pub fn body_expected(buffer: &[u8], headers_end: usize) -> (r: Result<usize, String>)
    requires
        headers_end <= buffer@.len(),
    ensures
        ({
            let n = match content_length_spec(buffer@.take(headers_end as int)) {
                Some(n) => n,
                None => 0,
            };
            if n > MAX_BODY_BYTES {
                r is Err && r->Err_0@ == "HTTP body too large"@
            } else {
                r == Ok::<usize, String>(n as usize)
            }
        }),
{
    let head = vstd::slice::slice_subrange(buffer, 0, headers_end);
    assert(head@ =~= buffer@.take(headers_end as int));
    let n = match parse_content_length(head) {
        Some(n) => n,
        None => 0,
    };
    if n > MAX_BODY_BYTES {
        return Err(String::from_str("HTTP body too large"));
    }
    Ok(n)
}

/// A request as the connector reads it.
#[derive(Debug)]
pub struct HttpRequest {
    pub method: String,
    pub path: String,
    pub authorization: Option<String>,
    pub workspace_id: Option<u64>,
    pub body: Vec<u8>,
}

pub struct HttpRequestView {
    pub method: Seq<char>,
    pub path: Seq<char>,
    pub authorization: Option<Seq<char>>,
    pub workspace_id: Option<u64>,
    pub body: Seq<u8>,
}

impl View for HttpRequest {
    type V = HttpRequestView;

    open spec fn view(&self) -> HttpRequestView {
        HttpRequestView {
            method: self.method@,
            path: self.path@,
            authorization: match self.authorization {
                Some(a) => Some(a@),
                None => None,
            },
            workspace_id: self.workspace_id,
            body: self.body@,
        }
    }
}

pub open spec fn word_or_empty(ws: Seq<Seq<char>>, i: int) -> Seq<char> {
    if 0 <= i < ws.len() {
        ws[i]
    } else {
        Seq::empty()
    }
}

/// What a complete request reads as: the method and path are the first two
/// words of the first line; `Authorization` and `X-Baijimu-Workspace-Id`
/// come from the later lines, trimmed; a workspace id that is not an
/// unsigned integer is refused and 0 counts as none; the body follows the
/// head's blank line and must have the declared length.
pub open spec fn request_spec(buffer: Seq<u8>, headers_end: int, content_length: nat) -> Result<
    HttpRequestView,
    Seq<char>,
> {
    if buffer.len() != headers_end + 4 + content_length {
        Err("HTTP body length mismatch"@)
    } else {
        let ls = lines_view(utf8_lossy(buffer.take(headers_end)));
        let request_line = if ls.len() > 0 {
            ls[0]
        } else {
            Seq::empty()
        };
        let ws = words_view(request_line);
        let rest = if ls.len() > 0 {
            ls.skip(1)
        } else {
            ls
        };
        let authorization = match first_header(rest, "authorization"@) {
            Some(v) => Some(trim_view(v)),
            None => None,
        };
        let workspace: Result<Option<u64>, Seq<char>> = match first_header(
            rest,
            "x-baijimu-workspace-id"@,
        ) {
            None => Ok(None),
            Some(v) => match parse_unsigned(trim_view(v), u64::MAX as nat) {
                None => Err("x-baijimu-workspace-id must be a positive integer"@),
                Some(n) => if n == 0 {
                    Ok(None)
                } else {
                    Ok(Some(n as u64))
                },
            },
        };
        match workspace {
            Err(e) => Err(e),
            Ok(workspace_id) => Ok(
                HttpRequestView {
                    method: word_or_empty(ws, 0),
                    path: word_or_empty(ws, 1),
                    authorization,
                    workspace_id,
                    body: buffer.skip(headers_end + 4),
                },
            ),
        }
    }
}

fn vec_chars_or_empty(v: &Vec<Vec<char>>, i: usize) -> (r: String)
    ensures
        r@ == word_or_empty(v@.map_values(|w: Vec<char>| w@), i as int),
{
    if i < v.len() {
        string_of(v[i].as_slice())
    } else {
        String::new()
    }
}

/// Reads a complete request whose head ends at `headers_end` and whose
/// body was declared `content_length` bytes long.
pub fn parse_request(buffer: &[u8], headers_end: usize, content_length: usize) -> (r: Result<
    HttpRequest,
    String,
>)
    requires
        headers_end + 4 <= buffer@.len(),
        content_length <= MAX_BODY_BYTES,
    ensures
        match request_spec(buffer@, headers_end as int, content_length as nat) {
            Ok(v) => r is Ok && r->Ok_0@ == v,
            Err(e) => r is Err && r->Err_0@ == e,
        },
{
    if buffer.len() - 4 - headers_end != content_length {
        return Err(String::from_str("HTTP body length mismatch"));
    }
    let head = vstd::slice::slice_subrange(buffer, 0, headers_end);
    assert(head@ =~= buffer@.take(headers_end as int));
    let text = lossy_text(head);
    let cs = chars_of(text.as_str());
    let ls = lines(cs.as_slice());
    let ghost lv = ls@.map_values(|l: Vec<char>| l@);
    let request_line: Vec<char> = if ls.len() > 0 {
        copy_range(ls[0].as_slice(), 0, ls[0].len())
    } else {
        Vec::new()
    };
    assert(request_line@ =~= (if lv.len() > 0 { lv[0] } else { Seq::<char>::empty() }));
    let ws = words(request_line.as_slice());
    let method = vec_chars_or_empty(&ws, 0);
    let path = vec_chars_or_empty(&ws, 1);
    let from: usize = if ls.len() > 0 {
        1
    } else {
        0
    };
    assert(lv.skip(from as int) =~= (if lv.len() > 0 {
        lv.skip(1)
    } else {
        lv
    }));
    let authorization = match find_header(&ls, from, "authorization") {
        Some(v) => Some(string_of(trim_chars(v.as_slice()).as_slice())),
        None => None,
    };
    let workspace_id = match find_header(&ls, from, "x-baijimu-workspace-id") {
        None => None,
        Some(v) => {
            let t = string_of(trim_chars(v.as_slice()).as_slice());
            match parse_unsigned_at_most(t.as_str(), u64::MAX) {
                None => {
                    return Err(String::from_str("x-baijimu-workspace-id must be a positive integer"));
                },
                Some(n) => if n == 0 {
                    None
                } else {
                    Some(n)
                },
            }
        },
    };
    let body_slice = vstd::slice::slice_subrange(buffer, headers_end + 4, buffer.len());
    let body = vstd::slice::slice_to_vec(body_slice);
    assert(body@ =~= buffer@.skip(headers_end + 4));
    Ok(HttpRequest { method, path, authorization, workspace_id, body })
}

/// What an `Authorization` header proves: the bearer token after `Bearer `
/// (none when absent or without that prefix).
pub open spec fn bearer_token(header: Option<Seq<char>>) -> Seq<char> {
    match header {
        Some(h) => if starts_with_view(h, "Bearer "@) {
            h.skip(7)
        } else {
            Seq::empty()
        },
        None => Seq::empty(),
    }
}

proof fn lemma_bytes_eq_chars(a: Seq<char>, b: Seq<char>)
    requires
        vstd::utf8::encode_utf8(a) == vstd::utf8::encode_utf8(b),
    ensures
        a == b,
{
    vstd::utf8::encode_utf8_decode_utf8(a);
    vstd::utf8::encode_utf8_decode_utf8(b);
}

/// Whether a request carries the management token: the bearer token equals
/// `expected`, compared in time independent of where they differ.
pub fn management_authorized(header: Option<&str>, expected: &str) -> (r: bool)
    ensures
        r == (bearer_token(
            match header {
                Some(h) => Some(h@),
                None => None,
            },
        ) == expected@),
{
    let provided: String = match header {
        Some(h) => match strip_prefix(h, "Bearer ") {
            Some(rest) => rest,
            None => String::new(),
        },
        None => String::new(),
    };
    proof {
        reveal_strlit("Bearer ");
    }
    let pb = provided.as_str().as_bytes();
    let eb = expected.as_bytes();
    if pb.len() != eb.len() {
        assert(provided@ != expected@);
        return false;
    }
    let mut difference: u8 = 0;
    let mut i: usize = 0;
    while i < pb.len()
        invariant
            i <= pb@.len(),
            pb@.len() == eb@.len(),
            (difference == 0) == (forall|j: int| 0 <= j < i ==> pb@[j] == eb@[j]),
        decreases pb@.len() - i,
    {
        let x = pb[i];
        let y = eb[i];
        let d = difference;
        let next = d | (x ^ y);
        assert((next == 0) == (d == 0 && x == y)) by (bit_vector)
            requires
                next == d | (x ^ y),
        ;
        difference = next;
        i = i + 1;
    }
    if difference == 0 {
        assert(pb@ =~= eb@);
        proof {
            lemma_bytes_eq_chars(provided@, expected@);
        }
        true
    } else {
        false
    }
}

/// The path without its query: everything before the first `?`.
pub open spec fn route_path(raw: Seq<char>) -> Seq<char> {
    raw.take(first_index_of(raw, '?'))
}

pub open spec fn is_public(method: Seq<char>, path: Seq<char>) -> bool {
    method == "GET"@ && (path == "/healthz"@ || path == "/readyz"@)
}

/// Where a request goes.
#[derive(Debug)]
pub enum Route {
    /// Refused: the management token is missing or wrong.
    Unauthorized,
    /// The public health check.
    Health,
    /// A local app invocation for a trusted workspace.
    Invoke { path: String, workspace: u64 },
    /// A local app invocation without a trusted workspace.
    MissingWorkspace,
    /// A management request.
    Management { path: String },
}

pub enum RouteView {
    Unauthorized,
    Health,
    Invoke { path: Seq<char>, workspace: u64 },
    MissingWorkspace,
    Management { path: Seq<char> },
}

impl View for Route {
    type V = RouteView;

    open spec fn view(&self) -> RouteView {
        match self {
            Route::Unauthorized => RouteView::Unauthorized,
            Route::Health => RouteView::Health,
            Route::Invoke { path, workspace } => RouteView::Invoke { path: path@, workspace: *workspace },
            Route::MissingWorkspace => RouteView::MissingWorkspace,
            Route::Management { path } => RouteView::Management { path: path@ },
        }
    }
}

/// Where a request goes: public health checks for anyone, everything else
/// only with the management token; `POST /invoke/...` needs a workspace.
pub open spec fn route_spec(
    method: Seq<char>,
    raw_path: Seq<char>,
    authorization: Option<Seq<char>>,
    token: Seq<char>,
    workspace_id: Option<u64>,
) -> RouteView {
    let path = route_path(raw_path);
    if is_public(method, path) {
        RouteView::Health
    } else if bearer_token(authorization) != token {
        RouteView::Unauthorized
    } else if method == "POST"@ && starts_with_view(path, "/invoke/"@) {
        match workspace_id {
            Some(w) => RouteView::Invoke { path, workspace: w },
            None => RouteView::MissingWorkspace,
        }
    } else {
        RouteView::Management { path }
    }
}

pub fn route(
    method: &str,
    raw_path: &str,
    authorization: Option<&str>,
    token: &str,
    workspace_id: Option<u64>,
) -> (r: Route)
    ensures
        r@ == route_spec(
            method@,
            raw_path@,
            match authorization {
                Some(a) => Some(a@),
                None => None,
            },
            token@,
            workspace_id,
        ),
{
    let cs = chars_of(raw_path);
    let q = index_of_from(cs.as_slice(), '?', 0);
    assert(cs@.skip(0) =~= cs@);
    proof {
        lemma_first_index_of(cs@, '?');
    }
    let path_chars = copy_range(cs.as_slice(), 0, q);
    let path = string_of(path_chars.as_slice());
    assert(path@ =~= route_path(raw_path@));
    let public = str_eq(method, "GET") && (str_eq(path.as_str(), "/healthz") || str_eq(
        path.as_str(),
        "/readyz",
    ));
    if public {
        return Route::Health;
    }
    if !management_authorized(authorization, token) {
        return Route::Unauthorized;
    }
    if str_eq(method, "POST") && starts_with(path.as_str(), "/invoke/") {
        return match workspace_id {
            Some(w) => Route::Invoke { path, workspace: w },
            None => Route::MissingWorkspace,
        };
    }
    Route::Management { path }
}

/// No request gets past the router without the management token, except
/// the public health checks.
pub proof fn law_only_health_is_public(
    method: Seq<char>,
    raw_path: Seq<char>,
    authorization: Option<Seq<char>>,
    token: Seq<char>,
    workspace_id: Option<u64>,
)
    requires
        bearer_token(authorization) != token,
    ensures
        route_spec(method, raw_path, authorization, token, workspace_id) == if is_public(
            method,
            route_path(raw_path),
        ) {
            RouteView::Health
        } else {
            RouteView::Unauthorized
        },
{
}

/// What a management request asks for.
#[derive(Debug, PartialEq, Eq, Structural)]
pub enum ManagementAction {
    /// The runtime status (`GET /management/v1/setup/state`,
    /// `POST /management/v1/setup/ensure-ready`).
    Status,
    /// A platform project checkout (`POST /management/v1/projects/checkout`).
    Checkout,
    /// Anything else.
    NotSupported,
}

pub open spec fn management_action_spec(method: Seq<char>, path: Seq<char>) -> ManagementAction {
    if (method == "GET"@ && path == "/management/v1/setup/state"@) || (method == "POST"@ && path
        == "/management/v1/setup/ensure-ready"@) {
        ManagementAction::Status
    } else if method == "POST"@ && path == "/management/v1/projects/checkout"@ {
        ManagementAction::Checkout
    } else {
        ManagementAction::NotSupported
    }
}

pub fn management_action(method: &str, path: &str) -> (r: ManagementAction)
    ensures
        r == management_action_spec(method@, path@),
{
    if (str_eq(method, "GET") && str_eq(path, "/management/v1/setup/state")) || (str_eq(
        method,
        "POST",
    ) && str_eq(path, "/management/v1/setup/ensure-ready")) {
        ManagementAction::Status
    } else if str_eq(method, "POST") && str_eq(path, "/management/v1/projects/checkout") {
        ManagementAction::Checkout
    } else {
        ManagementAction::NotSupported
    }
}

/// The error for a management request nobody serves.
pub fn not_supported(path: &str) -> (r: HttpError)
    ensures
        r@ == (HttpErrorView {
            status: 404,
            message: "接口不受此 Connector 支持"@,
            code: Some(jstr("METHOD_NOT_SUPPORTED"@)),
            data: Some(jobject(seq![("path"@, jstr(path@))])),
        }),
{
    let entries: Vec<(String, Json)> = vec![(String::from_str("path"), Json::str_of(path))];
    proof {
        lemma_entries_view(entries@);
    }
    assert(entries_view(entries@) =~= seq![("path"@, jstr(path@))]);
    HttpError::coded(404, "接口不受此 Connector 支持", "METHOD_NOT_SUPPORTED", Json::Object(entries))
}

/// The error for an invocation without a trusted workspace.
pub fn missing_workspace() -> (r: HttpError)
    ensures
        r@ == (HttpErrorView {
            status: 400,
            message: "本地应用调用缺少可信工作区上下文"@,
            code: Some(jstr("WORKSPACE_CONTEXT_REQUIRED"@)),
            data: Some(JsonView::Object(Seq::empty())),
        }),
{
    HttpError::coded(
        400,
        "本地应用调用缺少可信工作区上下文",
        "WORKSPACE_CONTEXT_REQUIRED",
        Json::empty_object(),
    )
}

fn opt_or_null(o: &Option<Json>) -> (r: Json)
    ensures
        r@ == match opt_view(*o) {
            Some(v) => v,
            None => JsonView::Null,
        },
{
    match o {
        Some(j) => j.copy(),
        None => Json::Null,
    }
}

/// The body answered for a result: `{"ok": true, "data": ...}`, or
/// `{"ok": false, "error": {"code", "message", "data"}}` with the error's
/// status.
pub fn envelope(result: &Result<Json, HttpError>) -> (r: (u16, Json))
    ensures
        match result {
            Ok(data) => r.0 == 200 && r.1@ == jobject(
                seq![("data"@, data@), ("ok"@, JsonView::Bool(true))],
            ),
            Err(e) => r.0 == e.status && r.1@ == jobject(
                seq![
                    (
                        "error"@,
                        jobject(
                            seq![
                                (
                                    "code"@,
                                    match e@.code {
                                        Some(c) => c,
                                        None => JsonView::Null,
                                    },
                                ),
                                (
                                    "data"@,
                                    match e@.data {
                                        Some(d) => d,
                                        None => JsonView::Null,
                                    },
                                ),
                                ("message"@, jstr(e.message@)),
                            ],
                        ),
                    ),
                    ("ok"@, JsonView::Bool(false)),
                ],
            ),
        },
{
    match result {
        Ok(data) => {
            let entries: Vec<(String, Json)> = vec![
                (String::from_str("data"), data.copy()),
                (String::from_str("ok"), Json::Bool(true)),
            ];
            proof {
                lemma_entries_view(entries@);
            }
            assert(entries_view(entries@) =~= seq![("data"@, data@), ("ok"@, JsonView::Bool(true))]);
            (200, Json::Object(entries))
        },
        Err(e) => {
            let inner: Vec<(String, Json)> = vec![
                (String::from_str("code"), opt_or_null(&e.code)),
                (String::from_str("data"), opt_or_null(&e.data)),
                (String::from_str("message"), Json::Str(e.message.clone())),
            ];
            proof {
                lemma_entries_view(inner@);
            }
            let inner_json = Json::Object(inner);
            let entries: Vec<(String, Json)> = vec![
                (String::from_str("error"), inner_json),
                (String::from_str("ok"), Json::Bool(false)),
            ];
            proof {
                lemma_entries_view(entries@);
                assert(entries_view(inner@) =~= seq![
                    (
                        "code"@,
                        match e@.code {
                            Some(c) => c,
                            None => JsonView::Null,
                        },
                    ),
                    (
                        "data"@,
                        match e@.data {
                            Some(d) => d,
                            None => JsonView::Null,
                        },
                    ),
                    ("message"@, jstr(e.message@)),
                ]);
            }
            assert(entries_view(entries@) =~= seq![
                ("error"@, inner_json@),
                ("ok"@, JsonView::Bool(false)),
            ]);
            (e.status, Json::Object(entries))
        },
    }
}

/// The body refusing a request without the management token.
pub fn unauthorized_body() -> (r: Json)
    ensures
        r@ == jobject(
            seq![
                (
                    "error"@,
                    jobject(
                        seq![
                            ("code"@, jstr("UNAUTHORIZED"@)),
                            ("message"@, jstr("local app authorization required"@)),
                        ],
                    ),
                ),
                ("ok"@, JsonView::Bool(false)),
            ],
        ),
{
    let inner: Vec<(String, Json)> = vec![
        (String::from_str("code"), Json::str_of("UNAUTHORIZED")),
        (String::from_str("message"), Json::str_of("local app authorization required")),
    ];
    proof {
        lemma_entries_view(inner@);
    }
    let inner_json = Json::Object(inner);
    assert(entries_view(inner@) =~= seq![
        ("code"@, jstr("UNAUTHORIZED"@)),
        ("message"@, jstr("local app authorization required"@)),
    ]);
    let entries: Vec<(String, Json)> = vec![
        (String::from_str("error"), inner_json),
        (String::from_str("ok"), Json::Bool(false)),
    ];
    proof {
        lemma_entries_view(entries@);
    }
    assert(entries_view(entries@) =~= seq![("error"@, inner_json@), ("ok"@, JsonView::Bool(false))]);
    Json::Object(entries)
}

/// The health body: the connector's name, version and process id.
pub fn health_body(pid: u32) -> (r: Json)
    ensures
        r@ == jobject(
            seq![
                ("ok"@, JsonView::Bool(true)),
                (
                    "status"@,
                    jobject(
                        seq![
                            (
                                "connector"@,
                                jobject(
                                    seq![
                                        ("name"@, jstr(CONNECTOR_NAME@)),
                                        ("pid"@, ju64(pid as u64)),
                                        ("version"@, jstr(CONNECTOR_VERSION@)),
                                    ],
                                ),
                            ),
                        ],
                    ),
                ),
            ],
        ),
{
    let c: Vec<(String, Json)> = vec![
        (String::from_str("name"), Json::str_of(CONNECTOR_NAME)),
        (String::from_str("pid"), Json::u64_of(pid as u64)),
        (String::from_str("version"), Json::str_of(CONNECTOR_VERSION)),
    ];
    proof {
        lemma_entries_view(c@);
    }
    let cj = Json::Object(c);
    assert(entries_view(c@) =~= seq![
        ("name"@, jstr(CONNECTOR_NAME@)),
        ("pid"@, ju64(pid as u64)),
        ("version"@, jstr(CONNECTOR_VERSION@)),
    ]);
    let st: Vec<(String, Json)> = vec![(String::from_str("connector"), cj)];
    proof {
        lemma_entries_view(st@);
    }
    let sj = Json::Object(st);
    assert(entries_view(st@) =~= seq![("connector"@, cj@)]);
    let entries: Vec<(String, Json)> = vec![
        (String::from_str("ok"), Json::Bool(true)),
        (String::from_str("status"), sj),
    ];
    proof {
        lemma_entries_view(entries@);
    }
    assert(entries_view(entries@) =~= seq![("ok"@, JsonView::Bool(true)), ("status"@, sj@)]);
    Json::Object(entries)
}

/// The reason phrase written after a status.
pub open spec fn reason_spec(status: u16) -> Seq<char> {
    if status == 200 {
        "OK"@
    } else if status == 400 {
        "Bad Request"@
    } else if status == 401 {
        "Unauthorized"@
    } else if status == 403 {
        "Forbidden"@
    } else if status == 404 {
        "Not Found"@
    } else if status == 409 {
        "Conflict"@
    } else if status == 410 {
        "Gone"@
    } else if status == 503 {
        "Service Unavailable"@
    } else if status == 500 {
        "Internal Server Error"@
    } else {
        "OK"@
    }
}

pub fn reason_phrase(status: u16) -> (r: &'static str)
    ensures
        r@ == reason_spec(status),
{
    if status == 200 {
        "OK"
    } else if status == 400 {
        "Bad Request"
    } else if status == 401 {
        "Unauthorized"
    } else if status == 403 {
        "Forbidden"
    } else if status == 404 {
        "Not Found"
    } else if status == 409 {
        "Conflict"
    } else if status == 410 {
        "Gone"
    } else if status == 503 {
        "Service Unavailable"
    } else if status == 500 {
        "Internal Server Error"
    } else {
        "OK"
    }
}

/// The head of a JSON response of `body_len` bytes; the connection closes
/// after it.
pub fn response_head(status: u16, body_len: usize) -> (r: String)
    ensures
        r@ == "HTTP/1.1 "@ + decimal(status as nat) + " "@ + reason_spec(status)
            + "\r\nContent-Type: application/json; charset=utf-8\r\nContent-Length: "@ + decimal(
            body_len as nat,
        ) + "\r\nConnection: close\r\n\r\n"@,
{
    let mut h = String::from_str("HTTP/1.1 ");
    let s = u64_to_decimal(status as u64);
    h.append(s.as_str());
    h.append(" ");
    h.append(reason_phrase(status));
    h.append("\r\nContent-Type: application/json; charset=utf-8\r\nContent-Length: ");
    let n = u64_to_decimal(body_len as u64);
    h.append(n.as_str());
    h.append("\r\nConnection: close\r\n\r\n");
    h
}

/// Where a local app invocation goes.
#[derive(Debug, PartialEq, Eq, Structural)]
pub enum InvokeRoute {
    /// Prepare a project directory; the body is the request.
    PrepareProject,
    /// The runtime status.
    Status,
    /// Handled by the Codex client.
    Codex,
}

pub fn invoke_route(path: &str) -> (r: InvokeRoute)
    ensures
        r == (if path@ == "/invoke/prepareProject"@ {
            InvokeRoute::PrepareProject
        } else if path@ == "/invoke/status"@ {
            InvokeRoute::Status
        } else {
            InvokeRoute::Codex
        }),
{
    if str_eq(path, "/invoke/prepareProject") {
        InvokeRoute::PrepareProject
    } else if str_eq(path, "/invoke/status") {
        InvokeRoute::Status
    } else {
        InvokeRoute::Codex
    }
}

/// The body answered for a request that could not be read as HTTP.
pub fn invalid_request_body(message: &str) -> (r: Json)
    ensures
        r@ == jobject(
            seq![
                (
                    "error"@,
                    jobject(
                        seq![("code"@, jstr("INVALID_HTTP_REQUEST"@)), ("message"@, jstr(message@))],
                    ),
                ),
                ("ok"@, JsonView::Bool(false)),
            ],
        ),
{
    let inner: Vec<(String, Json)> = vec![
        (String::from_str("code"), Json::str_of("INVALID_HTTP_REQUEST")),
        (String::from_str("message"), Json::str_of(message)),
    ];
    proof {
        lemma_entries_view(inner@);
    }
    let inner_json = Json::Object(inner);
    assert(entries_view(inner@) =~= seq![
        ("code"@, jstr("INVALID_HTTP_REQUEST"@)),
        ("message"@, jstr(message@)),
    ]);
    let entries: Vec<(String, Json)> = vec![
        (String::from_str("error"), inner_json),
        (String::from_str("ok"), Json::Bool(false)),
    ];
    proof {
        lemma_entries_view(entries@);
    }
    assert(entries_view(entries@) =~= seq![("error"@, inner_json@), ("ok"@, JsonView::Bool(false))]);
    Json::Object(entries)
}

/// A project preparation request whose body could not be read.
pub fn invalid_prepare_request(error: &str) -> (r: HttpError)
    ensures
        r@ == plain_error(400, "项目准备请求无效: "@ + error@),
{
    HttpError::new_owned(400, crate::text::concat("项目准备请求无效: ", error))
}

/// A project checkout request whose body could not be read.
pub fn invalid_checkout_request(error: &str) -> (r: HttpError)
    ensures
        r@ == plain_error(400, "项目检出请求无效："@ + error@),
{
    HttpError::new_owned(400, crate::text::concat("项目检出请求无效：", error))
}

} // verus!
