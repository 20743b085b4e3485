//! The connector process as seen from its own command line: health checks
//! against a running connector, daemon start-up, the management token and
//! event identifiers.
use vstd::prelude::*;
use rand::RngCore;

use crate::cli::ServerOptions;
use crate::http::CONNECTOR_NAME;
use crate::paths::{is_within, path_within, PathStyle};
use crate::json::{entries_view, jobject, jstr, ju64, lemma_entries_view, Json, JsonView};
use crate::text::{
    chars_of, concat, decimal, hex_digit, hex_lower, lemma_hex_lower_len, lossy_text, push_hex_lower,
    starts_with, starts_with_view, str_eq, string_of, trim, trim_view, u64_to_decimal, utf8_lossy,
    utf8_len_exceeds,
};

verus! {

/// The most bytes a health response may take.
pub const MAX_HEALTH_RESPONSE_BYTES: usize = 65536;

/// The shortest management token accepted, in bytes.
pub const MIN_TOKEN_BYTES: usize = 32;

/// The member `key` of `status.connector` in a health body.
pub open spec fn connector_field(body: JsonView, key: Seq<char>) -> Option<JsonView> {
    match body.get("status"@) {
        Some(s) => match s.get("connector"@) {
            Some(c) => c.get(key),
            None => None,
        },
        None => None,
    }
}

fn connector_field_of<'a>(body: &'a Json, key: &str) -> (r: Option<&'a Json>)
    ensures
        match connector_field(body@, key@) {
            Some(v) => r is Some && r->0@ == v,
            None => r is None,
        },
{
    match body.get("status") {
        Some(s) => match s.get("connector") {
            Some(c) => c.get(key),
            None => None,
        },
        None => None,
    }
}

/// The process id a health body reports.
pub open spec fn reported_pid(body: JsonView) -> Option<u64> {
    match connector_field(body, "pid"@) {
        Some(p) => p.as_u64(),
        None => None,
    }
}

pub fn connector_pid(body: &Json) -> (r: Option<u64>)
    ensures
        r == reported_pid(body@),
{
    match connector_field_of(body, "pid") {
        Some(p) => p.as_u64(),
        None => None,
    }
}

/// The process id of a running connector, from its health body: the body
/// must name this connector and report a pid that fits a `u32`.
pub open spec fn verified_pid_spec(body: JsonView) -> Result<u32, Seq<char>> {
    let named = match connector_field(body, "name"@) {
        Some(n) => n.as_str() == Some(CONNECTOR_NAME@),
        None => false,
    };
    if !named {
        Err("health endpoint does not belong to the Codex connector"@)
    } else {
        match reported_pid(body) {
            Some(p) => if p <= u32::MAX {
                Ok(p as u32)
            } else {
                Err("connector health response does not contain a valid pid"@)
            },
            None => Err("connector health response does not contain a valid pid"@),
        }
    }
}

pub fn verified_connector_pid(health: &Json) -> (r: Result<u32, String>)
    ensures
        match verified_pid_spec(health@) {
            Ok(p) => r == Ok::<u32, String>(p),
            Err(e) => r is Err && r->Err_0@ == e,
        },
{
    let named = match connector_field_of(health, "name") {
        Some(n) => match n.as_str() {
            Some(s) => str_eq(s.as_str(), CONNECTOR_NAME),
            None => false,
        },
        None => false,
    };
    if !named {
        return Err(String::from_str("health endpoint does not belong to the Codex connector"));
    }
    match connector_pid(health) {
        Some(p) => if p <= 0xffff_ffffu64 {
            Ok(p as u32)
        } else {
            Err(String::from_str("connector health response does not contain a valid pid"))
        },
        None => Err(String::from_str("connector health response does not contain a valid pid")),
    }
}

/// Whether a health body says `ok: true`.
pub open spec fn health_ok(body: JsonView) -> bool {
    match body.get("ok"@) {
        Some(v) => v.as_bool() == Some(true),
        None => false,
    }
}

pub fn is_healthy(body: &Json) -> (r: bool)
    ensures
        r == health_ok(body@),
{
    match body.get("ok") {
        Some(v) => match v.as_bool() {
            Some(b) => b,
            None => false,
        },
        None => false,
    }
}

/// Whether a health body shows the awaited connector: healthy, and with
/// the expected process id when one is expected.
pub open spec fn health_accepted_spec(body: JsonView, expected_pid: Option<u32>) -> bool {
    health_ok(body) && match expected_pid {
        Some(pid) => reported_pid(body) == Some(pid as u64),
        None => true,
    }
}

pub fn health_accepted(body: &Json, expected_pid: Option<u32>) -> (r: bool)
    ensures
        r == health_accepted_spec(body@, expected_pid),
{
    if !is_healthy(body) {
        return false;
    }
    match expected_pid {
        Some(pid) => match connector_pid(body) {
            Some(p) => p == pid as u64,
            None => false,
        },
        None => true,
    }
}

/// A usable management token from the token file's text: the trimmed text
/// when it has at least 32 bytes.
pub open spec fn usable_token_spec(text: Option<Seq<char>>) -> Option<Seq<char>> {
    match text {
        Some(t) => if vstd::utf8::encode_utf8(trim_view(t)).len() >= MIN_TOKEN_BYTES {
            Some(trim_view(t))
        } else {
            None
        },
        None => None,
    }
}

pub fn usable_token(text: Option<&str>) -> (r: Option<String>)
    ensures
        crate::project_checkout::opt_text(r) == usable_token_spec(
            match text {
                Some(t) => Some(t@),
                None => None,
            },
        ),
{
    match text {
        Some(t) => {
            let token = trim(t);
            if utf8_len_exceeds(token.as_str(), MIN_TOKEN_BYTES - 1) {
                Some(token)
            } else {
                None
            }
        },
        None => None,
    }
}

/// The request a health check sends, with the management token when the
/// token file holds a usable one.
pub open spec fn health_request_spec(token_file: Option<Seq<char>>) -> Seq<char> {
    let authorization = match usable_token_spec(token_file) {
        Some(token) => "Authorization: Bearer "@ + token + "\r\n"@,
        None => Seq::empty(),
    };
    "GET /healthz HTTP/1.1\r\nHost: 127.0.0.1\r\n"@ + authorization + "Connection: close\r\n\r\n"@
}

pub fn health_request(token_file: Option<&str>) -> (r: String)
    ensures
        r@ == health_request_spec(
            match token_file {
                Some(t) => Some(t@),
                None => None,
            },
        ),
{
    let authorization = match usable_token(token_file) {
        Some(token) => {
            let a = concat("Authorization: Bearer ", token.as_str());
            concat(a.as_str(), "\r\n")
        },
        None => String::new(),
    };
    let a = concat("GET /healthz HTTP/1.1\r\nHost: 127.0.0.1\r\n", authorization.as_str());
    concat(a.as_str(), "Connection: close\r\n\r\n")
}

/// Where `p` first occurs in `s`, or the length of `s` when it does not.
pub open spec fn find_text(s: Seq<char>, p: Seq<char>) -> int
    decreases s.len(),
{
    if s.len() < p.len() {
        s.len() as int
    } else if s.take(p.len() as int) == p {
        0
    } else if s.len() == 0 {
        0
    } else {
        1 + find_text(s.drop_first(), p)
    }
}

proof fn lemma_find_text(s: Seq<char>, p: Seq<char>)
    ensures
        0 <= find_text(s, p) <= s.len(),
        find_text(s, p) < s.len() ==> find_text(s, p) + p.len() <= s.len() && s.subrange(
            find_text(s, p),
            find_text(s, p) + p.len(),
        ) == p,
    decreases s.len(),
{
    if s.len() >= p.len() && s.take(p.len() as int) != p && s.len() > 0 {
        lemma_find_text(s.drop_first(), p);
        let k = find_text(s.drop_first(), p);
        if k < s.len() - 1 {
            assert(s.subrange(k + 1, k + 1 + p.len()) =~= s.drop_first().subrange(k, k + p.len()));
        }
    } else if s.len() >= p.len() {
        assert(s.subrange(0, p.len() as int) =~= s.take(p.len() as int));
    }
}

fn find_text_from(s: &Vec<char>, from: usize, p: &Vec<char>) -> (r: usize)
    requires
        from <= s@.len(),
    ensures
        r == from + find_text(s@.skip(from as int), p@),
{
    let mut i: usize = from;
    proof {
        lemma_find_text(s@.skip(from as int), p@);
    }
    while i < s.len()
        invariant
            from <= i <= s@.len(),
            from + find_text(s@.skip(from as int), p@) == i + find_text(s@.skip(i as int), p@),
        decreases s@.len() - i,
    {
        let ghost rest = s@.skip(i as int);
        if s.len() - i < p.len() {
            return s.len();
        }
        if matches_at(s, i, p) {
            assert(rest.take(p@.len() as int) =~= s@.subrange(i as int, i + p@.len()));
            return i;
        }
        assert(rest.take(p@.len() as int) =~= s@.subrange(i as int, i + p@.len()));
        assert(rest.drop_first() =~= s@.skip(i + 1));
        i = i + 1;
    }
    assert(s@.skip(i as int).len() == 0);
    proof {
        if p@.len() == 0 {
            assert(s@.skip(i as int).take(0) =~= p@);
        }
    }
    s.len()
}

fn matches_at(s: &Vec<char>, i: usize, p: &Vec<char>) -> (r: bool)
    requires
        i + p@.len() <= s@.len(),
    ensures
        r == (s@.subrange(i as int, i + p@.len()) == p@),
{
    let n = s.len();
    let mut k: usize = 0;
    while k < p.len()
        invariant
            k <= p@.len(),
            n == s@.len(),
            i + p@.len() <= s@.len(),
            forall|j: int| 0 <= j < k ==> s@[i + j] == p@[j],
        decreases p@.len() - k,
    {
        if s[i + k] != p[k] {
            assert(s@.subrange(i as int, i + p@.len())[k as int] != p@[k as int]);
            return false;
        }
        k = k + 1;
    }
    assert(s@.subrange(i as int, i + p@.len()) =~= p@);
    true
}

/// The second piece of a text split at `\r\n\r\n`, empty when there is
/// none: a health response's body.
pub open spec fn second_piece(text: Seq<char>) -> Seq<char> {
    let sep = "\r\n\r\n"@;
    let i = find_text(text, sep);
    if i >= text.len() {
        Seq::empty()
    } else {
        let rest = text.skip(i + sep.len());
        rest.take(find_text(rest, sep))
    }
}

/// The body of a health response, or why it is refused: longer than
/// 65536 bytes, or not a `200` over HTTP/1.1 or HTTP/1.0 (the response
/// text itself is the error then).
pub open spec fn health_body_spec(response: Seq<u8>) -> Result<Seq<char>, Seq<char>> {
    if response.len() > MAX_HEALTH_RESPONSE_BYTES {
        Err("connector health response exceeds 65536 bytes"@)
    } else {
        let text = utf8_lossy(response);
        if !(starts_with_view(text, "HTTP/1.1 200"@) || starts_with_view(text, "HTTP/1.0 200"@)) {
            Err(text)
        } else {
            Ok(second_piece(text))
        }
    }
}

pub fn health_response_body(response: &[u8]) -> (r: Result<String, String>)
    ensures
        match health_body_spec(response@) {
            Ok(b) => r is Ok && r->Ok_0@ == b,
            Err(e) => r is Err && r->Err_0@ == e,
        },
{
    if response.len() > MAX_HEALTH_RESPONSE_BYTES {
        return Err(String::from_str("connector health response exceeds 65536 bytes"));
    }
    let text = lossy_text(response);
    if !(starts_with(text.as_str(), "HTTP/1.1 200") || starts_with(text.as_str(), "HTTP/1.0 200")) {
        return Err(text);
    }
    let cs = chars_of(text.as_str());
    let sep = chars_of("\r\n\r\n");
    proof {
        reveal_strlit("\r\n\r\n");
    }
    assert(cs@.skip(0) =~= cs@);
    let i = find_text_from(&cs, 0, &sep);
    proof {
        lemma_find_text(cs@, sep@);
    }
    if i >= cs.len() {
        return Ok(String::new());
    }
    let start = i + 4;
    let j = find_text_from(&cs, start, &sep);
    let ghost rest = cs@.skip(start as int);
    proof {
        lemma_find_text(rest, sep@);
    }
    let mut body: Vec<char> = Vec::new();
    let mut k: usize = start;
    while k < j
        invariant
            start <= k <= j <= cs@.len(),
            body@ == cs@.subrange(start as int, k as int),
        decreases j - k,
    {
        body.push(cs[k]);
        k = k + 1;
        assert(body@ =~= cs@.subrange(start as int, k as int));
    }
    assert(body@ =~= rest.take(j - start));
    Ok(string_of(body.as_slice()))
}

/// How JSON text writes one character of a string: quote and backslash
/// escaped, the short escapes for backspace, tab, line feed, form feed and
/// carriage return, any other control character as `\u00` and two lower-case
/// hexadecimal digits, and every other character as it is.
pub open spec fn json_escaped_char(c: char) -> Seq<char> {
    if c == '"' {
        seq!['\\', '"']
    } else if c == '\\' {
        seq!['\\', '\\']
    } else if c == '\x08' {
        seq!['\\', 'b']
    } else if c == '\t' {
        seq!['\\', 't']
    } else if c == '\n' {
        seq!['\\', 'n']
    } else if c == '\x0C' {
        seq!['\\', 'f']
    } else if c == '\r' {
        seq!['\\', 'r']
    } else if (c as u32) < 0x20 {
        seq!['\\', 'u', '0', '0', hex_digit(((c as u32) / 16) as nat), hex_digit(((c as u32) % 16) as nat)]
    } else {
        seq![c]
    }
}

/// The characters of a string, each as JSON text writes it.
pub open spec fn json_escaped(s: Seq<char>) -> Seq<char>
    decreases s.len(),
{
    if s.len() == 0 {
        Seq::empty()
    } else {
        json_escaped(s.drop_last()) + json_escaped_char(s.last())
    }
}

/// A string as a JSON string literal.
pub open spec fn json_quoted(s: Seq<char>) -> Seq<char> {
    seq!['"'] + json_escaped(s) + seq!['"']
}

/// The string literals of a list, separated by commas.
pub open spec fn json_quoted_list(list: Seq<Seq<char>>) -> Seq<char>
    decreases list.len(),
{
    if list.len() == 0 {
        Seq::empty()
    } else if list.len() == 1 {
        json_quoted(list[0])
    } else {
        json_quoted_list(list.drop_last()) + seq![','] + json_quoted(list.last())
    }
}

/// A list of strings as compact JSON text: `[`, the string literals
/// separated by `,`, `]`.
pub open spec fn json_string_list_text(list: Seq<Seq<char>>) -> Seq<char> {
    seq!['['] + json_quoted_list(list) + seq![']']
}

/// `serde_json::to_string` on a list of strings. With the compact formatter
/// it writes `[`, each string quoted and escaped by its escape table, commas
/// between them and `]` into a `Vec<u8>`; for strings nothing in that can
/// fail, so the result is that text.
#[verifier::external_body]
fn strings_to_json_text(list: &Vec<String>) -> (r: Result<String, String>)
    ensures
        r is Ok,
        r->Ok_0@ == json_string_list_text(list@.map_values(|a: String| a@)),
{
    match serde_json::to_string(list) {
        Ok(t) => Ok(t),
        Err(e) => Err(e.to_string()),
    }
}

/// The arguments a daemonised connector is started with: the extra Codex
/// arguments, when there are any, travel as one JSON text.
pub open spec fn daemon_args_spec(
    host: Seq<char>,
    port: u16,
    listen: Seq<char>,
    extra_args: Seq<Seq<char>>,
) -> Seq<Seq<char>> {
    let base = seq![
        "start"@,
        "--host"@,
        host,
        "--port"@,
        decimal(port as nat),
        "--listen"@,
        listen,
    ];
    if extra_args.len() == 0 {
        base
    } else {
        base + seq!["--codex-args"@, json_string_list_text(extra_args)]
    }
}

pub fn daemon_args(options: &ServerOptions) -> (r: Vec<String>)
    ensures
        r@.map_values(|s: String| s@) == daemon_args_spec(
            options@.host,
            options.port,
            options@.listen,
            options@.extra_args,
        ),
{
    let mut args: Vec<String> = Vec::new();
    args.push(String::from_str("start"));
    args.push(String::from_str("--host"));
    args.push(string_of(chars_of(options.host.as_str()).as_slice()));
    args.push(String::from_str("--port"));
    args.push(u64_to_decimal(options.port as u64));
    args.push(String::from_str("--listen"));
    args.push(string_of(chars_of(options.listen.as_str()).as_slice()));
    let ghost base = args@.map_values(|s: String| s@);
    assert(base =~= seq![
        "start"@,
        "--host"@,
        options@.host,
        "--port"@,
        decimal(options.port as nat),
        "--listen"@,
        options@.listen,
    ]);
    if options.extra_args.len() > 0 {
        match strings_to_json_text(&options.extra_args) {
            Ok(t) => {
                args.push(String::from_str("--codex-args"));
                args.push(t);
                assert(args@.map_values(|s: String| s@) =~= base + seq![
                    "--codex-args"@,
                    json_string_list_text(options@.extra_args),
                ]);
            },
            Err(_) => {},
        }
    }
    args
}

/// The address a connector serves on.
pub open spec fn connector_url(host: Seq<char>, port: u16) -> Seq<char> {
    "http://"@ + host + ":"@ + decimal(port as nat)
}

fn url_of(host: &str, port: u16) -> (r: String)
    ensures
        r@ == connector_url(host@, port),
{
    let a = concat("http://", host);
    let b = concat(a.as_str(), ":");
    let p = u64_to_decimal(port as u64);
    concat(b.as_str(), p.as_str())
}

/// What a daemonised start reports: the pid, whether a healthy connector
/// was already running, its address and its log.
pub open spec fn daemon_report_spec(
    pid: JsonView,
    existing: bool,
    host: Seq<char>,
    port: u16,
    log_path: Seq<char>,
) -> JsonView {
    if existing {
        jobject(
            seq![
                ("existing"@, JsonView::Bool(true)),
                ("logPath"@, jstr(log_path)),
                ("ok"@, JsonView::Bool(true)),
                ("pid"@, pid),
                ("url"@, jstr(connector_url(host, port))),
            ],
        )
    } else {
        jobject(
            seq![
                ("logPath"@, jstr(log_path)),
                ("ok"@, JsonView::Bool(true)),
                ("pid"@, pid),
                ("url"@, jstr(connector_url(host, port))),
            ],
        )
    }
}

pub fn daemon_report(pid: Json, existing: bool, host: &str, port: u16, log_path: &str) -> (r: Json)
    ensures
        r@ == daemon_report_spec(pid@, existing, host@, port, log_path@),
{
    let ghost pv = pid@;
    let url = url_of(host, port);
    let ghost uv = url@;
    let mut entries: Vec<(String, Json)> = Vec::new();
    if existing {
        entries.push((String::from_str("existing"), Json::Bool(true)));
    }
    entries.push((String::from_str("logPath"), Json::str_of(log_path)));
    entries.push((String::from_str("ok"), Json::Bool(true)));
    entries.push((String::from_str("pid"), pid));
    entries.push((String::from_str("url"), Json::Str(url)));
    proof {
        lemma_entries_view(entries@);
    }
    if existing {
        assert(entries_view(entries@) =~= seq![
            ("existing"@, JsonView::Bool(true)),
            ("logPath"@, jstr(log_path@)),
            ("ok"@, JsonView::Bool(true)),
            ("pid"@, pv),
            ("url"@, jstr(uv)),
        ]);
    } else {
        assert(entries_view(entries@) =~= seq![
            ("logPath"@, jstr(log_path@)),
            ("ok"@, JsonView::Bool(true)),
            ("pid"@, pv),
            ("url"@, jstr(uv)),
        ]);
    }
    Json::Object(entries)
}

/// The pid a healthy running connector reports, as found (`null` when it
/// reports none); nothing when the body is not healthy.
pub open spec fn running_pid_spec(body: JsonView) -> Option<JsonView> {
    if health_ok(body) {
        match connector_field(body, "pid"@) {
            Some(p) => Some(p),
            None => Some(JsonView::Null),
        }
    } else {
        None
    }
}

pub fn running_pid(body: &Json) -> (r: Option<Json>)
    ensures
        match running_pid_spec(body@) {
            Some(p) => r is Some && r->0@ == p,
            None => r is None,
        },
{
    if !is_healthy(body) {
        return None;
    }
    match connector_field_of(body, "pid") {
        Some(p) => Some(p.copy()),
        None => Some(Json::Null),
    }
}

/// The pid recorded after a daemon start: the one the new connector
/// reports, else the spawned child's.
pub fn started_pid(health: &Json, child: u32) -> (r: u64)
    ensures
        r == match reported_pid(health@) {
            Some(p) => p,
            None => child as u64,
        },
{
    match connector_pid(health) {
        Some(p) => p,
        None => child as u64,
    }
}

/// The contents of the pid file.
pub fn pid_file_text(pid: u64) -> (r: String)
    ensures
        r@ == decimal(pid as nat) + "\n"@,
{
    let d = u64_to_decimal(pid);
    concat(d.as_str(), "\n")
}

/// The pid file's trimmed text, or `null` when it cannot be read.
pub open spec fn recorded_pid(pid_file: Option<&str>) -> JsonView {
    match pid_file {
        Some(t) => jstr(trim_view(t@)),
        None => JsonView::Null,
    }
}

/// What `status` prints: where the pid file and log are, and the pid the
/// file holds, trimmed.
pub fn status_report(pid_path: &str, pid_file: Option<&str>, log_path: &str) -> (r: Json)
    ensures
        r@ == jobject(
            seq![
                ("logPath"@, jstr(log_path@)),
                ("pid"@, recorded_pid(pid_file)),
                ("pidPath"@, jstr(pid_path@)),
            ],
        ),
{
    let pid = match pid_file {
        Some(t) => Json::Str(trim(t)),
        None => Json::Null,
    };
    let ghost pv = pid@;
    assert(pv == recorded_pid(pid_file));
    let entries: Vec<(String, Json)> = vec![
        (String::from_str("logPath"), Json::str_of(log_path)),
        (String::from_str("pid"), pid),
        (String::from_str("pidPath"), Json::str_of(pid_path)),
    ];
    proof {
        lemma_entries_view(entries@);
    }
    assert(entries_view(entries@) =~= seq![
        ("logPath"@, jstr(log_path@)),
        ("pid"@, pv),
        ("pidPath"@, jstr(pid_path@)),
    ]);
    Json::Object(entries)
}

/// What `stop` prints when no healthy connector answers.
pub fn not_stopped_report() -> (r: Json)
    ensures
        r@ == jobject(
            seq![
                ("ok"@, JsonView::Bool(true)),
                ("reason"@, jstr("healthy connector process not found"@)),
                ("stopped"@, JsonView::Bool(false)),
            ],
        ),
{
    let entries: Vec<(String, Json)> = vec![
        (String::from_str("ok"), Json::Bool(true)),
        (String::from_str("reason"), Json::str_of("healthy connector process not found")),
        (String::from_str("stopped"), Json::Bool(false)),
    ];
    proof {
        lemma_entries_view(entries@);
    }
    assert(entries_view(entries@) =~= seq![
        ("ok"@, JsonView::Bool(true)),
        ("reason"@, jstr("healthy connector process not found"@)),
        ("stopped"@, JsonView::Bool(false)),
    ]);
    Json::Object(entries)
}

/// What `stop` prints after stopping the connector with process id `pid`.
pub fn stopped_report(pid: u32) -> (r: Json)
    ensures
        r@ == jobject(
            seq![
                ("ok"@, JsonView::Bool(true)),
                ("pid"@, ju64(pid as u64)),
                ("stopped"@, JsonView::Bool(true)),
            ],
        ),
{
    let entries: Vec<(String, Json)> = vec![
        (String::from_str("ok"), Json::Bool(true)),
        (String::from_str("pid"), Json::u64_of(pid as u64)),
        (String::from_str("stopped"), Json::Bool(true)),
    ];
    proof {
        lemma_entries_view(entries@);
    }
    assert(entries_view(entries@) =~= seq![
        ("ok"@, JsonView::Bool(true)),
        ("pid"@, ju64(pid as u64)),
        ("stopped"@, JsonView::Bool(true)),
    ]);
    Json::Object(entries)
}

/// `rand::rngs::OsRng::try_fill_bytes` on a buffer of `n` bytes: `n`
/// bytes from the operating system's generator, or none when the generator
/// fails. Nothing is said of the bytes' values.
#[verifier::external_body]
fn os_random_bytes(n: usize) -> (r: Option<Vec<u8>>)
    ensures
        r matches Some(b) ==> b@.len() == n,
{
    let mut bytes = vec![0u8; n];
    match rand::rngs::OsRng.try_fill_bytes(&mut bytes) {
        Ok(()) => Some(bytes),
        Err(_) => None,
    }
}

/// The event id made of some bytes: `codex_evt_` and their lower-case
/// hexadecimal digits.
pub fn event_id_from_bytes(bytes: &[u8]) -> (r: String)
    ensures
        r@ == "codex_evt_"@ + hex_lower(bytes@),
{
    let mut id = String::from_str("codex_evt_");
    push_hex_lower(&mut id, bytes);
    id
}

/// A fresh event id from 16 random bytes; none when the operating
/// system's generator fails.
pub fn random_event_id() -> (r: Option<String>)
    ensures
        r matches Some(id) ==> (exists|b: Seq<u8>| b.len() == 16 && id@ == "codex_evt_"@ + hex_lower(b))
            && id@.len() == 42,
{
    let bytes = match os_random_bytes(16) {
        Some(b) => b,
        None => {
            return None;
        },
    };
    let id = event_id_from_bytes(bytes.as_slice());
    proof {
        lemma_hex_lower_len(bytes@);
        reveal_strlit("codex_evt_");
    }
    Some(id)
}

/// The management token made of some bytes: their lower-case hexadecimal
/// digits.
pub fn token_from_bytes(bytes: &[u8]) -> (r: String)
    ensures
        r@ == hex_lower(bytes@),
{
    let mut token = String::new();
    push_hex_lower(&mut token, bytes);
    token
}

/// A fresh management token from 32 random bytes: 64 hexadecimal digits;
/// none when the operating system's generator fails.
pub fn new_management_token() -> (r: Option<String>)
    ensures
        r matches Some(t) ==> (exists|b: Seq<u8>| b.len() == 32 && t@ == hex_lower(b)) && t@.len()
            == 64,
{
    let bytes = match os_random_bytes(32) {
        Some(b) => b,
        None => {
            return None;
        },
    };
    proof {
        lemma_hex_lower_len(bytes@);
    }
    Some(token_from_bytes(bytes.as_slice()))
}

/// The token file's contents for a token.
pub fn token_file_text(token: &str) -> (r: String)
    ensures
        r@ == token@ + "\n"@,
{
    concat(token, "\n")
}

/// A written token must read back as written.
pub fn check_token_read_back(persisted: &str, token: &str) -> (r: Result<(), String>)
    ensures
        r is Ok <==> trim_view(persisted@) == token@,
        r matches Err(e) ==> e@ == "management token read-back did not match the generated value"@,
{
    let t = trim(persisted);
    if !str_eq(t.as_str(), token) {
        return Err(
            String::from_str("management token read-back did not match the generated value"),
        );
    }
    Ok(())
}

/// The current time in whole seconds since the Unix epoch
/// (`SystemTime::now`); 0 when the clock is before the epoch. Nothing is
/// said of its value.
#[verifier::external_body]
fn unix_seconds() -> (r: u64) {
    std::time::SystemTime::now().duration_since(std::time::UNIX_EPOCH).unwrap_or_default().as_secs()
}

/// The current time as decimal seconds since the Unix epoch.
pub fn timestamp() -> (r: String)
    ensures
        exists|s: u64| r@ == decimal(s as nat),
{
    let s = unix_seconds();
    u64_to_decimal(s)
}

/// The error of a stop command that could not be run.
pub fn stop_start_failed(pid: u32, error: &str) -> (r: String)
    ensures
        r@ == "failed to stop connector process "@ + decimal(pid as nat) + ": "@ + error@,
{
    let p = u64_to_decimal(pid as u64);
    let a = concat("failed to stop connector process ", p.as_str());
    let b = concat(a.as_str(), ": ");
    concat(b.as_str(), error)
}

/// The error of a stop command that exited unsuccessfully.
pub fn stop_exit_failed(pid: u32, status: &str) -> (r: String)
    ensures
        r@ == "failed to stop connector process "@ + decimal(pid as nat)
            + ": command exited with "@ + status@,
{
    let p = u64_to_decimal(pid as u64);
    let a = concat("failed to stop connector process ", p.as_str());
    let b = concat(a.as_str(), ": command exited with ");
    concat(b.as_str(), status)
}

/// The employee's Codex home must not be the desktop's Codex directory or
/// lie inside it; `actual` is its canonical path, `desktop` the desktop
/// directory's canonical path when it exists, `style` the host's path style.
pub fn check_employee_home(actual: &str, desktop: Option<&str>, style: PathStyle) -> (r: Result<
    (),
    String,
>)
    ensures
        r is Ok <==> !(desktop matches Some(d) && path_within(actual@, d@, style)),
        r matches Err(e) ==> e@ == "数字员工运行目录不能指向用户桌面 Codex 目录"@,
{
    match desktop {
        Some(d) => if is_within(actual, d, style) {
            Err(String::from_str("数字员工运行目录不能指向用户桌面 Codex 目录"))
        } else {
            Ok(())
        },
        None => Ok(()),
    }
}

} // verus!
