//! The Codex CLI the connector runs: what its `--version` and
//! `app-server --help` runs say about it, and whether it is recent enough.
use vstd::prelude::*;

use crate::json::{entries_view, jobject, jstr, lemma_entries_view, Json, JsonView};
use crate::text::{
    chars_of, concat, lossy_text, string_of, trim, trim_view, utf8_lossy, words, words_view,
};

verus! {

/// The command the connector runs when no other is configured.
pub const COMMAND: &'static str = "codex";

/// How many times a command is tried while its executable is busy.
pub const MAX_COMMAND_ATTEMPTS: usize = 5;

#[verifier::external_type_specification]
#[verifier::external_body]
pub struct ExSemverVersion(semver::Version);

/// A semantic version, as the `semver` crate reads it.
#[derive(Debug, PartialEq, Eq)]
pub struct SemVer {
    major: u64,
    minor: u64,
    patch: u64,
    pre: String,
    build: String,
    version: semver::Version,
}

/// The parts of a semantic version.
pub struct SemVerView {
    pub major: u64,
    pub minor: u64,
    pub patch: u64,
    pub pre: Seq<char>,
    pub build: Seq<char>,
}

impl View for SemVer {
    type V = SemVerView;

    closed spec fn view(&self) -> SemVerView {
        SemVerView {
            major: self.major,
            minor: self.minor,
            patch: self.patch,
            pre: self.pre@,
            build: self.build@,
        }
    }
}

/// The version that `semver::Version::parse` reads from a text, if any.
pub uninterp spec fn semver_parse(text: Seq<char>) -> Option<SemVerView>;

/// Whether `semver` orders `installed` at or above `required`.
pub uninterp spec fn semver_at_least(installed: SemVerView, required: SemVerView) -> bool;

/// The release `major.minor.patch`, without pre-release or build parts.
pub open spec fn release(major: u64, minor: u64, patch: u64) -> SemVerView {
    SemVerView { major, minor, patch, pre: Seq::empty(), build: Seq::empty() }
}

/// Whether the numeric triple of `a` is greater than that of `b`.
pub open spec fn triple_greater(a: SemVerView, b: SemVerView) -> bool {
    a.major > b.major || (a.major == b.major && (a.minor > b.minor || (a.minor == b.minor
        && a.patch > b.patch)))
}

pub open spec fn same_triple(a: SemVerView, b: SemVerView) -> bool {
    a.major == b.major && a.minor == b.minor && a.patch == b.patch
}

/// `semver::Version::parse`. Which texts it accepts, and as what, is left
/// to that crate and named `semver_parse`.
#[verifier::external_body]
fn parse_semver(text: &str) -> (r: Option<SemVer>)
    ensures
        match r {
            Some(v) => semver_parse(text@) == Some(v@),
            None => semver_parse(text@) is None,
        },
{
    match semver::Version::parse(text) {
        Ok(version) => Some(
            SemVer {
                major: version.major,
                minor: version.minor,
                patch: version.patch,
                pre: version.pre.as_str().to_string(),
                build: version.build.as_str().to_string(),
                version,
            },
        ),
        Err(_) => None,
    }
}

/// `semver::Version::new`: a release with empty pre-release and build parts.
#[verifier::external_body]
fn new_semver(major: u64, minor: u64, patch: u64) -> (r: SemVer)
    ensures
        r@ == release(major, minor, patch),
{
    let version = semver::Version::new(major, minor, patch);
    SemVer { major, minor, patch, pre: String::new(), build: String::new(), version }
}

/// `>=` on `semver::Version`. The order is named `semver_at_least`; as the
/// crate's derived order and its pre-release rule show, versions with
/// different numeric triples are ordered by the triple, and a release is
/// above any pre-release of the same triple. How pre-release and build
/// identifiers order otherwise is left to the crate.
#[verifier::external_body]
fn semver_ge(a: &SemVer, b: &SemVer) -> (r: bool)
    ensures
        r == semver_at_least(a@, b@),
        !same_triple(a@, b@) ==> (r <==> triple_greater(a@, b@)),
        same_triple(a@, b@) && a@.pre.len() == 0 && b@.pre.len() > 0 ==> r,
        same_triple(a@, b@) && a@.pre.len() > 0 && b@.pre.len() == 0 ==> !r,
        same_triple(a@, b@) && a@.pre.len() == 0 && b@.pre.len() == 0 && a@.build.len() == 0
            && b@.build.len() == 0 ==> r,
{
    a.version >= b.version
}

impl SemVer {
    /// The release `major.minor.patch`.
    pub fn new(major: u64, minor: u64, patch: u64) -> (r: SemVer)
        ensures
            r@ == release(major, minor, patch),
    {
        new_semver(major, minor, patch)
    }

    /// The version a text spells, if it is one.
    pub fn parse(text: &str) -> (r: Option<SemVer>)
        ensures
            match r {
                Some(v) => semver_parse(text@) == Some(v@),
                None => semver_parse(text@) is None,
            },
    {
        parse_semver(text)
    }

    /// Whether this version is at or above `required`.
    pub fn at_least(&self, required: &SemVer) -> (r: bool)
        ensures
            r == semver_at_least(self@, required@),
            !same_triple(self@, required@) ==> (r <==> triple_greater(self@, required@)),
    {
        semver_ge(self, required)
    }
}

/// The oldest CLI whose app-server speaks the paginated thread protocol.
pub fn protocol_minimum() -> (r: SemVer)
    ensures
        r@ == release(0, 149, 0),
{
    SemVer::new(0, 149, 0)
}

/// A token without its leading `v`s.
pub open spec fn without_leading_v(t: Seq<char>) -> Seq<char>
    decreases t.len(),
{
    if t.len() > 0 && t[0] == 'v' {
        without_leading_v(t.drop_first())
    } else {
        t
    }
}

/// The first of the tokens that, without leading `v`s, is a version.
pub open spec fn first_version(tokens: Seq<Seq<char>>) -> Option<SemVerView>
    decreases tokens.len(),
{
    if tokens.len() == 0 {
        None
    } else {
        match semver_parse(without_leading_v(tokens[0])) {
            Some(v) => Some(v),
            None => first_version(tokens.drop_first()),
        }
    }
}

/// The version a CLI's `--version` output announces: its first
/// white-space separated word that is a version once leading `v`s are
/// dropped.
pub open spec fn version_of_output(output: Seq<char>) -> Option<SemVerView> {
    first_version(words_view(output))
}

fn strip_leading_v(t: &Vec<char>) -> (r: Vec<char>)
    ensures
        r@ == without_leading_v(t@),
{
    let mut i: usize = 0;
    assert(t@.skip(0) =~= t@);
    while i < t.len() && t[i] == 'v'
        invariant
            i <= t@.len(),
            without_leading_v(t@) == without_leading_v(t@.skip(i as int)),
        decreases t@.len() - i,
    {
        assert(t@.skip(i as int).drop_first() =~= t@.skip(i + 1));
        i = i + 1;
    }
    let mut r: Vec<char> = Vec::new();
    let mut j: usize = i;
    while j < t.len()
        invariant
            i <= j <= t@.len(),
            r@ == t@.subrange(i as int, j as int),
        decreases t@.len() - j,
    {
        r.push(t[j]);
        j = j + 1;
        assert(r@ =~= t@.subrange(i as int, j as int));
    }
    assert(r@ =~= t@.skip(i as int));
    r
}

/// The version announced by some `--version` output.
pub fn parse_version_output(output: &str) -> (r: Option<SemVer>)
    ensures
        match version_of_output(output@) {
            Some(v) => r is Some && r->0@ == v,
            None => r is None,
        },
{
    let cs = chars_of(output);
    let ws = words(cs.as_slice());
    let ghost tokens = ws@.map_values(|w: Vec<char>| w@);
    assert(tokens.skip(0) =~= tokens);
    let mut i: usize = 0;
    while i < ws.len()
        invariant
            i <= ws@.len(),
            tokens == ws@.map_values(|w: Vec<char>| w@),
            tokens == words_view(output@),
            first_version(tokens) == first_version(tokens.skip(i as int)),
        decreases ws@.len() - i,
    {
        let token = strip_leading_v(&ws[i]);
        let text = string_of(token.as_slice());
        assert(tokens.skip(i as int)[0] == ws@[i as int]@);
        assert(tokens.skip(i as int).drop_first() =~= tokens.skip(i + 1));
        match SemVer::parse(text.as_str()) {
            Some(v) => {
                return Some(v);
            },
            None => {},
        }
        i = i + 1;
    }
    None
}

/// What running the CLI showed about it.
#[derive(Clone, Debug, Default)]
pub struct CliInspection {
    pub version: Option<String>,
    pub app_server_supported: bool,
    pub error: Option<String>,
}

pub struct CliInspectionView {
    pub version: Option<Seq<char>>,
    pub app_server_supported: bool,
    pub error: Option<Seq<char>>,
}

pub open spec fn opt_view(s: Option<String>) -> Option<Seq<char>> {
    match s {
        Some(s) => Some(s@),
        None => None,
    }
}

impl View for CliInspection {
    type V = CliInspectionView;

    open spec fn view(&self) -> CliInspectionView {
        CliInspectionView {
            version: opt_view(self.version),
            app_server_supported: self.app_server_supported,
            error: opt_view(self.error),
        }
    }
}

/// The version a recorded `--version` text announces.
pub open spec fn announced_version(version: Option<Seq<char>>) -> Option<SemVerView> {
    match version {
        Some(text) => version_of_output(text),
        None => None,
    }
}

fn opt_string_json(s: &Option<String>) -> (r: Json)
    ensures
        r@ == crate::json::opt_str_json(opt_view(*s)),
{
    match s {
        Some(t) => Json::str_of(t.as_str()),
        None => Json::Null,
    }
}

/// The status document shared by the inspection and command-error reports.
pub open spec fn cli_status(
    version: JsonView,
    app_server: JsonView,
    inspection_error: JsonView,
    error: JsonView,
) -> JsonView {
    jobject(
        seq![
            ("appServerSupported"@, app_server),
            ("checkedPaths"@, JsonView::Array(Seq::empty())),
            ("error"@, error),
            ("inspectionError"@, inspection_error),
            ("mode"@, jstr("path"@)),
            ("resolved"@, jstr(COMMAND@)),
            ("source"@, jstr("process_path"@)),
            ("version"@, version),
        ],
    )
}

fn cli_status_json(version: Json, app_server: Json, inspection_error: Json, error: Json) -> (r: Json)
    ensures
        r@ == cli_status(version@, app_server@, inspection_error@, error@),
{
    let ghost (v, a, i, e) = (version@, app_server@, inspection_error@, error@);
    let entries: Vec<(String, Json)> = vec![
        (String::from_str("appServerSupported"), app_server),
        (String::from_str("checkedPaths"), Json::empty_array()),
        (String::from_str("error"), error),
        (String::from_str("inspectionError"), inspection_error),
        (String::from_str("mode"), Json::str_of("path")),
        (String::from_str("resolved"), Json::str_of(COMMAND)),
        (String::from_str("source"), Json::str_of("process_path")),
        (String::from_str("version"), version),
    ];
    proof {
        lemma_entries_view(entries@);
        crate::json::lemma_items_view(Seq::<Json>::empty());
    }
    assert(entries_view(entries@) =~= seq![
        ("appServerSupported"@, a),
        ("checkedPaths"@, JsonView::Array(Seq::empty())),
        ("error"@, e),
        ("inspectionError"@, i),
        ("mode"@, jstr("path"@)),
        ("resolved"@, jstr(COMMAND@)),
        ("source"@, jstr("process_path"@)),
        ("version"@, v),
    ]);
    Json::Object(entries)
}

impl CliInspection {
    /// The version the recorded `--version` text announces.
    pub fn semantic_version(&self) -> (r: Option<SemVer>)
        ensures
            match announced_version(self@.version) {
                Some(v) => r is Some && r->0@ == v,
                None => r is None,
            },
    {
        match &self.version {
            Some(text) => parse_version_output(text.as_str()),
            None => None,
        }
    }

    /// Whether the CLI runs an app-server and is at least `required`.
    pub fn satisfies(&self, required: &SemVer) -> (r: bool)
        ensures
            r == (self.app_server_supported && match announced_version(self@.version) {
                Some(v) => semver_at_least(v, required@),
                None => false,
            }),
    {
        if !self.app_server_supported {
            return false;
        }
        match self.semantic_version() {
            Some(installed) => installed.at_least(required),
            None => false,
        }
    }

    /// The CLI's part of the connector status.
    pub fn status_value(&self) -> (r: Json)
        ensures
            r@ == cli_status(
                crate::json::opt_str_json(self@.version),
                JsonView::Bool(self.app_server_supported),
                crate::json::opt_str_json(self@.error),
                JsonView::Null,
            ),
    {
        cli_status_json(
            opt_string_json(&self.version),
            Json::Bool(self.app_server_supported),
            opt_string_json(&self.error),
            Json::Null,
        )
    }
}

/// The CLI could not be run at all.
#[derive(Clone, Debug)]
pub struct CommandError {
    pub reason: String,
}

/// What a command error says to the user.
pub open spec fn command_error_message(reason: Seq<char>) -> Seq<char> {
    "无法通过当前进程 PATH 执行 Codex CLI 命令“"@ + COMMAND@ + "”（"@ + reason
        + "）。请确认宿主已向连接器注入当前用户 PATH"@
}

impl CommandError {
    /// The error's text.
    pub fn message(&self) -> (r: String)
        ensures
            r@ == command_error_message(self.reason@),
    {
        let a = concat("无法通过当前进程 PATH 执行 Codex CLI 命令“", COMMAND);
        let b = concat(a.as_str(), "”（");
        let c = concat(b.as_str(), self.reason.as_str());
        concat(c.as_str(), "）。请确认宿主已向连接器注入当前用户 PATH")
    }

    /// The CLI's part of the connector status when it cannot be run.
    pub fn status_value(&self) -> (r: Json)
        ensures
            r@ == cli_status(
                JsonView::Null,
                JsonView::Null,
                JsonView::Null,
                jstr(command_error_message(self.reason@)),
            ),
    {
        let m = self.message();
        cli_status_json(Json::Null, Json::Null, Json::Null, Json::Str(m))
    }

    /// The error's data: the command and the reason.
    pub fn data_value(&self) -> (r: Json)
        ensures
            r@ == jobject(seq![("command"@, jstr(COMMAND@)), ("reason"@, jstr(self.reason@))]),
    {
        let entries: Vec<(String, Json)> = vec![
            (String::from_str("command"), Json::str_of(COMMAND)),
            (String::from_str("reason"), Json::str_of(self.reason.as_str())),
        ];
        proof {
            lemma_entries_view(entries@);
        }
        assert(entries_view(entries@) =~= seq![
            ("command"@, jstr(COMMAND@)),
            ("reason"@, jstr(self.reason@)),
        ]);
        Json::Object(entries)
    }
}

/// How one run of a command ended.
#[derive(Debug)]
pub enum CommandOutcome {
    /// The command could not be started; the error's text.
    Failed(String),
    /// The command ran: whether it succeeded, its exit status as text, and
    /// what it wrote.
    Exited { success: bool, status: String, stdout: Vec<u8>, stderr: Vec<u8> },
}

/// The version text of a successful `--version` run: its trimmed standard
/// output, or its trimmed standard error when the output is empty; none
/// when both are empty.
pub open spec fn version_text(stdout: Seq<u8>, stderr: Seq<u8>) -> Option<Seq<char>> {
    let out = trim_view(utf8_lossy(stdout));
    let err = trim_view(utf8_lossy(stderr));
    let v = if out.len() == 0 {
        err
    } else {
        out
    };
    if v.len() == 0 {
        None
    } else {
        Some(v)
    }
}

/// What a `--version` run says: the reported version text, or why the CLI
/// is unusable.
pub open spec fn version_result(run: CommandOutcome) -> Result<Option<Seq<char>>, Seq<char>> {
    match run {
        CommandOutcome::Failed(e) => Err("执行 codex --version 失败："@ + e@),
        CommandOutcome::Exited { success, status, stdout, stderr } => if !success {
            Err("codex --version 退出状态为 "@ + status@)
        } else {
            Ok(version_text(stdout@, stderr@))
        },
    }
}

/// Reads the outcome of `codex --version`.
pub fn inspect_version(run: &CommandOutcome) -> (r: Result<Option<String>, CommandError>)
    ensures
        match version_result(*run) {
            Ok(v) => r is Ok && opt_view(r->Ok_0) == v,
            Err(reason) => r is Err && r->Err_0.reason@ == reason,
        },
{
    match run {
        CommandOutcome::Failed(e) => Err(
            CommandError { reason: concat("执行 codex --version 失败：", e.as_str()) },
        ),
        CommandOutcome::Exited { success, status, stdout, stderr } => {
            if !*success {
                return Err(
                    CommandError { reason: concat("codex --version 退出状态为 ", status.as_str()) },
                );
            }
            let out_text = lossy_text(stdout.as_slice());
            let out = trim(out_text.as_str());
            let err_text = lossy_text(stderr.as_slice());
            let err = trim(err_text.as_str());
            let v = if out.as_str().unicode_len() == 0 {
                err
            } else {
                out
            };
            if v.as_str().unicode_len() == 0 {
                Ok(None)
            } else {
                Ok(Some(v))
            }
        },
    }
}

/// A successful `--version` run is read from its standard output whenever
/// that holds more than white space, whatever its standard error says; the
/// standard error is read only when the output is blank.
pub proof fn law_version_read_from_output_first(run: CommandOutcome)
    requires
        run is Exited,
        run->success,
    ensures
        trim_view(utf8_lossy(run->stdout@)).len() > 0 ==> version_result(run) == Ok::<
            Option<Seq<char>>,
            Seq<char>,
        >(Some(trim_view(utf8_lossy(run->stdout@)))),
        trim_view(utf8_lossy(run->stdout@)).len() == 0 ==> version_result(run) == Ok::<
            Option<Seq<char>>,
            Seq<char>,
        >(
            if trim_view(utf8_lossy(run->stderr@)).len() > 0 {
                Some(trim_view(utf8_lossy(run->stderr@)))
            } else {
                None
            },
        ),
{
}

/// What the CLI shows once its version is known, after `app-server --help`.
pub open spec fn app_server_inspection(version: Option<Seq<char>>, run: CommandOutcome) -> CliInspectionView {
    match run {
        CommandOutcome::Failed(e) => CliInspectionView {
            version,
            app_server_supported: false,
            error: Some(e@),
        },
        CommandOutcome::Exited { success, status, .. } => if success {
            CliInspectionView { version, app_server_supported: true, error: None }
        } else {
            CliInspectionView {
                version,
                app_server_supported: false,
                error: Some("app-server --help 退出状态 "@ + status@),
            }
        },
    }
}

/// Inspects the CLI from its `--version` run and, when that run succeeded,
/// its `app-server --help` run: an unusable `--version` run is an error
/// whatever the second run gave.
pub fn inspect(version_run: &CommandOutcome, app_server_run: &CommandOutcome) -> (r: Result<
    CliInspection,
    CommandError,
>)
    ensures
        match version_result(*version_run) {
            Ok(v) => r is Ok && r->Ok_0@ == app_server_inspection(v, *app_server_run),
            Err(reason) => r is Err && r->Err_0.reason@ == reason,
        },
{
    let version = match inspect_version(version_run) {
        Ok(v) => v,
        Err(e) => {
            return Err(e);
        },
    };
    match app_server_run {
        CommandOutcome::Failed(e) => Ok(
            CliInspection {
                version,
                app_server_supported: false,
                error: Some(string_of(chars_of(e.as_str()).as_slice())),
            },
        ),
        CommandOutcome::Exited { success, status, .. } => if *success {
            Ok(CliInspection { version, app_server_supported: true, error: None })
        } else {
            Ok(
                CliInspection {
                    version,
                    app_server_supported: false,
                    error: Some(concat("app-server --help 退出状态 ", status.as_str())),
                },
            )
        },
    }
}

/// Whether an OS error code says the executable was busy being written,
/// a condition that passes. `busy_code` is the platform's code for that
/// condition (`ETXTBSY` on Unix), none where the platform has none.
pub fn is_transient_executable_busy(raw_os_error: Option<i32>, busy_code: Option<i32>) -> (r: bool)
    ensures
        r == (busy_code is Some && raw_os_error == busy_code),
{
    match (raw_os_error, busy_code) {
        (Some(code), Some(busy)) => code == busy,
        _ => false,
    }
}

/// Whether a failed start of a command is tried again: only while the
/// executable is busy and attempts remain.
pub fn retry_command(raw_os_error: Option<i32>, busy_code: Option<i32>, attempt: usize) -> (r: bool)
    ensures
        r == (busy_code is Some && raw_os_error == busy_code && attempt < MAX_COMMAND_ATTEMPTS),
{
    is_transient_executable_busy(raw_os_error, busy_code) && attempt < MAX_COMMAND_ATTEMPTS
}

} // verus!
