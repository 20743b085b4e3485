//! The command line: options in `--kebab-case`, their camelCase keys, and
//! the server options they and the environment select.
use vstd::prelude::*;

use crate::json::{Json, JsonView};
use crate::project_checkout::{opt_text, CheckoutRequest, CheckoutRequestView};
use crate::text::{
    ascii_lower, ascii_upper, chars_of, concat, parse_unsigned, parse_unsigned_at_most, push_char,
    first_index_of, lemma_first_index_of, split_once, split_once_view, starts_with_view, str_eq, string_of, strip_prefix,
    to_ascii_lowercase, to_ascii_uppercase, trim, trim_view,
};

verus! {

/// The host the server binds when none is configured.
pub const DEFAULT_HOST: &'static str = "127.0.0.1";

/// The only transport to the Codex app-server.
pub const DEFAULT_LISTEN: &'static str = "stdio://";

/// How long a request to the app-server may take, when not configured.
pub const DEFAULT_REQUEST_TIMEOUT_MS: u64 = 60000;

/// The upper-case mapping that std's `char::to_uppercase` yields.
pub uninterp spec fn upper_mapping(c: char) -> Seq<char>;

/// `char::to_uppercase`, collected; used for characters other than ASCII
/// letters. Its mapping is Unicode's and is named `upper_mapping`; std
/// documents that it yields one or more characters.
#[verifier::external_body]
fn char_to_uppercase(c: char) -> (r: Vec<char>)
    ensures
        r@ == upper_mapping(c),
        r@.len() >= 1,
{
    c.to_uppercase().collect()
}

/// The upper case of a character: the ASCII capital of an ASCII letter,
/// else Unicode's mapping.
pub open spec fn upper_of(c: char) -> Seq<char> {
    if 'a' <= c && c <= 'z' {
        seq![ascii_upper(c)]
    } else {
        upper_mapping(c)
    }
}

/// `kebab-case` to `camelCase`: each `-` is dropped and the character after
/// it upper-cased.
pub open spec fn camel(s: Seq<char>, upper: bool) -> Seq<char>
    decreases s.len(),
{
    if s.len() == 0 {
        Seq::empty()
    } else if s[0] == '-' {
        camel(s.drop_first(), true)
    } else if upper {
        upper_of(s[0]) + camel(s.drop_first(), false)
    } else {
        seq![s[0]] + camel(s.drop_first(), false)
    }
}

pub open spec fn camel_case(s: Seq<char>) -> Seq<char> {
    camel(s, false)
}

pub fn to_camel_case(value: &str) -> (r: String)
    ensures
        r@ == camel_case(value@),
{
    let cs = chars_of(value);
    let mut out = String::new();
    let mut upper = false;
    let mut i: usize = 0;
    assert(cs@.skip(0) =~= cs@);
    while i < cs.len()
        invariant
            cs@ == value@,
            i <= cs@.len(),
            out@ + camel(cs@.skip(i as int), upper) == camel_case(value@),
        decreases cs@.len() - i,
    {
        let ch = cs[i];
        let ghost rest = cs@.skip(i as int);
        assert(rest[0] == ch);
        assert(rest.drop_first() =~= cs@.skip(i + 1));
        if ch == '-' {
            upper = true;
        } else if upper && 'a' <= ch && ch <= 'z' {
            let ghost before = out@;
            push_char(&mut out, to_ascii_uppercase(ch));
            assert(out@ + camel(cs@.skip(i + 1), false) =~= before + (upper_of(ch) + camel(
                cs@.skip(i + 1),
                false,
            )));
            upper = false;
        } else if upper {
            let u = char_to_uppercase(ch);
            let mut k: usize = 0;
            let ghost before = out@;
            while k < u.len()
                invariant
                    k <= u@.len(),
                    out@ == before + u@.take(k as int),
                decreases u@.len() - k,
            {
                push_char(&mut out, u[k]);
                k = k + 1;
                assert(out@ =~= before + u@.take(k as int));
            }
            assert(u@.take(k as int) =~= u@);
            assert(out@ + camel(cs@.skip(i + 1), false) =~= before + (upper_of(ch) + camel(
                cs@.skip(i + 1),
                false,
            )));
            upper = false;
        } else {
            let ghost before = out@;
            push_char(&mut out, ch);
            assert(out@ + camel(cs@.skip(i + 1), false) =~= before + (seq![ch] + camel(
                cs@.skip(i + 1),
                false,
            )));
        }
        i = i + 1;
    }
    assert(cs@.skip(i as int) =~= Seq::<char>::empty());
    assert(out@ + camel(cs@.skip(i as int), upper) =~= out@);
    out
}

/// `camelCase` to `kebab-case`: each ASCII capital becomes `-` and its
/// lower case.
pub open spec fn kebab_case(s: Seq<char>) -> Seq<char>
    decreases s.len(),
{
    if s.len() == 0 {
        Seq::empty()
    } else if 'A' <= s[0] && s[0] <= 'Z' {
        seq!['-', ascii_lower(s[0])] + kebab_case(s.drop_first())
    } else {
        seq![s[0]] + kebab_case(s.drop_first())
    }
}

pub fn to_kebab_case(value: &str) -> (r: String)
    ensures
        r@ == kebab_case(value@),
{
    let cs = chars_of(value);
    let mut out = String::new();
    let mut i: usize = 0;
    assert(cs@.skip(0) =~= cs@);
    while i < cs.len()
        invariant
            cs@ == value@,
            i <= cs@.len(),
            out@ + kebab_case(cs@.skip(i as int)) == kebab_case(value@),
        decreases cs@.len() - i,
    {
        let c = cs[i];
        let ghost rest = cs@.skip(i as int);
        let ghost before = out@;
        assert(rest[0] == c);
        assert(rest.drop_first() =~= cs@.skip(i + 1));
        if 'A' <= c && c <= 'Z' {
            push_char(&mut out, '-');
            push_char(&mut out, to_ascii_lowercase(c));
            assert(out@ + kebab_case(cs@.skip(i + 1)) =~= before + (seq!['-', ascii_lower(c)]
                + kebab_case(cs@.skip(i + 1))));
        } else {
            push_char(&mut out, c);
            assert(out@ + kebab_case(cs@.skip(i + 1)) =~= before + (seq![c] + kebab_case(
                cs@.skip(i + 1),
            )));
        }
        i = i + 1;
    }
    assert(cs@.skip(i as int) =~= Seq::<char>::empty());
    assert(out@ + kebab_case(cs@.skip(i as int)) =~= out@);
    out
}

/// An option name in lower-case kebab-case: ASCII lower-case letters,
/// digits and dashes, each dash followed by a letter.
pub open spec fn kebab_name(k: Seq<char>) -> bool {
    &&& forall|i: int|
        0 <= i < k.len() ==> ('a' <= #[trigger] k[i] && k[i] <= 'z') || ('0' <= k[i] && k[i]
            <= '9') || k[i] == '-'
    &&& forall|i: int|
        0 <= i < k.len() && #[trigger] k[i] == '-' ==> i + 1 < k.len() && 'a' <= k[i + 1] && k[i
            + 1] <= 'z'
}

proof fn lemma_kebab_prepend(c: char, rest: Seq<char>)
    ensures
        kebab_case(seq![c] + rest) == (if 'A' <= c && c <= 'Z' {
            seq!['-', ascii_lower(c)]
        } else {
            seq![c]
        }) + kebab_case(rest),
{
    let s = seq![c] + rest;
    assert(s[0] == c);
    assert(s.drop_first() =~= rest);
}

/// An option written in lower-case kebab-case is named the same way in the
/// messages about it: its camelCase key turns back into the name as written.
pub proof fn law_option_names_round_trip(k: Seq<char>)
    requires
        kebab_name(k),
    ensures
        kebab_case(camel_case(k)) == k,
    decreases k.len(),
{
    if k.len() == 0 {
    } else if k[0] == '-' {
        let c = k[1];
        let rest = k.skip(2);
        assert(k.drop_first()[0] == c);
        assert(k.drop_first().drop_first() =~= rest);
        assert(kebab_name(rest)) by {
            assert forall|i: int| 0 <= i < rest.len() implies ('a' <= #[trigger] rest[i] && rest[i]
                <= 'z') || ('0' <= rest[i] && rest[i] <= '9') || rest[i] == '-' by {
                assert(rest[i] == k[i + 2]);
            }
            assert forall|i: int| 0 <= i < rest.len() && #[trigger] rest[i] == '-' implies i + 1
                < rest.len() && 'a' <= rest[i + 1] && rest[i + 1] <= 'z' by {
                assert(rest[i] == k[i + 2]);
                assert(k[i + 2] == '-');
                assert(rest[i + 1] == k[i + 3]);
            }
        }
        law_option_names_round_trip(rest);
        let u = ascii_upper(c);
        assert(camel(k, false) == camel(k.drop_first(), true));
        assert(camel(k.drop_first(), true) == upper_of(c) + camel(rest, false));
        assert(camel_case(k) == seq![u] + camel_case(rest));
        lemma_kebab_prepend(u, camel_case(rest));
        assert(ascii_lower(u) == c);
        assert(k =~= seq!['-', c] + rest);
    } else {
        let rest = k.drop_first();
        assert(kebab_name(rest)) by {
            assert forall|i: int| 0 <= i < rest.len() implies ('a' <= #[trigger] rest[i] && rest[i]
                <= 'z') || ('0' <= rest[i] && rest[i] <= '9') || rest[i] == '-' by {
                assert(rest[i] == k[i + 1]);
            }
            assert forall|i: int| 0 <= i < rest.len() && #[trigger] rest[i] == '-' implies i + 1
                < rest.len() && 'a' <= rest[i + 1] && rest[i + 1] <= 'z' by {
                assert(rest[i] == k[i + 1]);
                assert(k[i + 1] == '-');
                assert(rest[i + 1] == k[i + 2]);
            }
        }
        law_option_names_round_trip(rest);
        assert(camel_case(k) == seq![k[0]] + camel_case(rest));
        lemma_kebab_prepend(k[0], camel_case(rest));
        assert(k =~= seq![k[0]] + rest);
    }
}

/// A parsed command line: the command, the `--key value` options by their
/// camelCase keys, and the flags.
#[derive(Debug)]
pub struct ParsedArgs {
    pub command: String,
    pub values: Json,
    pub daemon: bool,
    pub help: bool,
    pub version: bool,
}

pub struct ParsedArgsView {
    pub command: Seq<char>,
    pub values: JsonView,
    pub daemon: bool,
    pub help: bool,
    pub version: bool,
}

impl View for ParsedArgs {
    type V = ParsedArgsView;

    open spec fn view(&self) -> ParsedArgsView {
        ParsedArgsView {
            command: self.command@,
            values: self.values@,
            daemon: self.daemon,
            help: self.help,
            version: self.version,
        }
    }
}

/// The refusal of the option that once chose the Codex CLI.
pub const CODEX_BINARY_REFUSED: &'static str = "--codex-binary is no longer supported; Codex CLI discovery is automatic";

/// An option's text after `--`, split at its first `=` into the key and an
/// inline value (empty when there is no `=`).
pub open spec fn key_and_inline(raw: Seq<char>) -> (Seq<char>, Seq<char>) {
    match split_once_view(raw, '=') {
        Some((k, v)) => (k, v),
        None => (raw, Seq::empty()),
    }
}

pub open spec fn with_value(p: ParsedArgsView, key: Seq<char>, value: Seq<char>) -> ParsedArgsView {
    ParsedArgsView {
        command: p.command,
        values: p.values.with(key, JsonView::Str(value)),
        daemon: p.daemon,
        help: p.help,
        version: p.version,
    }
}

pub open spec fn with_flag(p: ParsedArgsView, key: Seq<char>) -> ParsedArgsView {
    ParsedArgsView {
        command: p.command,
        values: p.values,
        daemon: p.daemon || key == "daemon"@,
        help: p.help || key == "help"@,
        version: p.version || key == "version"@,
    }
}

pub open spec fn is_flag(key: Seq<char>) -> bool {
    key == "daemon"@ || key == "help"@ || key == "version"@
}

/// The arguments from `i` on, read into `acc`: words not starting with `--`
/// are skipped; `--daemon`, `--help` and `--version` are flags; any other
/// option takes its inline value or, without one, the next argument.
pub open spec fn parse_from(args: Seq<Seq<char>>, i: int, acc: ParsedArgsView) -> Result<
    ParsedArgsView,
    Seq<char>,
>
    decreases args.len() - i,
{
    if i < 0 || i >= args.len() {
        Ok(acc)
    } else if !starts_with_view(args[i], "--"@) {
        parse_from(args, i + 1, acc)
    } else {
        let raw = args[i].skip(2);
        let key = camel_case(key_and_inline(raw).0);
        let inline = key_and_inline(raw).1;
        if key == "codexBinary"@ {
            Err(CODEX_BINARY_REFUSED@)
        } else if is_flag(key) {
            parse_from(args, i + 1, with_flag(acc, key))
        } else if inline.len() > 0 {
            parse_from(args, i + 1, with_value(acc, key, inline))
        } else if i + 1 < args.len() {
            parse_from(args, i + 2, with_value(acc, key, args[i + 1]))
        } else {
            Err("missing value for --"@ + raw)
        }
    }
}

/// What the command line reads as: the first argument is the command
/// (`help` without one), and `--version` anywhere makes it `--version`.
pub open spec fn parse_args_spec(args: Seq<Seq<char>>) -> Result<ParsedArgsView, Seq<char>> {
    let start = ParsedArgsView {
        command: if args.len() > 0 {
            args[0]
        } else {
            "help"@
        },
        values: JsonView::Object(Seq::empty()),
        daemon: false,
        help: false,
        version: false,
    };
    match parse_from(args, 1, start) {
        Err(e) => Err(e),
        Ok(p) => Ok(
            if p.version {
                ParsedArgsView { command: "--version"@, ..p }
            } else {
                p
            },
        ),
    }
}

pub fn parse_args(args: &[String]) -> (r: Result<ParsedArgs, String>)
    ensures
        match parse_args_spec(args@.map_values(|a: String| a@)) {
            Ok(p) => r is Ok && r->Ok_0@ == p,
            Err(e) => r is Err && r->Err_0@ == e,
        },
{
    let ghost av = args@.map_values(|a: String| a@);
    let command = if args.len() > 0 {
        string_of(chars_of(args[0].as_str()).as_slice())
    } else {
        String::from_str("help")
    };
    let mut parsed = ParsedArgs {
        command,
        values: Json::empty_object(),
        daemon: false,
        help: false,
        version: false,
    };
    proof {
        crate::json::lemma_entries_view(Seq::<(String, Json)>::empty());
    }
    assert(parsed@.values =~= JsonView::Object(Seq::empty()));
    let mut index: usize = 1;
    while index < args.len()
        invariant
            av == args@.map_values(|a: String| a@),
            1 <= index,
            parse_from(av, 1, ParsedArgsView {
                command: if av.len() > 0 {
                    av[0]
                } else {
                    "help"@
                },
                values: JsonView::Object(Seq::empty()),
                daemon: false,
                help: false,
                version: false,
            }) == parse_from(av, index as int, parsed@),
        decreases args@.len() - index,
    {
        let arg = &args[index];
        assert(av[index as int] == arg@);
        match strip_prefix(arg.as_str(), "--") {
            None => {
                index = index + 1;
            },
            Some(raw) => {
                proof {
                    reveal_strlit("--");
                }
                assert(raw@ == av[index as int].skip(2));
                let raw_chars = chars_of(raw.as_str());
                let (key_text, inline) = match split_once(raw_chars.as_slice(), '=') {
                    Some((k, v)) => (k, v),
                    None => (raw_chars, Vec::new()),
                };
                assert(key_text@ == key_and_inline(raw@).0);
                assert(inline@ == key_and_inline(raw@).1);
                let key_raw = string_of(key_text.as_slice());
                let key = to_camel_case(key_raw.as_str());
                proof {
                    reveal_strlit("codexBinary");
                    reveal_strlit("daemon");
                    reveal_strlit("help");
                    reveal_strlit("version");
                }
                if str_eq(key.as_str(), "codexBinary") {
                    return Err(String::from_str(CODEX_BINARY_REFUSED));
                }
                let is_daemon = str_eq(key.as_str(), "daemon");
                let is_help = str_eq(key.as_str(), "help");
                let is_version = str_eq(key.as_str(), "version");
                if is_daemon || is_help || is_version {
                    parsed.daemon = parsed.daemon || is_daemon;
                    parsed.help = parsed.help || is_help;
                    parsed.version = parsed.version || is_version;
                    index = index + 1;
                } else if inline.len() > 0 {
                    parsed.values.insert(key.as_str(), Json::Str(string_of(inline.as_slice())));
                    index = index + 1;
                } else if index + 1 < args.len() {
                    let v = string_of(chars_of(args[index + 1].as_str()).as_slice());
                    assert(av[index + 1] == v@);
                    parsed.values.insert(key.as_str(), Json::Str(v));
                    index = index + 2;
                } else {
                    return Err(concat("missing value for --", raw.as_str()));
                }
            },
        }
    }
    if parsed.version {
        parsed.command = String::from_str("--version");
    }
    Ok(parsed)
}

/// The option `key`, trimmed, when it is given and not blank.
pub open spec fn string_arg_spec(values: JsonView, key: Seq<char>) -> Option<Seq<char>> {
    match values.get_str(key) {
        Some(v) => if trim_view(v).len() > 0 {
            Some(trim_view(v))
        } else {
            None
        },
        None => None,
    }
}

pub fn string_arg(parsed: &ParsedArgs, key: &str) -> (r: Option<String>)
    ensures
        opt_text(r) == string_arg_spec(parsed@.values, key@),
{
    match parsed.values.get_str(key) {
        Some(v) => {
            let t = trim(v.as_str());
            if t.as_str().unicode_len() > 0 {
                Some(t)
            } else {
                None
            }
        },
        None => None,
    }
}

/// A required positive integer option; the errors name it in kebab-case.
pub open spec fn required_u64_spec(values: JsonView, key: Seq<char>) -> Result<u64, Seq<char>> {
    match string_arg_spec(values, key) {
        None => Err("--"@ + kebab_case(key) + " is required"@),
        Some(v) => match parse_unsigned(v, u64::MAX as nat) {
            None => Err("--"@ + kebab_case(key) + " must be a positive integer"@),
            Some(n) => if n == 0 {
                Err("--"@ + kebab_case(key) + " must be greater than zero"@)
            } else {
                Ok(n as u64)
            },
        },
    }
}

pub fn required_u64_arg(parsed: &ParsedArgs, key: &str) -> (r: Result<u64, String>)
    ensures
        match required_u64_spec(parsed@.values, key@) {
            Ok(n) => r == Ok::<u64, String>(n),
            Err(e) => r is Err && r->Err_0@ == e,
        },
{
    let kebab = to_kebab_case(key);
    let prefix = concat("--", kebab.as_str());
    match string_arg(parsed, key) {
        None => Err(concat(prefix.as_str(), " is required")),
        Some(v) => match parse_unsigned_at_most(v.as_str(), u64::MAX) {
            None => Err(concat(prefix.as_str(), " must be a positive integer")),
            Some(n) => if n == 0 {
                Err(concat(prefix.as_str(), " must be greater than zero"))
            } else {
                Ok(n)
            },
        },
    }
}

/// The checkout a `checkout-project` command asks for.
pub open spec fn checkout_args_request(values: JsonView) -> Result<CheckoutRequestView, Seq<char>> {
    match required_u64_spec(values, "workspaceId"@) {
        Err(e) => Err(e),
        Ok(w) => match required_u64_spec(values, "projectId"@) {
            Err(e) => Err(e),
            Ok(p) => Ok(
                CheckoutRequestView {
                    workspace_id: w,
                    project_id: p,
                    branch: string_arg_spec(values, "branch"@),
                },
            ),
        },
    }
}

pub fn checkout_request(parsed: &ParsedArgs) -> (r: Result<CheckoutRequest, String>)
    ensures
        match checkout_args_request(parsed@.values) {
            Ok(c) => r is Ok && r->Ok_0@ == c,
            Err(e) => r is Err && r->Err_0@ == e,
        },
{
    let workspace_id = match required_u64_arg(parsed, "workspaceId") {
        Ok(w) => w,
        Err(e) => {
            return Err(e);
        },
    };
    let project_id = match required_u64_arg(parsed, "projectId") {
        Ok(p) => p,
        Err(e) => {
            return Err(e);
        },
    };
    Ok(CheckoutRequest { workspace_id, project_id, branch: string_arg(parsed, "branch") })
}

/// The commands of the command line.
#[derive(Debug)]
pub enum CliCommand {
    Version,
    Help,
    Start,
    Status,
    Stop,
    CheckoutProject,
}

pub open spec fn command_spec(command: Seq<char>) -> Result<CliCommand, Seq<char>> {
    if command == "--version"@ {
        Ok(CliCommand::Version)
    } else if command == "help"@ || command.len() == 0 {
        Ok(CliCommand::Help)
    } else if command == "start"@ {
        Ok(CliCommand::Start)
    } else if command == "status"@ {
        Ok(CliCommand::Status)
    } else if command == "stop"@ {
        Ok(CliCommand::Stop)
    } else if command == "checkout-project"@ {
        Ok(CliCommand::CheckoutProject)
    } else {
        Err("unknown command: "@ + command)
    }
}

/// Which command a parsed command line runs.
pub fn cli_command(parsed: &ParsedArgs) -> (r: Result<CliCommand, String>)
    ensures
        match command_spec(parsed@.command) {
            Ok(c) => r == Ok::<CliCommand, String>(c),
            Err(e) => r is Err && r->Err_0@ == e,
        },
{
    let c = parsed.command.as_str();
    if str_eq(c, "--version") {
        Ok(CliCommand::Version)
    } else if str_eq(c, "help") || c.unicode_len() == 0 {
        Ok(CliCommand::Help)
    } else if str_eq(c, "start") {
        Ok(CliCommand::Start)
    } else if str_eq(c, "status") {
        Ok(CliCommand::Status)
    } else if str_eq(c, "stop") {
        Ok(CliCommand::Stop)
    } else if str_eq(c, "checkout-project") {
        Ok(CliCommand::CheckoutProject)
    } else {
        Err(concat("unknown command: ", c))
    }
}

/// The refusal of any other transport or of extra Codex arguments.
pub const TRANSPORT_REFUSED: &'static str = "不支持切换 transport 或自定义 Codex 启动参数";

/// What the server runs with.
#[derive(Debug)]
pub struct ServerOptions {
    pub host: String,
    pub port: u16,
    pub listen: String,
    pub extra_args: Vec<String>,
    pub request_timeout_ms: u64,
    pub daemon: bool,
}

pub struct ServerOptionsView {
    pub host: Seq<char>,
    pub port: u16,
    pub listen: Seq<char>,
    pub extra_args: Seq<Seq<char>>,
    pub request_timeout_ms: u64,
    pub daemon: bool,
}

impl View for ServerOptions {
    type V = ServerOptionsView;

    open spec fn view(&self) -> ServerOptionsView {
        ServerOptionsView {
            host: self.host@,
            port: self.port,
            listen: self.listen@,
            extra_args: self.extra_args@.map_values(|a: String| a@),
            request_timeout_ms: self.request_timeout_ms,
            daemon: self.daemon,
        }
    }
}

/// The environment variables the server options fall back on, each when
/// it is set to Unicode text.
#[derive(Debug)]
pub struct ServerEnv {
    pub codex_args: Option<String>,
    pub listen: Option<String>,
    pub host: Option<String>,
    pub port: Option<String>,
    pub request_timeout_ms: Option<String>,
}

pub struct ServerEnvView {
    pub codex_args: Option<Seq<char>>,
    pub listen: Option<Seq<char>>,
    pub host: Option<Seq<char>>,
    pub port: Option<Seq<char>>,
    pub request_timeout_ms: Option<Seq<char>>,
}

impl View for ServerEnv {
    type V = ServerEnvView;

    open spec fn view(&self) -> ServerEnvView {
        ServerEnvView {
            codex_args: opt_text(self.codex_args),
            listen: opt_text(self.listen),
            host: opt_text(self.host),
            port: opt_text(self.port),
            request_timeout_ms: opt_text(self.request_timeout_ms),
        }
    }
}

/// What `serde_json` reads from a text as a list of strings, or the text
/// of its error.
pub uninterp spec fn json_string_list(raw: Seq<char>) -> Result<Seq<Seq<char>>, Seq<char>>;

/// `serde_json::from_str::<Vec<String>>`, with the error as its text. What
/// it accepts and the wording of its errors are the crate's, named
/// `json_string_list`.
#[verifier::external_body]
fn parse_string_list(raw: &str) -> (r: Result<Vec<String>, String>)
    ensures
        match r {
            Ok(v) => json_string_list(raw@) == Ok::<Seq<Seq<char>>, Seq<char>>(
                v@.map_values(|a: String| a@),
            ),
            Err(e) => json_string_list(raw@) == Err::<Seq<Seq<char>>, Seq<char>>(e@),
        },
{
    match serde_json::from_str::<Vec<String>>(raw) {
        Ok(v) => Ok(v),
        Err(e) => Err(e.to_string()),
    }
}

/// The first of two optional texts that is present.
pub open spec fn either(a: Option<Seq<char>>, b: Option<Seq<char>>) -> Option<Seq<char>> {
    match a {
        Some(x) => Some(x),
        None => b,
    }
}

pub open spec fn or_default(a: Option<Seq<char>>, d: Seq<char>) -> Seq<char> {
    match a {
        Some(x) => x,
        None => d,
    }
}

/// A text that is not the default transport.
pub open spec fn other_transport(listen: Option<Seq<char>>) -> bool {
    listen matches Some(v) && v != DEFAULT_LISTEN@
}

/// The server port: from the option or the environment, which must then be
/// an integer in 1..65535, else the default.
pub open spec fn port_spec(text: Option<Seq<char>>, default_port: u16) -> Result<u16, Seq<char>> {
    match text {
        None => Ok(default_port),
        Some(t) => match parse_unsigned(t, 65535) {
            Some(n) => if n > 0 {
                Ok(n as u16)
            } else {
                Err("port must be an integer in 1..65535"@)
            },
            None => Err("port must be an integer in 1..65535"@),
        },
    }
}

/// The request timeout: the option when it is an integer, else the
/// environment's when it is one, else the default.
pub open spec fn timeout_spec(option: Option<Seq<char>>, env: Option<Seq<char>>) -> u64 {
    let from_option = match option {
        Some(t) => parse_unsigned(t, u64::MAX as nat),
        None => None,
    };
    match from_option {
        Some(n) => n as u64,
        None => match env {
            Some(t) => match parse_unsigned(t, u64::MAX as nat) {
                Some(n) => n as u64,
                None => DEFAULT_REQUEST_TIMEOUT_MS,
            },
            None => DEFAULT_REQUEST_TIMEOUT_MS,
        },
    }
}

/// The server options of a command line, falling back on the environment
/// and then on the defaults; the transport is fixed and extra Codex
/// arguments are refused.
pub open spec fn server_options_spec(p: ParsedArgsView, env: ServerEnvView, default_port: u16) -> Result<
    ServerOptionsView,
    Seq<char>,
> {
    let extra = match p.values.get_str("codexArgs"@) {
        Some(raw) => json_string_list(raw),
        None => match env.codex_args {
            Some(raw) => json_string_list(raw),
            None => Ok(Seq::empty()),
        },
    };
    match extra {
        Err(e) => Err(e),
        Ok(extra_args) => if other_transport(p.values.get_str("listen"@)) || other_transport(
            env.listen,
        ) || extra_args.len() > 0 {
            Err(TRANSPORT_REFUSED@)
        } else {
            match port_spec(either(p.values.get_str("port"@), env.port), default_port) {
                Err(e) => Err(e),
                Ok(port) => Ok(
                    ServerOptionsView {
                        host: or_default(either(p.values.get_str("host"@), env.host), DEFAULT_HOST@),
                        port,
                        listen: or_default(
                            either(p.values.get_str("listen"@), env.listen),
                            DEFAULT_LISTEN@,
                        ),
                        extra_args,
                        request_timeout_ms: timeout_spec(
                            p.values.get_str("requestTimeoutMs"@),
                            env.request_timeout_ms,
                        ),
                        daemon: p.daemon,
                    },
                ),
            }
        },
    }
}

fn option_text(parsed: &ParsedArgs, key: &str) -> (r: Option<String>)
    ensures
        opt_text(r) == parsed@.values.get_str(key@),
{
    match parsed.values.get_str(key) {
        Some(v) => Some(string_of(chars_of(v.as_str()).as_slice())),
        None => None,
    }
}

fn copy_opt(s: &Option<String>) -> (r: Option<String>)
    ensures
        opt_text(r) == opt_text(*s),
{
    match s {
        Some(v) => Some(string_of(chars_of(v.as_str()).as_slice())),
        None => None,
    }
}

fn first_of(a: Option<String>, b: &Option<String>) -> (r: Option<String>)
    ensures
        opt_text(r) == either(opt_text(a), opt_text(*b)),
{
    match a {
        Some(x) => Some(x),
        None => copy_opt(b),
    }
}

fn other_transport_of(listen: &Option<String>) -> (r: bool)
    ensures
        r == other_transport(opt_text(*listen)),
{
    match listen {
        Some(v) => !str_eq(v.as_str(), DEFAULT_LISTEN),
        None => false,
    }
}

fn parse_timeout(t: &Option<String>) -> (r: Option<u64>)
    ensures
        match opt_text(*t) {
            Some(x) => match parse_unsigned(x, u64::MAX as nat) {
                Some(n) => r == Some(n as u64),
                None => r is None,
            },
            None => r is None,
        },
{
    match t {
        Some(x) => parse_unsigned_at_most(x.as_str(), u64::MAX),
        None => None,
    }
}

/// The options `start` and `stop` run with; `default_port` is the port the
/// connector's manifest declares.
pub fn server_options(parsed: &ParsedArgs, env: &ServerEnv, default_port: u16) -> (r: Result<
    ServerOptions,
    String,
>)
    ensures
        match server_options_spec(parsed@, env@, default_port) {
            Ok(o) => r is Ok && r->Ok_0@ == o,
            Err(e) => r is Err && r->Err_0@ == e,
        },
{
    let extra_args = match option_text(parsed, "codexArgs") {
        Some(raw) => parse_string_list(raw.as_str()),
        None => match &env.codex_args {
            Some(raw) => parse_string_list(raw.as_str()),
            None => {
                let v: Vec<String> = Vec::new();
                assert(v@.map_values(|a: String| a@) =~= Seq::<Seq<char>>::empty());
                Ok(v)
            },
        },
    };
    let extra_args = match extra_args {
        Ok(v) => v,
        Err(e) => {
            return Err(e);
        },
    };
    let listen_option = option_text(parsed, "listen");
    if other_transport_of(&listen_option) || other_transport_of(&env.listen) || extra_args.len() > 0 {
        return Err(String::from_str(TRANSPORT_REFUSED));
    }
    let port_text = first_of(option_text(parsed, "port"), &env.port);
    let port: u16 = match &port_text {
        None => default_port,
        Some(t) => match parse_unsigned_at_most(t.as_str(), 65535) {
            Some(n) => if n > 0 {
                n as u16
            } else {
                return Err(String::from_str("port must be an integer in 1..65535"));
            },
            None => {
                return Err(String::from_str("port must be an integer in 1..65535"));
            },
        },
    };
    let host = match first_of(option_text(parsed, "host"), &env.host) {
        Some(h) => h,
        None => String::from_str(DEFAULT_HOST),
    };
    let listen = match first_of(listen_option, &env.listen) {
        Some(l) => l,
        None => String::from_str(DEFAULT_LISTEN),
    };
    let request_timeout_ms = match parse_timeout(&option_text(parsed, "requestTimeoutMs")) {
        Some(n) => n,
        None => match parse_timeout(&env.request_timeout_ms) {
            Some(n) => n,
            None => DEFAULT_REQUEST_TIMEOUT_MS,
        },
    };
    Ok(ServerOptions { host, port, listen, extra_args, request_timeout_ms, daemon: parsed.daemon })
}

/// The server only ever runs over the stdio transport and without extra
/// Codex arguments, whatever the command line and environment say.
pub proof fn law_transport_is_fixed(p: ParsedArgsView, env: ServerEnvView, default_port: u16)
    ensures
        server_options_spec(p, env, default_port) matches Ok(o) ==> o.listen == DEFAULT_LISTEN@
            && o.extra_args.len() == 0,
{
}

/// Without `--port` and without the port variable, the server takes the
/// manifest's default port.
pub proof fn law_default_port(p: ParsedArgsView, env: ServerEnvView, default_port: u16)
    requires
        p.values.get_str("port"@) is None,
        env.port is None,
    ensures
        server_options_spec(p, env, default_port) matches Ok(o) ==> o.port == default_port,
{
}

/// A valid `--port` is taken over the port variable.
pub proof fn law_port_option_wins(
    p: ParsedArgsView,
    env: ServerEnvView,
    default_port: u16,
    text: Seq<char>,
    port: u16,
)
    requires
        p.values.get_str("port"@) == Some(text),
        parse_unsigned(text, 65535) == Some(port as nat),
        port > 0,
    ensures
        server_options_spec(p, env, default_port) matches Ok(o) ==> o.port == port,
{
}

/// Without `--port`, a valid port variable is taken over the manifest's
/// default.
pub proof fn law_port_from_environment(
    p: ParsedArgsView,
    env: ServerEnvView,
    default_port: u16,
    text: Seq<char>,
    port: u16,
)
    requires
        p.values.get_str("port"@) is None,
        env.port == Some(text),
        parse_unsigned(text, 65535) == Some(port as nat),
        port > 0,
    ensures
        server_options_spec(p, env, default_port) matches Ok(o) ==> o.port == port,
{
}

/// `camel` keeps a run of lower-case letters as it is.
proof fn lemma_camel_lower_prefix(a: Seq<char>, b: Seq<char>)
    requires
        forall|i: int| 0 <= i < a.len() ==> 'a' <= #[trigger] a[i] && a[i] <= 'z',
    ensures
        camel(a + b, false) == a + camel(b, false),
    decreases a.len(),
{
    if a.len() == 0 {
        assert(a + b =~= b);
    } else {
        let s = a + b;
        assert(s[0] == a[0]);
        assert(s.drop_first() =~= a.drop_first() + b);
        lemma_camel_lower_prefix(a.drop_first(), b);
        assert(seq![a[0]] + (a.drop_first() + camel(b, false)) =~= a + camel(b, false));
    }
}

/// `camel` drops a `-` and upper-cases the lower-case letter after it.
proof fn lemma_camel_dash(c: char, rest: Seq<char>)
    requires
        'a' <= c && c <= 'z',
    ensures
        camel(seq!['-', c] + rest, false) == seq![ascii_upper(c)] + camel(rest, false),
{
    let s = seq!['-', c] + rest;
    assert(s[0] == '-');
    assert(s.drop_first() =~= seq![c] + rest);
    let t = seq![c] + rest;
    assert(t[0] == c);
    assert(t.drop_first() =~= rest);
    assert(camel(s, false) == camel(t, true));
    assert(camel(t, true) == upper_of(c) + camel(rest, false));
    assert(upper_of(c) == seq![ascii_upper(c)]);
}

/// The key under which `--request-timeout-ms` is parsed.
proof fn lemma_request_timeout_key()
    ensures
        camel_case("request-timeout-ms"@) == "requestTimeoutMs"@,
{
    reveal_strlit("request-timeout-ms");
    reveal_strlit("requestTimeoutMs");
    let request = seq!['r', 'e', 'q', 'u', 'e', 's', 't'];
    let imeout = seq!['i', 'm', 'e', 'o', 'u', 't'];
    let s_tail = seq!['s'];
    let tail3 = seq!['-', 'm'] + s_tail;
    let tail2 = imeout + tail3;
    let tail1 = seq!['-', 't'] + tail2;
    assert("request-timeout-ms"@ =~= request + tail1);
    lemma_camel_lower_prefix(request, tail1);
    lemma_camel_dash('t', tail2);
    lemma_camel_lower_prefix(imeout, tail3);
    lemma_camel_dash('m', s_tail);
    lemma_camel_lower_prefix(s_tail, Seq::empty());
    assert(s_tail + Seq::<char>::empty() =~= s_tail);
    assert(ascii_upper('t') == 'T');
    assert(ascii_upper('m') == 'M');
    assert(request + (seq!['T'] + (imeout + (seq!['M'] + s_tail))) =~= "requestTimeoutMs"@);
}

/// `--request-timeout-ms <value>` is read, under the option's camelCase
/// name, into the values that the server options are taken from.
pub proof fn law_timeout_option_is_parsed(command: Seq<char>, value: Seq<char>)
    ensures
        parse_args_spec(seq![command, "--request-timeout-ms"@, value]) matches Ok(p)
            && p.values.get_str(camel_case("request-timeout-ms"@)) == Some(value),
{
    reveal_strlit("--request-timeout-ms");
    reveal_strlit("request-timeout-ms");
    reveal_strlit("requestTimeoutMs");
    reveal_strlit("--");
    reveal_strlit("codexBinary");
    reveal_strlit("daemon");
    reveal_strlit("help");
    reveal_strlit("version");
    lemma_request_timeout_key();
    let args = seq![command, "--request-timeout-ms"@, value];
    let raw = args[1].skip(2);
    assert(raw =~= "request-timeout-ms"@);
    assert(args[1].take(2) =~= "--"@);
    lemma_first_index_of(raw, '=');
    assert(first_index_of(raw, '=') == raw.len());
    assert(key_and_inline(raw) == (raw, Seq::<char>::empty()));
    let key = "requestTimeoutMs"@;
    assert(key.len() == 16);
    assert(key != "codexBinary"@);
    assert(!is_flag(key));
    let start = ParsedArgsView {
        command: command,
        values: JsonView::Object(Seq::empty()),
        daemon: false,
        help: false,
        version: false,
    };
    let acc = with_value(start, key, value);
    assert(parse_from(args, 1, start) == parse_from(args, 3, acc));
    assert(parse_from(args, 3, acc) == Ok::<ParsedArgsView, Seq<char>>(acc));
    crate::json::lemma_with_get(JsonView::Object(Seq::empty()), key, JsonView::Str(value), key);
}

/// A request timeout given as `--request-timeout-ms <n>` is the one the
/// server runs with, whatever the environment says.
pub proof fn law_timeout_option_wins(
    p: ParsedArgsView,
    env: ServerEnvView,
    default_port: u16,
    text: Seq<char>,
    n: u64,
)
    requires
        p.values.get_str(camel_case("request-timeout-ms"@)) == Some(text),
        parse_unsigned(text, u64::MAX as nat) == Some(n as nat),
    ensures
        server_options_spec(p, env, default_port) matches Ok(o) ==> o.request_timeout_ms == n,
{
    lemma_request_timeout_key();
}

/// Without `--request-timeout-ms`, the request timeout is the environment's
/// when it is a decimal number, else the default.
pub proof fn law_timeout_from_environment(p: ParsedArgsView, env: ServerEnvView, default_port: u16)
    requires
        p.values.get_str(camel_case("request-timeout-ms"@)) is None,
    ensures
        server_options_spec(p, env, default_port) matches Ok(o) ==> o.request_timeout_ms == (
        match env.request_timeout_ms {
            Some(t) => match parse_unsigned(t, u64::MAX as nat) {
                Some(n) => n as u64,
                None => DEFAULT_REQUEST_TIMEOUT_MS,
            },
            None => DEFAULT_REQUEST_TIMEOUT_MS,
        }),
{
    lemma_request_timeout_key();
}

/// What `help` prints.
pub fn help_text() -> (r: String)
    ensures
        r@ == crate::http::CONNECTOR_NAME@ + " "@ + crate::events::CONNECTOR_VERSION@
            + "\nCommands: start [--host <loopback>] [--port <port>] [--daemon], status, stop, checkout-project, --version"@,
{
    let a = concat(crate::http::CONNECTOR_NAME, " ");
    let b = concat(a.as_str(), crate::events::CONNECTOR_VERSION);
    concat(
        b.as_str(),
        "\nCommands: start [--host <loopback>] [--port <port>] [--daemon], status, stop, checkout-project, --version",
    )
}

/// The default port a connector manifest declares, at
/// `configSchema.properties.port.default`, taken modulo 65536 as the
/// connector reads it.
pub open spec fn manifest_port_spec(manifest: JsonView) -> Option<u16> {
    let v = match manifest.get("configSchema"@) {
        Some(a) => match a.get("properties"@) {
            Some(b) => match b.get("port"@) {
                Some(c) => match c.get("default"@) {
                    Some(d) => d.as_u64(),
                    None => None,
                },
                None => None,
            },
            None => None,
        },
        None => None,
    };
    match v {
        Some(n) => Some(n as u16),
        None => None,
    }
}

pub fn manifest_port(manifest: &Json) -> (r: Option<u16>)
    ensures
        r == manifest_port_spec(manifest@),
{
    let v = match manifest.get("configSchema") {
        Some(a) => match a.get("properties") {
            Some(b) => match b.get("port") {
                Some(c) => match c.get("default") {
                    Some(d) => d.as_u64(),
                    None => None,
                },
                None => None,
            },
            None => None,
        },
        None => None,
    };
    match v {
        Some(n) => Some(#[verifier::truncate] (n as u16)),
        None => None,
    }
}

} // verus!
