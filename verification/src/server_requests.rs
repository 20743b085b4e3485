//! Connection-local JSON-RPC requests that the Codex app-server makes of
//! the connector (approvals and user input). They are pending protocol
//! frames: a reply answers exactly one of them, once.
use vstd::prelude::*;

use crate::event_store::{ConnectorEventView, EventLog, PushOutcome};
use crate::http::{plain_error, HttpError, HttpErrorView};
use crate::json::{
    entries_view, items_view, jobject, ji64, jstr, json_view, lemma_entries_view, lemma_items_view,
    lookup, Json, JsonNumber, JsonView,
};
use crate::text::str_eq;

verus! {

/// The most requests that may be pending at once.
pub const MAX_PENDING_REQUESTS: usize = 128;

pub const COMMAND_APPROVAL: &'static str = "item/commandExecution/requestApproval";

pub const FILE_CHANGE_APPROVAL: &'static str = "item/fileChange/requestApproval";

pub const USER_INPUT: &'static str = "item/tool/requestUserInput";

/// A JSON-RPC request id: an integer or a string.
#[derive(Debug)]
pub enum RequestId {
    Number(i64),
    Text(String),
}

pub enum RequestIdView {
    Number(i64),
    Text(Seq<char>),
}

impl View for RequestId {
    type V = RequestIdView;

    open spec fn view(&self) -> RequestIdView {
        match self {
            RequestId::Number(n) => RequestIdView::Number(*n),
            RequestId::Text(s) => RequestIdView::Text(s@),
        }
    }
}

impl RequestId {
    pub fn copy(&self) -> (r: RequestId)
        ensures
            r@ == self@,
    {
        match self {
            RequestId::Number(n) => RequestId::Number(*n),
            RequestId::Text(s) => RequestId::Text(s.clone()),
        }
    }

    pub fn same(&self, other: &RequestId) -> (r: bool)
        ensures
            r == (self@ == other@),
    {
        match self {
            RequestId::Number(a) => match other {
                RequestId::Number(b) => *a == *b,
                _ => false,
            },
            RequestId::Text(a) => match other {
                RequestId::Text(b) => str_eq(a.as_str(), b.as_str()),
                _ => false,
            },
        }
    }

    /// The JSON value of the id.
    pub fn to_json(&self) -> (r: Json)
        ensures
            r@ == id_json(self@),
    {
        match self {
            RequestId::Number(n) => Json::i64_of(*n),
            RequestId::Text(s) => Json::Str(s.clone()),
        }
    }
}

pub open spec fn id_json(id: RequestIdView) -> JsonView {
    match id {
        RequestIdView::Number(n) => ji64(n),
        RequestIdView::Text(s) => JsonView::Str(s),
    }
}

/// The id a JSON value denotes: an integer that fits `i64`, or a string.
pub open spec fn request_id_from(j: JsonView) -> Option<RequestIdView> {
    match j {
        JsonView::Number(JsonNumber::PosInt(u)) => if u <= i64::MAX as u64 {
            Some(RequestIdView::Number(u as i64))
        } else {
            None
        },
        JsonView::Number(JsonNumber::NegInt(n)) => Some(RequestIdView::Number(n)),
        JsonView::Str(s) => Some(RequestIdView::Text(s)),
        _ => None,
    }
}

pub fn request_id_from_json(j: &Json) -> (r: Option<RequestId>)
    ensures
        match request_id_from(j@) {
            Some(id) => r is Some && r->0@ == id,
            None => r is None,
        },
{
    match j {
        Json::Number(JsonNumber::PosInt(u)) => {
            if *u <= 9223372036854775807u64 {
                Some(RequestId::Number(*u as i64))
            } else {
                None
            }
        },
        Json::Number(JsonNumber::NegInt(n)) => Some(RequestId::Number(*n)),
        Json::Str(s) => Some(RequestId::Text(s.clone())),
        _ => None,
    }
}

/// The user's decision on an approval request.
#[derive(Clone, Copy, Debug, PartialEq, Eq, Structural)]
pub enum Decision {
    Accept,
    Decline,
    Cancel,
}

pub open spec fn decision_name(d: Decision) -> Seq<char> {
    match d {
        Decision::Accept => "accept"@,
        Decision::Decline => "decline"@,
        Decision::Cancel => "cancel"@,
    }
}

/// The decision a variant name denotes.
pub open spec fn decision_named(s: Seq<char>) -> Option<Decision> {
    if s == "accept"@ {
        Some(Decision::Accept)
    } else if s == "decline"@ {
        Some(Decision::Decline)
    } else if s == "cancel"@ {
        Some(Decision::Cancel)
    } else {
        None
    }
}

/// A decision is written as its name, or as an object whose single member
/// is named after it with the value `null`.
pub open spec fn decision_from(j: JsonView) -> Option<Decision> {
    match j {
        JsonView::Str(s) => decision_named(s),
        JsonView::Object(es) => if es.len() == 1 && es[0].1 == JsonView::Null {
            decision_named(es[0].0)
        } else {
            None
        },
        _ => None,
    }
}

/// Whether every member of an object is one of `names`.
pub open spec fn only_keys(es: Seq<(Seq<char>, JsonView)>, names: Seq<Seq<char>>) -> bool {
    forall|i: int| 0 <= i < es.len() ==> names.contains(#[trigger] es[i].0)
}

/// The fields of a record with the given field names and no others: an
/// object with exactly those members, or an array of that many elements.
pub open spec fn record_fields(j: JsonView, names: Seq<Seq<char>>) -> Option<Seq<JsonView>> {
    match j {
        JsonView::Object(es) => if only_keys(es, names) && (forall|k: int|
            0 <= k < names.len() ==> #[trigger] lookup(es, names[k]) is Some) {
            Some(Seq::new(names.len(), |k: int| lookup(es, names[k])->Some_0))
        } else {
            None
        },
        JsonView::Array(items) => if items.len() == names.len() {
            Some(items)
        } else {
            None
        },
        _ => None,
    }
}

/// `{"decision": ...}`.
pub open spec fn decision_reply_from(j: JsonView) -> Option<Decision> {
    match record_fields(j, seq!["decision"@]) {
        Some(f) => decision_from(f[0]),
        None => None,
    }
}

pub open spec fn string_list_from(items: Seq<JsonView>) -> Option<Seq<Seq<char>>>
    decreases items.len(),
{
    if items.len() == 0 {
        Some(Seq::empty())
    } else {
        match (string_list_from(items.drop_last()), items.last()) {
            (Some(p), JsonView::Str(s)) => Some(p.push(s)),
            _ => None,
        }
    }
}

/// An array of strings.
pub open spec fn strings_from(j: JsonView) -> Option<Seq<Seq<char>>> {
    match j {
        JsonView::Array(items) => string_list_from(items),
        _ => None,
    }
}

/// `{"answers": [strings]}`: the answer to one question.
pub open spec fn answer_from(j: JsonView) -> Option<Seq<Seq<char>>> {
    match record_fields(j, seq!["answers"@]) {
        Some(f) => strings_from(f[0]),
        None => None,
    }
}

pub open spec fn answer_entries_from(es: Seq<(Seq<char>, JsonView)>) -> Option<
    Seq<(Seq<char>, Seq<Seq<char>>)>,
>
    decreases es.len(),
{
    if es.len() == 0 {
        Some(Seq::empty())
    } else {
        match (answer_entries_from(es.drop_last()), answer_from(es.last().1)) {
            (Some(p), Some(a)) => Some(p.push((es.last().0, a))),
            _ => None,
        }
    }
}

/// `{"answers": {question id: answer}}`.
pub open spec fn answers_reply_from(j: JsonView) -> Option<Seq<(Seq<char>, Seq<Seq<char>>)>> {
    match record_fields(j, seq!["answers"@]) {
        Some(f) => match f[0] {
            JsonView::Object(es) => answer_entries_from(es),
            _ => None,
        },
        None => None,
    }
}

/// The result of a reply.
#[derive(Debug)]
pub enum ReplyResult {
    Decision(Decision),
    Answers(Vec<(String, Vec<String>)>),
}

pub enum ReplyResultView {
    Decision(Decision),
    Answers(Seq<(Seq<char>, Seq<Seq<char>>)>),
}

pub open spec fn strings_view(v: Seq<String>) -> Seq<Seq<char>> {
    v.map_values(|s: String| s@)
}

pub open spec fn answers_view(v: Seq<(String, Vec<String>)>) -> Seq<(Seq<char>, Seq<Seq<char>>)> {
    v.map_values(|p: (String, Vec<String>)| (p.0@, strings_view(p.1@)))
}

impl View for ReplyResult {
    type V = ReplyResultView;

    open spec fn view(&self) -> ReplyResultView {
        match self {
            ReplyResult::Decision(d) => ReplyResultView::Decision(*d),
            ReplyResult::Answers(a) => ReplyResultView::Answers(answers_view(a@)),
        }
    }
}

/// A reply result is a decision if it reads as one, else a set of answers.
pub open spec fn reply_result_from(j: JsonView) -> Option<ReplyResultView> {
    match decision_reply_from(j) {
        Some(d) => Some(ReplyResultView::Decision(d)),
        None => match answers_reply_from(j) {
            Some(a) => Some(ReplyResultView::Answers(a)),
            None => None,
        },
    }
}

/// A reply to a pending server request.
#[derive(Debug)]
pub struct Reply {
    pub thread_id: String,
    pub turn_id: String,
    pub request_id: RequestId,
    pub result: ReplyResult,
}

pub struct ReplyView {
    pub thread_id: Seq<char>,
    pub turn_id: Seq<char>,
    pub request_id: RequestIdView,
    pub result: ReplyResultView,
}

impl View for Reply {
    type V = ReplyView;

    open spec fn view(&self) -> ReplyView {
        ReplyView {
            thread_id: self.thread_id@,
            turn_id: self.turn_id@,
            request_id: self.request_id@,
            result: self.result@,
        }
    }
}

pub open spec fn reply_field_names() -> Seq<Seq<char>> {
    seq!["threadId"@, "turnId"@, "requestId"@, "result"@]
}

/// What a reply reads as: `threadId` and `turnId` strings, a `requestId`
/// and a `result`, and no other member (or those four in an array).
pub open spec fn reply_from(j: JsonView) -> Option<ReplyView> {
    match record_fields(j, reply_field_names()) {
        Some(f) => match (f[0], f[1], request_id_from(f[2]), reply_result_from(f[3])) {
            (JsonView::Str(thread_id), JsonView::Str(turn_id), Some(request_id), Some(result)) => Some(
                ReplyView { thread_id, turn_id, request_id, result },
            ),
            _ => None,
        },
        None => None,
    }
}

/// Whether every member of an object is one of `names`.
fn keys_within(entries: &Vec<(String, Json)>, names: &Vec<&str>) -> (r: bool)
    ensures
        r == only_keys(entries_view(entries@), names@.map_values(|n: &str| n@)),
{
    let ghost es = entries_view(entries@);
    let ghost ns = names@.map_values(|n: &str| n@);
    proof {
        lemma_entries_view(entries@);
    }
    let mut i: usize = 0;
    while i < entries.len()
        invariant
            i <= entries@.len(),
            es == entries_view(entries@),
            ns == names@.map_values(|n: &str| n@),
            es.len() == entries@.len(),
            forall|j: int| 0 <= j < entries@.len() ==> #[trigger] es[j] == (entries@[j].0@, json_view(entries@[j].1)),
            forall|j: int| 0 <= j < i ==> ns.contains(#[trigger] es[j].0),
        decreases entries@.len() - i,
    {
        let mut found = false;
        let mut k: usize = 0;
        while k < names.len()
            invariant
                k <= names@.len(),
                ns == names@.map_values(|n: &str| n@),
                i < entries@.len(),
                found ==> ns.contains(entries@[i as int].0@),
                !found ==> forall|m: int| 0 <= m < k ==> ns[m] != entries@[i as int].0@,
            decreases names@.len() - k,
        {
            if str_eq(entries[i].0.as_str(), names[k]) {
                assert(ns[k as int] == entries@[i as int].0@);
                found = true;
            }
            k = k + 1;
        }
        if !found {
            assert(!ns.contains(es[i as int].0));
            return false;
        }
        i = i + 1;
    }
    true
}

/// The fields of a record with the given names: present members of an
/// object with no other members, or the elements of an array of that length.
fn record_of<'a>(j: &'a Json, names: &Vec<&str>) -> (r: Option<Vec<&'a Json>>)
    ensures
        match record_fields(j@, names@.map_values(|n: &str| n@)) {
            Some(f) => r is Some && r->0@.len() == f.len() && forall|k: int|
                0 <= k < f.len() ==> json_view(*#[trigger] r->0@[k]) == f[k],
            None => r is None,
        },
{
    let ghost ns = names@.map_values(|n: &str| n@);
    match j {
        Json::Object(entries) => {
            if !keys_within(entries, names) {
                return None;
            }
            let mut out: Vec<&Json> = Vec::new();
            let mut k: usize = 0;
            while k < names.len()
                invariant
                    *j is Object,
                    j->Object_0 == *entries,
                    k <= names@.len(),
                    ns == names@.map_values(|n: &str| n@),
                    out@.len() == k,
                    forall|m: int|
                        0 <= m < k ==> #[trigger] lookup(entries_view(entries@), ns[m]) == Some(
                            json_view(*out@[m]),
                        ),
                decreases names@.len() - k,
            {
                match j.get(names[k]) {
                    Some(v) => {
                        out.push(v);
                    },
                    None => {
                        assert(lookup(entries_view(entries@), ns[k as int]) is None);
                        return None;
                    },
                }
                k = k + 1;
            }
            assert(record_fields(j@, ns) is Some);
            Some(out)
        },
        Json::Array(items) => {
            proof {
                lemma_items_view(items@);
            }
            if items.len() != names.len() {
                return None;
            }
            let mut out: Vec<&Json> = Vec::new();
            let mut k: usize = 0;
            while k < items.len()
                invariant
                    k <= items@.len(),
                    out@.len() == k,
                    forall|m: int| 0 <= m < k ==> *#[trigger] out@[m] == items@[m],
                decreases items@.len() - k,
            {
                out.push(&items[k]);
                k = k + 1;
            }
            Some(out)
        },
        _ => None,
    }
}

pub fn decision_from_json(j: &Json) -> (r: Option<Decision>)
    ensures
        r == decision_from(j@),
{
    proof {
        if j is Object {
            lemma_entries_view(j->Object_0@);
        }
    }
    let name: &String = match j {
        Json::Str(s) => s,
        Json::Object(entries) => {
            if entries.len() == 1 && matches!(entries[0].1, Json::Null) {
                &entries[0].0
            } else {
                return None;
            }
        },
        _ => {
            return None;
        },
    };
    if str_eq(name.as_str(), "accept") {
        Some(Decision::Accept)
    } else if str_eq(name.as_str(), "decline") {
        Some(Decision::Decline)
    } else if str_eq(name.as_str(), "cancel") {
        Some(Decision::Cancel)
    } else {
        None
    }
}

fn strings_from_json(j: &Json) -> (r: Option<Vec<String>>)
    ensures
        match strings_from(j@) {
            Some(s) => r is Some && strings_view(r->0@) == s,
            None => r is None,
        },
{
    match j {
        Json::Array(items) => {
            proof {
                lemma_items_view(items@);
            }
            let ghost iv = items_view(items@);
            let mut out: Vec<String> = Vec::new();
            let mut k: usize = 0;
            while k < items.len()
                invariant
                    *j is Array,
                    j->Array_0 == *items,
                    k <= items@.len(),
                    iv == items_view(items@),
                    iv.len() == items@.len(),
                    forall|m: int| 0 <= m < items@.len() ==> #[trigger] iv[m] == json_view(items@[m]),
                    string_list_from(iv.take(k as int)) == Some(strings_view(out@)),
                decreases items@.len() - k,
            {
                assert(iv.take(k + 1).drop_last() =~= iv.take(k as int));
                match &items[k] {
                    Json::Str(s) => {
                        out.push(s.clone());
                        assert(strings_view(out@) =~= strings_view(out@).drop_last().push(s@));
                    },
                    _ => {
                        assert(iv.take(k + 1).last() == iv[k as int]);
                        assert(string_list_from(iv.take(k + 1)) is None);
                        assert(string_list_from(iv) is None) by {
                            lemma_string_list_prefix(iv, k + 1);
                        }
                        return None;
                    },
                }
                k = k + 1;
            }
            assert(iv.take(k as int) =~= iv);
            Some(out)
        },
        _ => None,
    }
}

/// A list of strings fails to read when a prefix of it fails to.
proof fn lemma_string_list_prefix(items: Seq<JsonView>, n: int)
    requires
        0 <= n <= items.len(),
        string_list_from(items.take(n)) is None,
    ensures
        string_list_from(items) is None,
    decreases items.len() - n,
{
    if n < items.len() {
        assert(items.take(n + 1).drop_last() =~= items.take(n));
        lemma_string_list_prefix(items, n + 1);
    } else {
        assert(items.take(n) =~= items);
    }
}

/// A list of answers fails to read when a prefix of it fails to.
proof fn lemma_answer_entries_prefix(es: Seq<(Seq<char>, JsonView)>, n: int)
    requires
        0 <= n <= es.len(),
        answer_entries_from(es.take(n)) is None,
    ensures
        answer_entries_from(es) is None,
    decreases es.len() - n,
{
    if n < es.len() {
        assert(es.take(n + 1).drop_last() =~= es.take(n));
        lemma_answer_entries_prefix(es, n + 1);
    } else {
        assert(es.take(n) =~= es);
    }
}

fn answer_from_json(j: &Json) -> (r: Option<Vec<String>>)
    ensures
        match answer_from(j@) {
            Some(s) => r is Some && strings_view(r->0@) == s,
            None => r is None,
        },
{
    let names: Vec<&str> = vec!["answers"];
    assert(names@.map_values(|n: &str| n@) =~= seq!["answers"@]);
    match record_of(j, &names) {
        Some(f) => strings_from_json(f[0]),
        None => None,
    }
}

fn answers_reply_from_json(j: &Json) -> (r: Option<Vec<(String, Vec<String>)>>)
    ensures
        match answers_reply_from(j@) {
            Some(a) => r is Some && answers_view(r->0@) == a,
            None => r is None,
        },
{
    let names: Vec<&str> = vec!["answers"];
    assert(names@.map_values(|n: &str| n@) =~= seq!["answers"@]);
    let f = match record_of(j, &names) {
        Some(f) => f,
        None => {
            return None;
        },
    };
    let entries = match f[0] {
        Json::Object(entries) => entries,
        _ => {
            return None;
        },
    };
    proof {
        lemma_entries_view(entries@);
    }
    let ghost es = entries_view(entries@);
    assert(answers_reply_from(j@) == answer_entries_from(es));
    let mut out: Vec<(String, Vec<String>)> = Vec::new();
    let mut k: usize = 0;
    while k < entries.len()
        invariant
            answers_reply_from(j@) == answer_entries_from(es),
            k <= entries@.len(),
            es == entries_view(entries@),
            es.len() == entries@.len(),
            forall|m: int| 0 <= m < entries@.len() ==> #[trigger] es[m] == (entries@[m].0@, json_view(entries@[m].1)),
            answer_entries_from(es.take(k as int)) == Some(answers_view(out@)),
        decreases entries@.len() - k,
    {
        assert(es.take(k + 1).drop_last() =~= es.take(k as int));
        assert(es.take(k + 1).last() == es[k as int]);
        match answer_from_json(&entries[k].1) {
            Some(a) => {
                out.push((entries[k].0.clone(), a));
                assert(answers_view(out@) =~= answers_view(out@).drop_last().push(
                    (entries@[k as int].0@, strings_view(a@)),
                ));
            },
            None => {
                proof {
                    lemma_answer_entries_prefix(es, k + 1);
                }
                return None;
            },
        }
        k = k + 1;
    }
    assert(es.take(k as int) =~= es);
    Some(out)
}

pub fn reply_result_from_json(j: &Json) -> (r: Option<ReplyResult>)
    ensures
        match reply_result_from(j@) {
            Some(v) => r is Some && r->0@ == v,
            None => r is None,
        },
{
    let names: Vec<&str> = vec!["decision"];
    assert(names@.map_values(|n: &str| n@) =~= seq!["decision"@]);
    if let Some(f) = record_of(j, &names) {
        if let Some(d) = decision_from_json(f[0]) {
            return Some(ReplyResult::Decision(d));
        }
    }
    match answers_reply_from_json(j) {
        Some(a) => Some(ReplyResult::Answers(a)),
        None => None,
    }
}

/// Reads a reply: `threadId` and `turnId` strings, a `requestId` and a
/// `result`, and nothing else.
pub fn reply_from_json(j: &Json) -> (r: Option<Reply>)
    ensures
        match reply_from(j@) {
            Some(v) => r is Some && r->0@ == v,
            None => r is None,
        },
{
    let names: Vec<&str> = vec!["threadId", "turnId", "requestId", "result"];
    assert(names@.map_values(|n: &str| n@) =~= reply_field_names());
    let f = match record_of(j, &names) {
        Some(f) => f,
        None => {
            return None;
        },
    };
    let thread_id = match f[0] {
        Json::Str(s) => s.clone(),
        _ => {
            return None;
        },
    };
    let turn_id = match f[1] {
        Json::Str(s) => s.clone(),
        _ => {
            return None;
        },
    };
    let request_id = match request_id_from_json(f[2]) {
        Some(id) => id,
        None => {
            return None;
        },
    };
    let result = match reply_result_from_json(f[3]) {
        Some(r) => r,
        None => {
            return None;
        },
    };
    Some(Reply { thread_id, turn_id, request_id, result })
}

/// A request from the app-server awaiting the user.
#[derive(Debug)]
pub struct ServerRequest {
    pub request_id: RequestId,
    pub method: String,
    pub thread_id: String,
    pub turn_id: String,
    pub params: Json,
}

pub struct ServerRequestView {
    pub request_id: RequestIdView,
    pub method: Seq<char>,
    pub thread_id: Seq<char>,
    pub turn_id: Seq<char>,
    pub params: JsonView,
}

impl View for ServerRequest {
    type V = ServerRequestView;

    open spec fn view(&self) -> ServerRequestView {
        ServerRequestView {
            request_id: self.request_id@,
            method: self.method@,
            thread_id: self.thread_id@,
            turn_id: self.turn_id@,
            params: self.params@,
        }
    }
}

/// The JSON form of a pending request.
pub open spec fn request_json(r: ServerRequestView) -> JsonView {
    jobject(
        seq![
            ("method"@, jstr(r.method)),
            ("params"@, r.params),
            ("requestId"@, id_json(r.request_id)),
            ("threadId"@, jstr(r.thread_id)),
            ("turnId"@, jstr(r.turn_id)),
        ],
    )
}

pub open spec fn is_server_request_method(m: Seq<char>) -> bool {
    m == COMMAND_APPROVAL@ || m == FILE_CHANGE_APPROVAL@ || m == USER_INPUT@
}

impl ServerRequest {
    pub fn copy(&self) -> (r: ServerRequest)
        ensures
            r@ == self@,
    {
        ServerRequest {
            request_id: self.request_id.copy(),
            method: self.method.clone(),
            thread_id: self.thread_id.clone(),
            turn_id: self.turn_id.clone(),
            params: self.params.copy(),
        }
    }

    pub fn to_json(&self) -> (r: Json)
        ensures
            r@ == request_json(self@),
    {
        let entries: Vec<(String, Json)> = vec![
            (String::from_str("method"), Json::Str(self.method.clone())),
            (String::from_str("params"), self.params.copy()),
            (String::from_str("requestId"), self.request_id.to_json()),
            (String::from_str("threadId"), Json::Str(self.thread_id.clone())),
            (String::from_str("turnId"), Json::Str(self.turn_id.clone())),
        ];
        proof {
            lemma_entries_view(entries@);
            assert(entries_view(entries@) =~= request_json(self@)->Object_0);
        }
        Json::Object(entries)
    }
}

/// The request that a JSON-RPC message from the app-server carries, if the
/// connector handles it: an id, one of the three methods, and `threadId` and
/// `turnId` strings among its params.
pub open spec fn server_request_from(message: JsonView) -> Option<ServerRequestView> {
    let id = match message.get("id"@) {
        Some(v) => v,
        None => JsonView::Null,
    };
    let method = match message.get_str("method"@) {
        Some(m) => m,
        None => Seq::empty(),
    };
    let params = match message.get("params"@) {
        Some(v) => v,
        None => JsonView::Null,
    };
    match (request_id_from(id), params.get_str("threadId"@), params.get_str("turnId"@)) {
        (Some(request_id), Some(thread_id), Some(turn_id)) => if is_server_request_method(method) {
            Some(ServerRequestView { request_id, method, thread_id, turn_id, params })
        } else {
            None
        },
        _ => None,
    }
}

/// The error response the connector writes back for a request it does not
/// take: code `-32601` when unsupported, `-32000` when over capacity or its
/// id is already pending.
pub open spec fn rpc_error(id: JsonView, code: i64, message: Seq<char>) -> JsonView {
    jobject(
        seq![
            ("error"@, jobject(seq![("code"@, ji64(code)), ("message"@, jstr(message))])),
            ("id"@, id),
        ],
    )
}

pub fn rpc_error_json(id: Json, code: i64, message: &str) -> (r: Json)
    ensures
        r@ == rpc_error(id@, code, message@),
{
    let inner: Vec<(String, Json)> = vec![
        (String::from_str("code"), Json::i64_of(code)),
        (String::from_str("message"), Json::str_of(message)),
    ];
    proof {
        lemma_entries_view(inner@);
    }
    let inner_json = Json::Object(inner);
    assert(inner_json@ == jobject(seq![("code"@, ji64(code)), ("message"@, jstr(message@))])) by {
        assert(entries_view(inner@) =~= seq![("code"@, ji64(code)), ("message"@, jstr(message@))]);
    }
    let outer: Vec<(String, Json)> = vec![
        (String::from_str("error"), inner_json),
        (String::from_str("id"), id),
    ];
    proof {
        lemma_entries_view(outer@);
        assert(entries_view(outer@) =~= rpc_error(id@, code, message@)->Object_0);
    }
    Json::Object(outer)
}

/// What receiving a request leads to.
#[derive(Debug)]
pub enum ReceiveOutcome {
    /// The request is now pending; it is announced as this event payload.
    Registered(Json),
    /// The request is refused with this response.
    Refused(Json),
}

/// The requests pending on one connection, each id at most once, never more
/// than `MAX_PENDING_REQUESTS`.
#[derive(Debug)]
pub struct PendingRequests {
    requests: Vec<ServerRequest>,
}

pub open spec fn requests_view(s: Seq<ServerRequest>) -> Seq<ServerRequestView> {
    s.map_values(|r: ServerRequest| r@)
}

/// The position of the pending request with the given id, or the number of
/// pending requests.
pub open spec fn id_index(s: Seq<ServerRequestView>, id: RequestIdView) -> int
    decreases s.len(),
{
    if s.len() == 0 {
        0
    } else if s[0].request_id == id {
        0
    } else {
        1 + id_index(s.drop_first(), id)
    }
}

pub open spec fn pending_with(s: Seq<ServerRequestView>, id: RequestIdView) -> Option<ServerRequestView> {
    if id_index(s, id) < s.len() {
        Some(s[id_index(s, id)])
    } else {
        None
    }
}

pub open spec fn unique_ids(s: Seq<ServerRequestView>) -> bool {
    forall|i: int, j: int| 0 <= i < j < s.len() ==> s[i].request_id != s[j].request_id
}

proof fn lemma_id_index(s: Seq<ServerRequestView>, id: RequestIdView)
    ensures
        0 <= id_index(s, id) <= s.len(),
        id_index(s, id) < s.len() ==> s[id_index(s, id)].request_id == id,
        forall|j: int| 0 <= j < id_index(s, id) ==> s[j].request_id != id,
    decreases s.len(),
{
    if s.len() > 0 && s[0].request_id != id {
        lemma_id_index(s.drop_first(), id);
        assert forall|j: int| 0 <= j < id_index(s, id) implies s[j].request_id != id by {
            if j > 0 {
                assert(s[j] == s.drop_first()[j - 1]);
            }
        }
    }
}

impl View for PendingRequests {
    type V = Seq<ServerRequestView>;

    closed spec fn view(&self) -> Seq<ServerRequestView> {
        requests_view(self.requests@)
    }
}

pub open spec fn pending_wf(s: Seq<ServerRequestView>) -> bool {
    s.len() <= MAX_PENDING_REQUESTS && unique_ids(s)
}

/// The pending requests after receiving a message.
pub open spec fn received(s: Seq<ServerRequestView>, message: JsonView) -> Seq<ServerRequestView> {
    match server_request_from(message) {
        Some(r) => if s.len() < MAX_PENDING_REQUESTS && pending_with(s, r.request_id) is None {
            s.push(r)
        } else {
            s
        },
        None => s,
    }
}

/// The pending requests after answering the one with `id`.
pub open spec fn answered(s: Seq<ServerRequestView>, id: RequestIdView) -> Seq<ServerRequestView> {
    let i = id_index(s, id);
    if i < s.len() {
        s.remove(i)
    } else {
        s
    }
}

impl PendingRequests {
    pub fn new() -> (r: PendingRequests)
        ensures
            r@ == Seq::<ServerRequestView>::empty(),
    {
        PendingRequests { requests: Vec::new() }
    }

    pub fn len(&self) -> (r: usize)
        ensures
            r == self@.len(),
    {
        self.requests.len()
    }

    fn find(&self, id: &RequestId) -> (r: usize)
        ensures
            r == id_index(self@, id@),
    {
        proof {
            lemma_id_index(self@, id@);
        }
        let mut i: usize = 0;
        while i < self.requests.len()
            invariant
                i <= self.requests@.len(),
                self@ == requests_view(self.requests@),
                forall|j: int| 0 <= j < i ==> self@[j].request_id != id@,
                0 <= id_index(self@, id@) <= self@.len(),
                id_index(self@, id@) < self@.len() ==> self@[id_index(self@, id@)].request_id == id@,
                forall|j: int| 0 <= j < id_index(self@, id@) ==> self@[j].request_id != id@,
            decreases self.requests@.len() - i,
        {
            if self.requests[i].request_id.same(id) {
                proof {
                    if id_index(self@, id@) < i {
                        assert(self@[id_index(self@, id@)].request_id != id@);
                    }
                    if id_index(self@, id@) > i {
                        assert(self@[i as int].request_id == id@);
                    }
                }
                return i;
            }
            i = i + 1;
        }
        proof {
            if id_index(self@, id@) < self@.len() {
                assert(self@[id_index(self@, id@)].request_id != id@);
            }
        }
        i
    }

    /// Takes a JSON-RPC request from the app-server: a supported request with
    /// a free id is kept pending (while fewer than `MAX_PENDING_REQUESTS` are)
    /// and announced; any other is refused with an error response.
    pub fn receive(&mut self, message: &Json) -> (r: ReceiveOutcome)
        requires
            pending_wf(old(self)@),
        ensures
            pending_wf(final(self)@),
            final(self)@ == received(old(self)@, message@),
            match server_request_from(message@) {
                None => r matches ReceiveOutcome::Refused(e) && e@ == rpc_error(
                    opt_or_null(message@.get("id"@)),
                    -32601i64,
                    "Unsupported connector server request"@,
                ),
                Some(req) => if old(self)@.len() < MAX_PENDING_REQUESTS && pending_with(
                    old(self)@,
                    req.request_id,
                ) is None {
                    r matches ReceiveOutcome::Registered(e) && e@ == request_json(req)
                } else {
                    r matches ReceiveOutcome::Refused(e) && e@ == rpc_error(
                        opt_or_null(message@.get("id"@)),
                        -32000i64,
                        "Server request capacity or identity conflict"@,
                    )
                },
            },
    {
        let id = match message.get("id") {
            Some(v) => v.copy(),
            None => Json::Null,
        };
        let method: String = match message.get_str("method") {
            Some(m) => m.clone(),
            None => String::new(),
        };
        let params = match message.get("params") {
            Some(v) => v.copy(),
            None => Json::Null,
        };
        let request_id = request_id_from_json(&id);
        let thread_id = params.get_str("threadId");
        let turn_id = params.get_str("turnId");
        let supported = str_eq(method.as_str(), COMMAND_APPROVAL) || str_eq(
            method.as_str(),
            FILE_CHANGE_APPROVAL,
        ) || str_eq(method.as_str(), USER_INPUT);
        if request_id.is_none() || thread_id.is_none() || turn_id.is_none() || !supported {
            return ReceiveOutcome::Refused(
                rpc_error_json(id, -32601, "Unsupported connector server request"),
            );
        }
        let request = ServerRequest {
            request_id: request_id.unwrap(),
            method,
            thread_id: thread_id.unwrap().clone(),
            turn_id: turn_id.unwrap().clone(),
            params: params.copy(),
        };
        if self.requests.len() >= MAX_PENDING_REQUESTS || self.find(&request.request_id)
            < self.requests.len() {
            return ReceiveOutcome::Refused(
                rpc_error_json(id, -32000, "Server request capacity or identity conflict"),
            );
        }
        let event = request.to_json();
        let ghost before = self@;
        proof {
            lemma_id_index(before, request@.request_id);
        }
        self.requests.push(request);
        assert(self@ =~= before.push(request@));
        assert(unique_ids(self@)) by {
            assert forall|i: int, j: int| 0 <= i < j < self@.len() implies self@[i].request_id
                != self@[j].request_id by {
                if j == before.len() {
                    assert(before[i].request_id != request@.request_id);
                }
            }
        }
        ReceiveOutcome::Registered(event)
    }

    /// Answers the pending request that `reply` names: when it is pending and
    /// the reply fits it, it stops being pending and the response to send to
    /// the app-server is given; otherwise nothing changes and the error says
    /// why (409 when not pending, else the error of `validate_reply`).
    pub fn respond(&mut self, reply: &Reply) -> (r: Result<Json, HttpError>)
        requires
            pending_wf(old(self)@),
        ensures
            pending_wf(final(self)@),
            match pending_with(old(self)@, reply@.request_id) {
                None => final(self)@ == old(self)@ && r is Err && r->Err_0@ == plain_error(
                    409,
                    "request no longer pending"@,
                ),
                Some(req) => match validate_spec(req, reply@) {
                    Ok(()) => final(self)@ == answered(old(self)@, reply@.request_id) && r is Ok
                        && r->Ok_0@ == jobject(
                        seq![("id"@, id_json(reply@.request_id)), ("result"@, result_json(reply@.result))],
                    ),
                    Err(e) => final(self)@ == old(self)@ && r is Err && r->Err_0@ == e,
                },
            },
    {
        let i = self.find(&reply.request_id);
        if i >= self.requests.len() {
            return Err(HttpError::new(409, "request no longer pending"));
        }
        match validate_reply(&self.requests[i], reply) {
            Ok(()) => {},
            Err(e) => {
                return Err(e);
            },
        }
        let ghost before = self@;
        self.requests.remove(i);
        assert(self@ =~= before.remove(i as int));
        assert(unique_ids(self@)) by {
            assert forall|a: int, b: int| 0 <= a < b < self@.len() implies self@[a].request_id
                != self@[b].request_id by {
                let a0 = if a < i { a } else { a + 1 };
                let b0 = if b < i { b } else { b + 1 };
                assert(self@[a] == before[a0] && self@[b] == before[b0]);
            }
        }
        let entries: Vec<(String, Json)> = vec![
            (String::from_str("id"), reply.request_id.to_json()),
            (String::from_str("result"), reply.result.to_json()),
        ];
        proof {
            lemma_entries_view(entries@);
        }
        assert(entries_view(entries@) =~= seq![
            ("id"@, id_json(reply@.request_id)),
            ("result"@, result_json(reply@.result)),
        ]);
        Ok(Json::Object(entries))
    }

    /// The pending requests of one thread, in the order they arrived.
    pub fn for_thread(&self, thread: &str) -> (r: Json)
        ensures
            r@ == JsonView::Array(
                of_thread(self@, thread@).map_values(|q: ServerRequestView| request_json(q)),
            ),
    {
        let mut out: Vec<Json> = Vec::new();
        let mut i: usize = 0;
        while i < self.requests.len()
            invariant
                i <= self.requests@.len(),
                self@ == requests_view(self.requests@),
                items_view(out@) == of_thread(self@.take(i as int), thread@).map_values(
                    |q: ServerRequestView| request_json(q),
                ),
            decreases self.requests@.len() - i,
        {
            let ghost before = out@;
            proof {
                assert(self@.take(i + 1).drop_last() =~= self@.take(i as int));
                assert(self@.take(i + 1).last() == self@[i as int]);
                lemma_items_view(before);
            }
            if str_eq(self.requests[i].thread_id.as_str(), thread) {
                let j = self.requests[i].to_json();
                out.push(j);
                proof {
                    lemma_items_view(out@);
                    assert(items_view(out@) =~= items_view(before).push(j@));
                }
            }
            i = i + 1;
        }
        assert(self@.take(i as int) =~= self@);
        Json::Array(out)
    }
}

/// The requests of one thread, in order.
pub open spec fn of_thread(s: Seq<ServerRequestView>, thread: Seq<char>) -> Seq<ServerRequestView>
    decreases s.len(),
{
    if s.len() == 0 {
        Seq::empty()
    } else if s.last().thread_id == thread {
        of_thread(s.drop_last(), thread).push(s.last())
    } else {
        of_thread(s.drop_last(), thread)
    }
}

pub open spec fn opt_or_null(v: Option<JsonView>) -> JsonView {
    match v {
        Some(v) => v,
        None => JsonView::Null,
    }
}

/// The JSON form of a reply result.
pub open spec fn result_json(r: ReplyResultView) -> JsonView {
    match r {
        ReplyResultView::Decision(d) => jobject(seq![("decision"@, jstr(decision_name(d)))]),
        ReplyResultView::Answers(a) => jobject(
            seq![
                (
                    "answers"@,
                    jobject(
                        a.map_values(
                            |p: (Seq<char>, Seq<Seq<char>>)|
                                (
                                    p.0,
                                    jobject(
                                        seq![
                                            (
                                                "answers"@,
                                                JsonView::Array(
                                                    p.1.map_values(|s: Seq<char>| jstr(s)),
                                                ),
                                            ),
                                        ],
                                    ),
                                ),
                        ),
                    ),
                ),
            ],
        ),
    }
}

fn strings_json(v: &Vec<String>) -> (r: Json)
    ensures
        r@ == JsonView::Array(strings_view(v@).map_values(|s: Seq<char>| jstr(s))),
{
    let mut out: Vec<Json> = Vec::new();
    let mut i: usize = 0;
    while i < v.len()
        invariant
            i <= v@.len(),
            out@.len() == i,
            forall|k: int| 0 <= k < i ==> json_view(#[trigger] out@[k]) == jstr(v@[k]@),
        decreases v@.len() - i,
    {
        out.push(Json::Str(v[i].clone()));
        i = i + 1;
    }
    proof {
        lemma_items_view(out@);
    }
    assert(items_view(out@) =~= strings_view(v@).map_values(|s: Seq<char>| jstr(s)));
    Json::Array(out)
}

impl ReplyResult {
    pub fn to_json(&self) -> (r: Json)
        ensures
            r@ == result_json(self@),
    {
        match self {
            ReplyResult::Decision(d) => {
                let name = match d {
                    Decision::Accept => "accept",
                    Decision::Decline => "decline",
                    Decision::Cancel => "cancel",
                };
                let entries: Vec<(String, Json)> = vec![
                    (String::from_str("decision"), Json::str_of(name)),
                ];
                proof {
                    lemma_entries_view(entries@);
                }
                assert(entries_view(entries@) =~= seq![("decision"@, jstr(decision_name(*d)))]);
                Json::Object(entries)
            },
            ReplyResult::Answers(a) => {
                let mut members: Vec<(String, Json)> = Vec::new();
                let mut i: usize = 0;
                while i < a.len()
                    invariant
                        i <= a@.len(),
                        members@.len() == i,
                        forall|k: int|
                            0 <= k < i ==> (#[trigger] members@[k]).0@ == a@[k].0@ && json_view(
                                members@[k].1,
                            ) == jobject(
                                seq![
                                    (
                                        "answers"@,
                                        JsonView::Array(
                                            strings_view(a@[k].1@).map_values(
                                                |s: Seq<char>| jstr(s),
                                            ),
                                        ),
                                    ),
                                ],
                            ),
                    decreases a@.len() - i,
                {
                    let inner: Vec<(String, Json)> = vec![
                        (String::from_str("answers"), strings_json(&a[i].1)),
                    ];
                    proof {
                        lemma_entries_view(inner@);
                    }
                    let inner_json = Json::Object(inner);
                    assert(entries_view(inner@) =~= seq![
                        (
                            "answers"@,
                            JsonView::Array(
                                strings_view(a@[i as int].1@).map_values(|s: Seq<char>| jstr(s)),
                            ),
                        ),
                    ]);
                    members.push((a[i].0.clone(), inner_json));
                    i = i + 1;
                }
                proof {
                    lemma_entries_view(members@);
                }
                assert(entries_view(members@) =~= answers_view(a@).map_values(
                    |p: (Seq<char>, Seq<Seq<char>>)|
                        (
                            p.0,
                            jobject(
                                seq![
                                    (
                                        "answers"@,
                                        JsonView::Array(p.1.map_values(|s: Seq<char>| jstr(s))),
                                    ),
                                ],
                            ),
                        ),
                ));
                let answers_json = Json::Object(members);
                let outer: Vec<(String, Json)> = vec![
                    (String::from_str("answers"), answers_json),
                ];
                proof {
                    lemma_entries_view(outer@);
                }
                assert(entries_view(outer@) =~= result_json(self@)->Object_0);
                Json::Object(outer)
            },
        }
    }
}

/// Whether an answer names the question `id`.
pub open spec fn answers_key(a: Seq<(Seq<char>, Seq<Seq<char>>)>, id: Seq<char>) -> bool {
    exists|i: int| 0 <= i < a.len() && #[trigger] a[i].0 == id
}

/// Whether the answers answer exactly the pending questions: as many
/// answers as questions, and every question an `id` string that is answered.
pub open spec fn answers_match(a: Seq<(Seq<char>, Seq<Seq<char>>)>, questions: Seq<JsonView>) -> bool {
    a.len() == questions.len() && forall|i: int|
        0 <= i < questions.len() ==> match #[trigger] questions[i].get_str("id"@) {
            Some(id) => answers_key(a, id),
            None => false,
        }
}

/// What `validate_reply` decides.
pub open spec fn validate_spec(request: ServerRequestView, reply: ReplyView) -> Result<
    (),
    HttpErrorView,
> {
    if reply.thread_id != request.thread_id || reply.turn_id != request.turn_id || reply.request_id
        != request.request_id {
        Err(plain_error(403, "server request belongs to another thread or turn"@))
    } else {
        match reply.result {
            ReplyResultView::Decision(_) => if request.method == COMMAND_APPROVAL@ || request.method
                == FILE_CHANGE_APPROVAL@ {
                Ok(())
            } else {
                Err(plain_error(400, "response does not match server request method"@))
            },
            ReplyResultView::Answers(a) => if request.method == USER_INPUT@ {
                match request.params.get("questions"@) {
                    Some(JsonView::Array(questions)) => if answers_match(a, questions) {
                        Ok(())
                    } else {
                        Err(plain_error(400, "answers do not match pending questions"@))
                    },
                    _ => Err(plain_error(400, "invalid pending questions"@)),
                }
            } else {
                Err(plain_error(400, "response does not match server request method"@))
            },
        }
    }
}

fn answers_contain(a: &Vec<(String, Vec<String>)>, id: &str) -> (r: bool)
    ensures
        r == answers_key(answers_view(a@), id@),
{
    let ghost av = answers_view(a@);
    let mut i: usize = 0;
    while i < a.len()
        invariant
            i <= a@.len(),
            av == answers_view(a@),
            forall|k: int| 0 <= k < i ==> av[k].0 != id@,
        decreases a@.len() - i,
    {
        if str_eq(a[i].0.as_str(), id) {
            assert(av[i as int].0 == id@);
            return true;
        }
        i = i + 1;
    }
    false
}

/// Checks a reply against the pending request it names: same thread, turn
/// and id (else 403); a decision answers an approval, answers answer a
/// request for user input when they answer exactly its questions (else 400).
pub fn validate_reply(request: &ServerRequest, reply: &Reply) -> (r: Result<(), HttpError>)
    ensures
        match validate_spec(request@, reply@) {
            Ok(()) => r is Ok,
            Err(e) => r is Err && r->Err_0@ == e,
        },
{
    if !str_eq(reply.thread_id.as_str(), request.thread_id.as_str()) || !str_eq(
        reply.turn_id.as_str(),
        request.turn_id.as_str(),
    ) || !reply.request_id.same(&request.request_id) {
        return Err(HttpError::new(403, "server request belongs to another thread or turn"));
    }
    match &reply.result {
        ReplyResult::Decision(_) => {
            if str_eq(request.method.as_str(), COMMAND_APPROVAL) || str_eq(
                request.method.as_str(),
                FILE_CHANGE_APPROVAL,
            ) {
                Ok(())
            } else {
                Err(HttpError::new(400, "response does not match server request method"))
            }
        },
        ReplyResult::Answers(answers) => {
            if !str_eq(request.method.as_str(), USER_INPUT) {
                return Err(HttpError::new(400, "response does not match server request method"));
            }
            let questions = match request.params.get("questions") {
                Some(Json::Array(q)) => q,
                _ => {
                    return Err(HttpError::new(400, "invalid pending questions"));
                },
            };
            proof {
                lemma_items_view(questions@);
            }
            let ghost qv = items_view(questions@);
            let ghost av = answers_view(answers@);
            if answers.len() != questions.len() {
                return Err(HttpError::new(400, "answers do not match pending questions"));
            }
            assert(request@.params.get("questions"@) == Some(JsonView::Array(qv)));
            let mut i: usize = 0;
            while i < questions.len()
                invariant
                    request@.params.get("questions"@) == Some(JsonView::Array(qv)),
                    request@.method == USER_INPUT@,
                    reply@.result == ReplyResultView::Answers(av),
                    reply@.thread_id == request@.thread_id,
                    reply@.turn_id == request@.turn_id,
                    reply@.request_id == request@.request_id,
                    av.len() == qv.len(),
                    i <= questions@.len(),
                    qv == items_view(questions@),
                    qv.len() == questions@.len(),
                    av == answers_view(answers@),
                    forall|k: int| 0 <= k < questions@.len() ==> #[trigger] qv[k] == json_view(questions@[k]),
                    forall|k: int|
                        0 <= k < i ==> match #[trigger] qv[k].get_str("id"@) {
                            Some(id) => answers_key(av, id),
                            None => false,
                        },
                decreases questions@.len() - i,
            {
                let ok = match questions[i].get_str("id") {
                    Some(id) => answers_contain(answers, id.as_str()),
                    None => false,
                };
                if !ok {
                    assert(!answers_match(av, qv)) by {
                        assert(qv[i as int] == json_view(questions@[i as int]));
                    }
                    return Err(HttpError::new(400, "answers do not match pending questions"));
                }
                i = i + 1;
            }
            Ok(())
        },
    }
}

/// A reply is accepted only for the request it names in full: its thread,
/// its turn and its id.
pub proof fn law_reply_is_scoped_to_thread_and_turn(request: ServerRequestView, reply: ReplyView)
    requires
        validate_spec(request, reply) is Ok,
    ensures
        reply.thread_id == request.thread_id,
        reply.turn_id == request.turn_id,
        reply.request_id == request.request_id,
{
}

/// A decision answers either kind of approval, a command to run or a file
/// change, when the reply names the request's thread, turn and id; it is
/// refused only for a request that is not an approval.
pub proof fn law_decisions_answer_approvals(request: ServerRequestView, reply: ReplyView)
    requires
        reply.thread_id == request.thread_id,
        reply.turn_id == request.turn_id,
        reply.request_id == request.request_id,
        reply.result is Decision,
    ensures
        validate_spec(request, reply) is Ok <==> (request.method
            == "item/commandExecution/requestApproval"@ || request.method
            == "item/fileChange/requestApproval"@),
{
}

/// Answering a request consumes it: a second reply with the same id is
/// refused as no longer pending, so one approval never grants another.
pub proof fn law_answered_request_is_gone(s: Seq<ServerRequestView>, id: RequestIdView)
    requires
        pending_wf(s),
    ensures
        pending_with(answered(s, id), id) is None,
        pending_wf(answered(s, id)),
{
    lemma_id_index(s, id);
    let i = id_index(s, id);
    if i < s.len() {
        let t = s.remove(i);
        lemma_id_index(t, id);
        if id_index(t, id) < t.len() {
            let j = id_index(t, id);
            let j0 = if j < i { j } else { j + 1 };
            assert(t[j] == s[j0]);
        }
    } else {
        lemma_id_index(s, id);
    }
}

/// The pending set never grows beyond its capacity, and an id is never
/// pending twice.
pub proof fn law_pending_requests_stay_bounded(s: Seq<ServerRequestView>, message: JsonView)
    requires
        pending_wf(s),
    ensures
        pending_wf(received(s, message)),
        received(s, message).len() <= MAX_PENDING_REQUESTS,
{
    match server_request_from(message) {
        Some(r) => {
            if s.len() < MAX_PENDING_REQUESTS && pending_with(s, r.request_id) is None {
                lemma_id_index(s, r.request_id);
                let t = s.push(r);
                assert forall|i: int, j: int| 0 <= i < j < t.len() implies t[i].request_id
                    != t[j].request_id by {
                    if j == s.len() {
                        assert(s[i].request_id != r.request_id);
                    }
                }
            }
        },
        None => {},
    }
}

/// The pending requests of a thread on the ready connection, in the order
/// they arrived; none when no connection is ready.
pub fn pending_server_requests(session: Option<&PendingRequests>, thread: &str) -> (r: Json)
    ensures
        r@ == match session {
            Some(p) => JsonView::Array(
                of_thread(p@, thread@).map_values(|q: ServerRequestView| request_json(q)),
            ),
            None => JsonView::Array(Seq::empty()),
        },
{
    match session {
        Some(p) => p.for_thread(thread),
        None => {
            proof {
                lemma_items_view(Seq::<Json>::empty());
            }
            Json::empty_array()
        },
    }
}

/// The refusal of a reply when no connection to the app-server is ready.
pub fn connection_inactive() -> (r: HttpError)
    ensures
        r@ == plain_error(409, "Codex connection no longer active"@),
{
    HttpError::new(409, "Codex connection no longer active")
}

/// What the caller of a delivered reply is told.
pub fn reply_accepted() -> (r: Json)
    ensures
        r@ == jobject(seq![("accepted"@, JsonView::Bool(true))]),
{
    let entries: Vec<(String, Json)> = vec![(String::from_str("accepted"), Json::Bool(true))];
    proof {
        lemma_entries_view(entries@);
    }
    assert(entries_view(entries@) =~= seq![("accepted"@, JsonView::Bool(true))]);
    Json::Object(entries)
}

/// The method of the event that announces a pending server request.
pub const SERVER_REQUEST_EVENT: &'static str = "connector/serverRequest";

/// What receiving a server request on a session leads to.
#[derive(Debug)]
pub enum ServerRequestOutcome {
    /// The request is pending and was announced in the event log.
    Announced(PushOutcome),
    /// The request is refused with this response to the app-server.
    Refused(Json),
}

/// Takes a JSON-RPC request from the app-server on a session: a request
/// that `receive` keeps pending is announced in the event log as a
/// `connector/serverRequest` event (received at `received_at`) whose
/// parameters are the request; a refused request leaves the log as it was.
pub fn receive_server_request(
    pending: &mut PendingRequests,
    events: &mut EventLog,
    message: &Json,
    received_at: String,
) -> (r: ServerRequestOutcome)
    requires
        pending_wf(old(pending)@),
        old(events)@.wf(),
        match server_request_from(message@) {
            Some(req) => old(pending)@.len() < MAX_PENDING_REQUESTS && pending_with(
                old(pending)@,
                req.request_id,
            ) is None ==> old(events)@.sequence < u64::MAX,
            None => true,
        },
    ensures
        pending_wf(final(pending)@),
        final(pending)@ == received(old(pending)@, message@),
        final(events)@.wf(),
        match server_request_from(message@) {
            None => {
                &&& final(events)@ == old(events)@
                &&& r matches ServerRequestOutcome::Refused(e)
                &&& e@ == rpc_error(
                    opt_or_null(message@.get("id"@)),
                    -32601i64,
                    "Unsupported connector server request"@,
                )
            },
            Some(req) => if old(pending)@.len() < MAX_PENDING_REQUESTS && pending_with(
                old(pending)@,
                req.request_id,
            ) is None {
                &&& r matches ServerRequestOutcome::Announced(o)
                &&& o.event@ == (ConnectorEventView {
                    sequence: (old(events)@.sequence + 1) as u64,
                    received_at: received_at@,
                    method: SERVER_REQUEST_EVENT@,
                    params: request_json(req),
                })
                &&& final(events)@ == old(events)@.pushed(o.event@)
            } else {
                &&& final(events)@ == old(events)@
                &&& r matches ServerRequestOutcome::Refused(e)
                &&& e@ == rpc_error(
                    opt_or_null(message@.get("id"@)),
                    -32000i64,
                    "Server request capacity or identity conflict"@,
                )
            },
        },
{
    match pending.receive(message) {
        ReceiveOutcome::Registered(payload) => {
            let outcome = events.push(SERVER_REQUEST_EVENT, payload, received_at);
            ServerRequestOutcome::Announced(outcome)
        },
        ReceiveOutcome::Refused(response) => ServerRequestOutcome::Refused(response),
    }
}

} // verus!
