//! Normalisation of Codex notifications into platform domain events.
use sha2::Digest;
use vstd::prelude::*;

use crate::json::{
    jobject, jstr, ju64, key_index, lemma_entries_view, lemma_key_index, entries_view, lookup, opt_json,
    Json, JsonView,
};
use crate::text::{decimal, hex_lower, push_char, push_hex_lower, str_eq, u64_to_decimal};

verus! {

pub const CODEX_TURN_COMPLETED: &'static str = "codexTurnCompleted";

pub const CODEX_THREAD_CLOSED: &'static str = "codexThreadClosed";

pub const CODEX_THREAD_ARCHIVED: &'static str = "codexThreadArchived";

pub const CODEX_THREAD_DELETED: &'static str = "codexThreadDeleted";

pub const SCHEMA_VERSION: u64 = 1;

pub const SOURCE: &'static str = "codex-app-server";

/// The version of this connector, stamped into every domain event.
pub const CONNECTOR_VERSION: &'static str = "1.0.0";

/// The SHA-256 digest of a byte string.
pub uninterp spec fn sha256(data: Seq<u8>) -> Seq<u8>;

/// Computes SHA-256 with the `sha2` crate (`Sha256::digest`). The digest is
/// named, not stated; its length is 32 bytes, the output size of SHA-256.
#[verifier::external_body]
fn sha256_digest(data: &[u8]) -> (r: Vec<u8>)
    ensures
        r@ == sha256(data@),
        r@.len() == 32,
{
    sha2::Sha256::digest(data).to_vec()
}

#[derive(Debug)]
pub struct DomainEvent {
    pub name: String,
    pub event_id: String,
    pub occurred_at: String,
    pub payload: Json,
}

pub struct DomainEventView {
    pub name: Seq<char>,
    pub event_id: Seq<char>,
    pub occurred_at: Seq<char>,
    pub payload: JsonView,
}

impl View for DomainEvent {
    type V = DomainEventView;

    open spec fn view(&self) -> DomainEventView {
        DomainEventView {
            name: self.name@,
            event_id: self.event_id@,
            occurred_at: self.occurred_at@,
            payload: self.payload@,
        }
    }
}

/// The text that an event identity is hashed from: a versioned prefix, the
/// event name, then each identity part after a NUL separator.
pub open spec fn identity_text(name: Seq<char>, parts: Seq<Seq<char>>) -> Seq<char>
    decreases parts.len(),
{
    if parts.len() == 0 {
        "baijimu-codex-domain-event-v1"@.push('\0') + name
    } else {
        identity_text(name, parts.drop_last()).push('\0') + parts.last()
    }
}

/// A stable event id: `codex_domain_v1_` and the lower-case hex SHA-256 of
/// the UTF-8 identity text.
pub open spec fn stable_id(name: Seq<char>, parts: Seq<Seq<char>>) -> Seq<char> {
    "codex_domain_v1_"@ + hex_lower(sha256(vstd::utf8::encode_utf8(identity_text(name, parts))))
}

fn stable_event_id(event_name: &str, identity: &Vec<&str>) -> (r: String)
    ensures
        r@ == stable_id(event_name@, identity@.map_values(|p: &str| p@)),
{
    let mut text = String::from_str("baijimu-codex-domain-event-v1");
    push_char(&mut text, '\0');
    text.append(event_name);
    let ghost parts = identity@.map_values(|p: &str| p@);
    let mut i: usize = 0;
    while i < identity.len()
        invariant
            i <= identity@.len(),
            parts == identity@.map_values(|p: &str| p@),
            text@ == identity_text(event_name@, parts.take(i as int)),
        decreases identity@.len() - i,
    {
        assert(parts.take(i as int + 1).drop_last() =~= parts.take(i as int));
        push_char(&mut text, '\0');
        text.append(identity[i]);
        i = i + 1;
    }
    assert(parts.take(i as int) =~= parts);
    let digest = sha256_digest(text.as_str().as_bytes());
    let mut out = String::from_str("codex_domain_v1_");
    push_hex_lower(&mut out, digest.as_slice());
    out
}

/// What `required_string` gives: the member as a non-empty string, or the
/// error that names the method and the field.
pub open spec fn required_string_spec(value: JsonView, field: Seq<char>, method: Seq<char>) -> Result<
    Seq<char>,
    Seq<char>,
> {
    match value.get_str(field) {
        Some(s) if s.len() > 0 => Ok(s),
        _ => Err(method + " is missing string field "@ + field),
    }
}

fn required_string<'a>(value: &'a Json, field: &str, method: &str) -> (r: Result<&'a String, String>)
    ensures
        match required_string_spec(value@, field@, method@) {
            Ok(s) => r is Ok && r->Ok_0@ == s,
            Err(e) => r is Err && r->Err_0@ == e,
        },
{
    match value.get_str(field) {
        Some(s) if s.unicode_len() > 0 => Ok(s),
        _ => {
            let mut e = String::from_str(method);
            e.append(" is missing string field ");
            e.append(field);
            Err(e)
        },
    }
}

pub open spec fn is_final_status(s: Seq<char>) -> bool {
    s == "completed"@ || s == "interrupted"@ || s == "failed"@
}

/// The payload of a normalised `turn/completed` notification.
pub open spec fn turn_completed_payload(
    thread_id: Seq<char>,
    turn_id: Seq<char>,
    status: Seq<char>,
    turn: JsonView,
    occurred_at: Seq<char>,
) -> JsonView {
    jobject(
        seq![
            ("completedAt"@, opt_json(turn.get("completedAt"@))),
            ("connectorVersion"@, jstr(CONNECTOR_VERSION@)),
            ("durationMs"@, opt_json(turn.get("durationMs"@))),
            ("error"@, opt_json(turn.get("error"@))),
            ("occurredAt"@, jstr(occurred_at)),
            ("schemaVersion"@, ju64(SCHEMA_VERSION)),
            ("source"@, jstr(SOURCE@)),
            ("sourceMethod"@, jstr("turn/completed"@)),
            ("status"@, jstr(status)),
            ("threadId"@, jstr(thread_id)),
            ("turnId"@, jstr(turn_id)),
        ],
    )
}

/// The payload of a normalised thread lifecycle notification.
pub open spec fn lifecycle_payload(thread_id: Seq<char>, method: Seq<char>, occurred_at: Seq<char>) -> JsonView {
    jobject(
        seq![
            ("connectorVersion"@, jstr(CONNECTOR_VERSION@)),
            ("occurredAt"@, jstr(occurred_at)),
            ("schemaVersion"@, ju64(SCHEMA_VERSION)),
            ("source"@, jstr(SOURCE@)),
            ("sourceMethod"@, jstr(method)),
            ("threadId"@, jstr(thread_id)),
        ],
    )
}

/// What `normalize_turn_completed` gives.
pub open spec fn turn_completed_spec(params: JsonView, occurred_at: Seq<char>) -> Result<
    Option<DomainEventView>,
    Seq<char>,
> {
    match required_string_spec(params, "threadId"@, "turn/completed"@) {
        Err(e) => Err(e),
        Ok(thread_id) => match params.get("turn"@) {
            Some(turn) if turn.is_object() => match turn.get_str("id"@) {
                Some(turn_id) if turn_id.len() > 0 => match turn.get_str("status"@) {
                    Some(status) if is_final_status(status) => Ok(
                        Some(
                            DomainEventView {
                                name: CODEX_TURN_COMPLETED@,
                                event_id: stable_id(
                                    CODEX_TURN_COMPLETED@,
                                    seq![thread_id, turn_id],
                                ),
                                occurred_at,
                                payload: turn_completed_payload(
                                    thread_id,
                                    turn_id,
                                    status,
                                    turn,
                                    occurred_at,
                                ),
                            },
                        ),
                    ),
                    _ => Err("turn/completed has no final turn.status"@),
                },
                _ => Err("turn/completed is missing turn.id"@),
            },
            _ => Err("turn/completed is missing object field turn"@),
        },
    }
}

/// What `normalize_thread_lifecycle` gives.
pub open spec fn lifecycle_spec(
    event_name: Seq<char>,
    method: Seq<char>,
    params: JsonView,
    occurred_at: Seq<char>,
    stream_id: Seq<char>,
    sequence: u64,
) -> Result<Option<DomainEventView>, Seq<char>> {
    match required_string_spec(params, "threadId"@, method) {
        Err(e) => Err(e),
        Ok(thread_id) => Ok(
            Some(
                DomainEventView {
                    name: event_name,
                    event_id: stable_id(
                        event_name,
                        seq![stream_id, decimal(sequence as nat), thread_id],
                    ),
                    occurred_at,
                    payload: lifecycle_payload(thread_id, method, occurred_at),
                },
            ),
        ),
    }
}

/// What `normalize_codex_notification` gives: `turn/completed` and the
/// thread lifecycle methods become domain events, anything else none.
pub open spec fn notification_spec(
    method: Seq<char>,
    params: JsonView,
    occurred_at: Seq<char>,
    stream_id: Seq<char>,
    sequence: u64,
) -> Result<Option<DomainEventView>, Seq<char>> {
    if method == "turn/completed"@ {
        turn_completed_spec(params, occurred_at)
    } else if method == "thread/closed"@ {
        lifecycle_spec(CODEX_THREAD_CLOSED@, method, params, occurred_at, stream_id, sequence)
    } else if method == "thread/archived"@ {
        lifecycle_spec(CODEX_THREAD_ARCHIVED@, method, params, occurred_at, stream_id, sequence)
    } else if method == "thread/deleted"@ {
        lifecycle_spec(CODEX_THREAD_DELETED@, method, params, occurred_at, stream_id, sequence)
    } else {
        Ok(None)
    }
}

pub open spec fn result_view(r: Result<Option<DomainEvent>, String>) -> Result<
    Option<DomainEventView>,
    Seq<char>,
> {
    match r {
        Ok(Some(e)) => Ok(Some(e@)),
        Ok(None) => Ok(None),
        Err(e) => Err(e@),
    }
}

fn member(key: &str, value: Json) -> (r: (String, Json))
    ensures
        r.0@ == key@,
        r.1@ == value@,
{
    (String::from_str(key), value)
}

fn copy_member(turn: &Json, key: &str) -> (r: Json)
    ensures
        r@ == opt_json(turn@.get(key@)),
{
    match turn.get(key) {
        Some(v) => v.copy(),
        None => Json::Null,
    }
}

fn normalize_turn_completed(params: &Json, occurred_at: &str) -> (r: Result<
    Option<DomainEvent>,
    String,
>)
    ensures
        result_view(r) == turn_completed_spec(params@, occurred_at@),
{
    let thread_id = match required_string(params, "threadId", "turn/completed") {
        Ok(t) => t,
        Err(e) => {
            return Err(e);
        },
    };
    let turn = match params.get("turn") {
        Some(t) if t.is_object() => t,
        _ => {
            return Err(String::from_str("turn/completed is missing object field turn"));
        },
    };
    let turn_id = match turn.get_str("id") {
        Some(t) if t.unicode_len() > 0 => t,
        _ => {
            return Err(String::from_str("turn/completed is missing turn.id"));
        },
    };
    let status = match turn.get_str("status") {
        Some(s) if str_eq(s.as_str(), "completed") || str_eq(s.as_str(), "interrupted") || str_eq(
            s.as_str(),
            "failed",
        ) => s,
        _ => {
            return Err(String::from_str("turn/completed has no final turn.status"));
        },
    };
    let identity: Vec<&str> = vec![thread_id.as_str(), turn_id.as_str()];
    let event_id = stable_event_id(CODEX_TURN_COMPLETED, &identity);
    assert(identity@.map_values(|p: &str| p@) =~= seq![thread_id@, turn_id@]);
    let entries: Vec<(String, Json)> = vec![
        member("completedAt", copy_member(turn, "completedAt")),
        member("connectorVersion", Json::str_of(CONNECTOR_VERSION)),
        member("durationMs", copy_member(turn, "durationMs")),
        member("error", copy_member(turn, "error")),
        member("occurredAt", Json::str_of(occurred_at)),
        member("schemaVersion", Json::u64_of(SCHEMA_VERSION)),
        member("source", Json::str_of(SOURCE)),
        member("sourceMethod", Json::str_of("turn/completed")),
        member("status", Json::Str(status.clone())),
        member("threadId", Json::Str(thread_id.clone())),
        member("turnId", Json::Str(turn_id.clone())),
    ];
    proof {
        lemma_entries_view(entries@);
    }
    let payload = Json::Object(entries);
    assert(payload@ == turn_completed_payload(thread_id@, turn_id@, status@, turn@, occurred_at@))
        by {
        assert(entries_view(entries@) =~= turn_completed_payload(
            thread_id@,
            turn_id@,
            status@,
            turn@,
            occurred_at@,
        )->Object_0);
    }
    Ok(
        Some(
            DomainEvent {
                name: String::from_str(CODEX_TURN_COMPLETED),
                event_id,
                occurred_at: String::from_str(occurred_at),
                payload,
            },
        ),
    )
}

fn normalize_thread_lifecycle(
    event_name: &str,
    method: &str,
    params: &Json,
    occurred_at: &str,
    stream_id: &str,
    sequence: u64,
) -> (r: Result<Option<DomainEvent>, String>)
    ensures
        result_view(r) == lifecycle_spec(
            event_name@,
            method@,
            params@,
            occurred_at@,
            stream_id@,
            sequence,
        ),
{
    let thread_id = match required_string(params, "threadId", method) {
        Ok(t) => t,
        Err(e) => {
            return Err(e);
        },
    };
    let sequence_text = u64_to_decimal(sequence);
    let identity: Vec<&str> = vec![stream_id, sequence_text.as_str(), thread_id.as_str()];
    let event_id = stable_event_id(event_name, &identity);
    assert(identity@.map_values(|p: &str| p@) =~= seq![
        stream_id@,
        decimal(sequence as nat),
        thread_id@,
    ]);
    let entries: Vec<(String, Json)> = vec![
        member("connectorVersion", Json::str_of(CONNECTOR_VERSION)),
        member("occurredAt", Json::str_of(occurred_at)),
        member("schemaVersion", Json::u64_of(SCHEMA_VERSION)),
        member("source", Json::str_of(SOURCE)),
        member("sourceMethod", Json::str_of(method)),
        member("threadId", Json::Str(thread_id.clone())),
    ];
    proof {
        lemma_entries_view(entries@);
    }
    let payload = Json::Object(entries);
    assert(payload@ == lifecycle_payload(thread_id@, method@, occurred_at@)) by {
        assert(entries_view(entries@) =~= lifecycle_payload(
            thread_id@,
            method@,
            occurred_at@,
        )->Object_0);
    }
    Ok(
        Some(
            DomainEvent {
                name: String::from_str(event_name),
                event_id,
                occurred_at: String::from_str(occurred_at),
                payload,
            },
        ),
    )
}

/// Turns a Codex notification into a domain event: `turn/completed` gives
/// one identified by thread and turn, the thread lifecycle methods one
/// identified by stream, sequence and thread; other methods give none, and a
/// malformed final event is refused.
pub fn normalize_codex_notification(
    method: &str,
    params: &Json,
    occurred_at: &str,
    stream_id: &str,
    sequence: u64,
) -> (r: Result<Option<DomainEvent>, String>)
    ensures
        result_view(r) == notification_spec(method@, params@, occurred_at@, stream_id@, sequence),
{
    if str_eq(method, "turn/completed") {
        normalize_turn_completed(params, occurred_at)
    } else if str_eq(method, "thread/closed") {
        normalize_thread_lifecycle(
            CODEX_THREAD_CLOSED,
            method,
            params,
            occurred_at,
            stream_id,
            sequence,
        )
    } else if str_eq(method, "thread/archived") {
        normalize_thread_lifecycle(
            CODEX_THREAD_ARCHIVED,
            method,
            params,
            occurred_at,
            stream_id,
            sequence,
        )
    } else if str_eq(method, "thread/deleted") {
        normalize_thread_lifecycle(
            CODEX_THREAD_DELETED,
            method,
            params,
            occurred_at,
            stream_id,
            sequence,
        )
    } else {
        Ok(None)
    }
}

/// A completed turn has one event id, whichever stream, sequence number and
/// time it arrives with: replays of the same completion are the same event.
pub proof fn law_turn_completion_id_is_stable(
    params: JsonView,
    occurred_at_a: Seq<char>,
    stream_a: Seq<char>,
    sequence_a: u64,
    occurred_at_b: Seq<char>,
    stream_b: Seq<char>,
    sequence_b: u64,
)
    requires
        notification_spec("turn/completed"@, params, occurred_at_a, stream_a, sequence_a) is Ok,
    ensures
        ({
            let a = notification_spec("turn/completed"@, params, occurred_at_a, stream_a, sequence_a);
            let b = notification_spec("turn/completed"@, params, occurred_at_b, stream_b, sequence_b);
            &&& b is Ok
            &&& a->Ok_0 is Some && b->Ok_0 is Some
            &&& a->Ok_0->Some_0.event_id == b->Ok_0->Some_0.event_id
            &&& a->Ok_0->Some_0.name == b->Ok_0->Some_0.name
        }),
{
}

/// Notifications of other methods never become domain events.
pub proof fn law_other_methods_are_not_domain_events(
    method: Seq<char>,
    params: JsonView,
    occurred_at: Seq<char>,
    stream_id: Seq<char>,
    sequence: u64,
)
    requires
        method != "turn/completed"@,
        method != "thread/closed"@,
        method != "thread/archived"@,
        method != "thread/deleted"@,
    ensures
        notification_spec(method, params, occurred_at, stream_id, sequence) == Ok::<
            Option<DomainEventView>,
            Seq<char>,
        >(None),
{
}

/// The value of the member `key` of a member sequence whose earlier members
/// have other names.
proof fn lemma_lookup_at(es: Seq<(Seq<char>, JsonView)>, key: Seq<char>, i: int)
    requires
        0 <= i < es.len(),
        es[i].0 == key,
        forall|j: int| 0 <= j < i ==> es[j].0 != key,
    ensures
        lookup(es, key) == Some(es[i].1),
{
    lemma_key_index(es, key);
    if key_index(es, key) < i {
        assert(es[key_index(es, key)].0 == key);
    }
    if key_index(es, key) > i {
        assert(es[i].0 != key);
    }
}

/// The status, thread and turn that a `turn/completed` payload carries.
proof fn lemma_turn_completed_payload(
    thread_id: Seq<char>,
    turn_id: Seq<char>,
    status: Seq<char>,
    turn: JsonView,
    occurred_at: Seq<char>,
)
    ensures
        turn_completed_payload(thread_id, turn_id, status, turn, occurred_at).get("status"@) == Some(
            jstr(status),
        ),
        turn_completed_payload(thread_id, turn_id, status, turn, occurred_at).get("threadId"@) == Some(
            jstr(thread_id),
        ),
        turn_completed_payload(thread_id, turn_id, status, turn, occurred_at).get("turnId"@) == Some(
            jstr(turn_id),
        ),
{
    reveal_strlit("completedAt");
    reveal_strlit("connectorVersion");
    reveal_strlit("durationMs");
    reveal_strlit("error");
    reveal_strlit("occurredAt");
    reveal_strlit("schemaVersion");
    reveal_strlit("source");
    reveal_strlit("sourceMethod");
    reveal_strlit("status");
    reveal_strlit("threadId");
    reveal_strlit("turnId");
    assert("completedAt"@.len() == 11);
    assert("connectorVersion"@.len() == 16);
    assert("durationMs"@.len() == 10);
    assert("error"@.len() == 5);
    assert("occurredAt"@.len() == 10);
    assert("schemaVersion"@.len() == 13);
    assert("source"@.len() == 6);
    assert("sourceMethod"@.len() == 12);
    assert("status"@.len() == 6);
    assert("threadId"@.len() == 8);
    assert("turnId"@.len() == 6);
    assert("source"@[1] != "status"@[1]);
    assert("source"@[0] != "turnId"@[0]);
    assert("status"@[0] != "turnId"@[0]);
    let es = turn_completed_payload(thread_id, turn_id, status, turn, occurred_at)->Object_0;
    assert(es.len() == 11);
    assert forall|j: int| 0 <= j < 8 implies es[j].0 != "status"@ by {}
    lemma_lookup_at(es, "status"@, 8);
    assert forall|j: int| 0 <= j < 9 implies es[j].0 != "threadId"@ by {}
    lemma_lookup_at(es, "threadId"@, 9);
    assert forall|j: int| 0 <= j < 10 implies es[j].0 != "turnId"@ by {}
    lemma_lookup_at(es, "turnId"@, 10);
}

/// A turn that ended, whether completed, interrupted or failed, is published
/// as a `codexTurnCompleted` event carrying its status, thread and turn; a
/// `turn/completed` that names its thread and turn is refused only when the
/// turn's status is none of these three.
pub proof fn law_ended_turns_are_published(
    params: JsonView,
    occurred_at: Seq<char>,
    stream_id: Seq<char>,
    sequence: u64,
    thread_id: Seq<char>,
    turn: JsonView,
    turn_id: Seq<char>,
    status: Seq<char>,
)
    requires
        params.get_str("threadId"@) == Some(thread_id),
        thread_id.len() > 0,
        params.get("turn"@) == Some(turn),
        turn.is_object(),
        turn.get_str("id"@) == Some(turn_id),
        turn_id.len() > 0,
        turn.get_str("status"@) == Some(status),
    ensures
        notification_spec("turn/completed"@, params, occurred_at, stream_id, sequence) is Ok <==> (
        status == "completed"@ || status == "interrupted"@ || status == "failed"@),
        (status == "completed"@ || status == "interrupted"@ || status == "failed"@) ==> (
        notification_spec("turn/completed"@, params, occurred_at, stream_id, sequence) matches Ok(
            Some(e),
        ) && e.name == "codexTurnCompleted"@ && e.payload.get("status"@) == Some(jstr(status))
            && e.payload.get("threadId"@) == Some(jstr(thread_id)) && e.payload.get("turnId"@)
            == Some(jstr(turn_id))),
{
    lemma_turn_completed_payload(thread_id, turn_id, status, turn, occurred_at);
}

} // verus!
