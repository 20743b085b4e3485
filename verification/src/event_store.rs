//! The bounded log of Codex notifications that the connector retains, and
//! the jobs that publish them to the bridge.
use std::collections::VecDeque;
use vstd::prelude::*;

use crate::events::{normalize_codex_notification, notification_spec, result_view, DomainEvent};
use crate::json::{json_view, entries_view, items_view, jobject, jstr, ju64, lemma_entries_view, lemma_items_view, Json, JsonView};
use crate::text::str_eq;

verus! {

broadcast use vstd::std_specs::vecdeque::group_vec_dequeue_axioms;

/// The most notifications the log retains.
pub const MAX_EVENTS: usize = 1000;

/// How often a domain event is offered to the bridge before it is dropped.
pub const DOMAIN_EVENT_PUBLISH_ATTEMPTS: usize = 5;

#[derive(Debug)]
pub struct ConnectorEvent {
    pub sequence: u64,
    pub received_at: String,
    pub method: String,
    pub params: Json,
}

pub struct ConnectorEventView {
    pub sequence: u64,
    pub received_at: Seq<char>,
    pub method: Seq<char>,
    pub params: JsonView,
}

impl View for ConnectorEvent {
    type V = ConnectorEventView;

    open spec fn view(&self) -> ConnectorEventView {
        ConnectorEventView {
            sequence: self.sequence,
            received_at: self.received_at@,
            method: self.method@,
            params: self.params@,
        }
    }
}

impl ConnectorEvent {
    pub fn copy(&self) -> (r: ConnectorEvent)
        ensures
            r@ == self@,
    {
        ConnectorEvent {
            sequence: self.sequence,
            received_at: self.received_at.clone(),
            method: self.method.clone(),
            params: self.params.copy(),
        }
    }
}

/// The retained notifications and the sequence number of the latest one.
#[derive(Debug)]
pub struct EventLog {
    sequence: u64,
    retained: VecDeque<ConnectorEvent>,
    stream_id: String,
}

pub struct EventLogView {
    pub sequence: u64,
    pub retained: Seq<ConnectorEventView>,
    pub stream_id: Seq<char>,
}

pub open spec fn events_view(s: Seq<ConnectorEvent>) -> Seq<ConnectorEventView> {
    s.map_values(|e: ConnectorEvent| e@)
}

impl View for EventLog {
    type V = EventLogView;

    closed spec fn view(&self) -> EventLogView {
        EventLogView {
            sequence: self.sequence,
            retained: events_view(self.retained@),
            stream_id: self.stream_id@,
        }
    }
}

/// The last `n` elements of `s` (all of them when there are fewer).
pub open spec fn keep_last<A>(s: Seq<A>, n: nat) -> Seq<A> {
    if s.len() <= n {
        s
    } else {
        s.skip(s.len() - n)
    }
}

/// The events whose sequence number is greater than `after`, in order.
pub open spec fn events_after(s: Seq<ConnectorEventView>, after: u64) -> Seq<ConnectorEventView>
    decreases s.len(),
{
    if s.len() == 0 {
        Seq::empty()
    } else if s.last().sequence > after {
        events_after(s.drop_last(), after).push(s.last())
    } else {
        events_after(s.drop_last(), after)
    }
}

/// The JSON form of a retained event.
pub open spec fn event_json(e: ConnectorEventView) -> JsonView {
    jobject(
        seq![
            ("method"@, jstr(e.method)),
            ("params"@, e.params),
            ("receivedAt"@, jstr(e.received_at)),
            ("sequence"@, ju64(e.sequence)),
        ],
    )
}

/// The number of events `recent` answers with: `limit` when given as a
/// non-negative integer, else 100, clamped to `1..=500`.
pub open spec fn recent_limit(body: JsonView) -> nat {
    let raw: u64 = match body.get("limit"@) {
        Some(v) => match v.as_u64() {
            Some(n) => n,
            None => 100,
        },
        None => 100,
    };
    if raw < 1 {
        1
    } else if raw > 500 {
        500
    } else {
        raw as nat
    }
}

/// The sequence number after which `recent` answers: `afterSequence`, else 0.
pub open spec fn recent_after(body: JsonView) -> u64 {
    match body.get("afterSequence"@) {
        Some(v) => match v.as_u64() {
            Some(n) => n,
            None => 0,
        },
        None => 0,
    }
}

/// The events that `recent` selects: the latest `limit` of those after `after`.
pub open spec fn recent_events(log: EventLogView, after: u64, limit: nat) -> Seq<ConnectorEventView> {
    keep_last(events_after(log.retained, after), limit)
}

/// What `recent` answers.
pub open spec fn recent_spec(log: EventLogView, body: JsonView) -> JsonView {
    jobject(
        seq![
            (
                "events"@,
                JsonView::Array(
                    recent_events(log, recent_after(body), recent_limit(body)).map_values(
                        |e: ConnectorEventView| event_json(e),
                    ),
                ),
            ),
            ("latestSequence"@, ju64(log.sequence)),
        ],
    )
}

impl EventLogView {
    /// The log's invariant: at most `MAX_EVENTS` events, in increasing order
    /// of sequence number, none beyond the latest sequence number, and the
    /// latest among them when there are any.
    pub open spec fn wf(self) -> bool {
        &&& self.retained.len() <= MAX_EVENTS
        &&& forall|i: int, j: int|
            0 <= i < j < self.retained.len() ==> self.retained[i].sequence
                < self.retained[j].sequence
        &&& forall|i: int| 0 <= i < self.retained.len() ==> self.retained[i].sequence <= self.sequence
        &&& self.retained.len() > 0 ==> self.retained.last().sequence == self.sequence
    }

    /// The log after a notification has been received.
    pub open spec fn pushed(self, e: ConnectorEventView) -> EventLogView {
        EventLogView {
            sequence: (self.sequence + 1) as u64,
            retained: keep_last(self.retained.push(e), MAX_EVENTS as nat),
            stream_id: self.stream_id,
        }
    }
}

/// What receiving one notification leads to besides the log entry.
#[derive(Debug)]
pub struct PushOutcome {
    /// The retained entry, to be published as a raw notification.
    pub event: ConnectorEvent,
    /// The domain event the notification normalises to, or why it does not.
    pub domain: Result<Option<DomainEvent>, String>,
    /// The thread that a completed turn leaves unread.
    pub unread_thread: Option<String>,
}

/// The thread that a notification leaves unread: the `threadId` string of a
/// `turn/completed` notification.
pub open spec fn unread_thread_spec(method: Seq<char>, params: JsonView) -> Option<Seq<char>> {
    if method == "turn/completed"@ {
        params.get_str("threadId"@)
    } else {
        None
    }
}

proof fn lemma_keep_last_wf(prev: EventLogView, e: ConnectorEventView)
    requires
        prev.wf(),
        prev.sequence < u64::MAX,
        e.sequence == prev.sequence + 1,
    ensures
        prev.pushed(e).wf(),
{
    let s = prev.retained.push(e);
    let n = MAX_EVENTS as nat;
    let k = keep_last(s, n);
    assert forall|i: int, j: int| 0 <= i < j < s.len() implies s[i].sequence < s[j].sequence by {
        if j == s.len() - 1 {
            assert(s[i] == prev.retained[i]);
        } else {
            assert(s[i] == prev.retained[i] && s[j] == prev.retained[j]);
        }
    }
    if s.len() > n {
        assert forall|i: int, j: int| 0 <= i < j < k.len() implies k[i].sequence < k[j].sequence by {
            assert(k[i] == s[i + (s.len() - n)] && k[j] == s[j + (s.len() - n)]);
        }
        assert forall|i: int| 0 <= i < k.len() implies k[i].sequence <= prev.sequence + 1 by {
            assert(k[i] == s[i + (s.len() - n)]);
            if i + (s.len() - n) < s.len() - 1 {
                assert(s[i + (s.len() - n)] == prev.retained[i + (s.len() - n)]);
            }
        }
        assert(k.last() == s.last());
    } else {
        assert forall|i: int| 0 <= i < k.len() implies k[i].sequence <= prev.sequence + 1 by {
            if i < s.len() - 1 {
                assert(s[i] == prev.retained[i]);
            }
        }
    }
}

impl EventLog {
    /// An empty log for the stream `stream_id`.
    pub fn new(stream_id: String) -> (r: EventLog)
        ensures
            r@.wf(),
            r@.sequence == 0,
            r@.retained.len() == 0,
            r@.stream_id == stream_id@,
    {
        EventLog { sequence: 0, retained: VecDeque::new(), stream_id }
    }

    /// Records a notification received at `received_at`: it gets the next
    /// sequence number and is retained, the oldest event giving way beyond
    /// `MAX_EVENTS`; the outcome carries the entry, the domain event it
    /// normalises to and the thread that it leaves unread.
    pub fn push(&mut self, method: &str, params: Json, received_at: String) -> (r: PushOutcome)
        requires
            old(self)@.wf(),
            old(self)@.sequence < u64::MAX,
        ensures
            final(self)@.wf(),
            r.event@ == (ConnectorEventView {
                sequence: (old(self)@.sequence + 1) as u64,
                received_at: received_at@,
                method: method@,
                params: params@,
            }),
            final(self)@ == old(self)@.pushed(r.event@),
            result_view(r.domain) == notification_spec(
                method@,
                params@,
                received_at@,
                old(self)@.stream_id,
                (old(self)@.sequence + 1) as u64,
            ),
            match unread_thread_spec(method@, params@) {
                Some(t) => r.unread_thread is Some && r.unread_thread->0@ == t,
                None => r.unread_thread is None,
            },
    {
        let ghost old_log = self@;
        let unread_thread = if str_eq(method, "turn/completed") {
            match params.get_str("threadId") {
                Some(t) => Some(t.clone()),
                None => None,
            }
        } else {
            None
        };
        let sequence = self.sequence + 1;
        let domain = normalize_codex_notification(
            method,
            &params,
            received_at.as_str(),
            self.stream_id.as_str(),
            sequence,
        );
        let event = ConnectorEvent {
            sequence,
            received_at,
            method: String::from_str(method),
            params,
        };
        let kept = event.copy();
        self.sequence = sequence;
        let ghost before = self.retained@;
        self.retained.push_back(kept);
        assert(events_view(self.retained@) =~= events_view(before).push(event@));
        if self.retained.len() > MAX_EVENTS {
            let ghost full = self.retained@;
            let _oldest = self.retained.pop_front();
            assert(events_view(self.retained@) =~= events_view(full).skip(1));
        }
        proof {
            lemma_keep_last_wf(old_log, event@);
        }
        assert(self@ == old_log.pushed(event@));
        PushOutcome { event, domain, unread_thread }
    }

    /// The retained events after `afterSequence` (default 0), the latest
    /// `limit` of them (default 100, clamped to `1..=500`) in order, with the
    /// latest sequence number.
    pub fn recent(&self, body: &Json) -> (r: Json)
        ensures
            r@ == recent_spec(self@, body@),
    {
        let after = match body.get("afterSequence") {
            Some(v) => match v.as_u64() {
                Some(n) => n,
                None => 0,
            },
            None => 0,
        };
        let raw = match body.get("limit") {
            Some(v) => match v.as_u64() {
                Some(n) => n,
                None => 100,
            },
            None => 100,
        };
        let limit: usize = if raw < 1 {
            1
        } else if raw > 500 {
            500
        } else {
            raw as usize
        };
        let ghost all = events_view(self.retained@);
        let mut selected: Vec<usize> = Vec::new();
        let mut i: usize = 0;
        while i < self.retained.len()
            invariant
                i <= self.retained@.len(),
                all == events_view(self.retained@),
                selected@.len() == events_after(all.take(i as int), after).len(),
                forall|j: int| 0 <= j < selected@.len() ==> #[trigger] selected@[j] < self.retained@.len(),
                forall|j: int|
                    0 <= j < selected@.len() ==> #[trigger] events_after(all.take(i as int), after)[j]
                        == all[selected@[j] as int],
            decreases self.retained@.len() - i,
        {
            assert(all.take(i + 1).drop_last() =~= all.take(i as int));
            assert(all.take(i + 1).last() == all[i as int]);
            assert(all[i as int] == self.retained@[i as int]@);
            if self.retained[i].sequence > after {
                assert(events_after(all.take(i + 1), after) == events_after(all.take(i as int), after).push(all[i as int]));
                selected.push(i);
            } else {
                assert(events_after(all.take(i + 1), after) == events_after(all.take(i as int), after));
            }
            i = i + 1;
        }
        assert(all.take(i as int) =~= all);
        let ghost f = events_after(all, after);
        assert(f == events_after(all.take(i as int), after));
        let ghost chosen = keep_last(f, limit as nat);
        let start: usize = if selected.len() <= limit {
            0
        } else {
            selected.len() - limit
        };
        let mut items: Vec<Json> = Vec::new();
        let mut k: usize = start;
        while k < selected.len()
            invariant
                start <= k <= selected@.len(),
                start == (if selected@.len() <= limit { 0 } else { selected@.len() - limit }),
                all == events_view(self.retained@),
                f == events_after(all, after),
                selected@.len() == f.len(),
                chosen == keep_last(f, limit as nat),
                forall|j: int| 0 <= j < selected@.len() ==> #[trigger] selected@[j] < self.retained@.len(),
                forall|j: int| 0 <= j < selected@.len() ==> #[trigger] f[j] == all[selected@[j] as int],
                items@.len() == k - start,
                forall|j: int|
                    0 <= j < items@.len() ==> json_view(#[trigger] items@[j]) == event_json(chosen[j]),
            decreases selected@.len() - k,
        {
            let at = selected[k];
            assert(at < self.retained.len());
            let e = &self.retained[at];
            let entries: Vec<(String, Json)> = vec![
                (String::from_str("method"), Json::Str(e.method.clone())),
                (String::from_str("params"), e.params.copy()),
                (String::from_str("receivedAt"), Json::Str(e.received_at.clone())),
                (String::from_str("sequence"), Json::u64_of(e.sequence)),
            ];
            proof {
                lemma_entries_view(entries@);
                assert(chosen[k - start] == f[k as int]);
                assert(all[selected@[k as int] as int] == self.retained@[selected@[k as int] as int]@);
                assert(entries_view(entries@) =~= event_json(chosen[k - start])->Object_0);
            }
            items.push(Json::Object(entries));
            k = k + 1;
        }
        proof {
            lemma_items_view(items@);
            assert(items@.len() == chosen.len());
            assert(items_view(items@) =~= chosen.map_values(|e: ConnectorEventView| event_json(e)));
        }
        let out: Vec<(String, Json)> = vec![
            (String::from_str("events"), Json::Array(items)),
            (String::from_str("latestSequence"), Json::u64_of(self.sequence)),
        ];
        proof {
            lemma_entries_view(out@);
            assert(entries_view(out@) =~= recent_spec(self@, body@)->Object_0);
        }
        Json::Object(out)
    }

    /// The latest sequence number and how many events are retained.
    pub fn summary(&self) -> (r: (u64, usize))
        ensures
            r.0 == self@.sequence,
            r.1 == self@.retained.len(),
    {
        (self.sequence, self.retained.len())
    }
}

/// Events that a log holds all have sequence numbers up to `after`: none
/// of them is after it.
proof fn lemma_events_after_none(s: Seq<ConnectorEventView>, after: u64)
    requires
        forall|i: int| 0 <= i < s.len() ==> #[trigger] s[i].sequence <= after,
    ensures
        events_after(s, after) == Seq::<ConnectorEventView>::empty(),
    decreases s.len(),
{
    if s.len() > 0 {
        assert forall|i: int| 0 <= i < s.drop_last().len() implies #[trigger] s.drop_last()[i].sequence
            <= after by {
            assert(s.drop_last()[i] == s[i]);
        }
        lemma_events_after_none(s.drop_last(), after);
        assert(s.last() == s[s.len() - 1]);
    }
}

/// Reading after a write: once a notification has been recorded, asking for
/// the events after the previous latest sequence number gives exactly that
/// notification, whatever the limit.
pub proof fn law_recent_after_push(log: EventLogView, e: ConnectorEventView, limit: nat)
    requires
        log.wf(),
        log.sequence < u64::MAX,
        e.sequence == log.sequence + 1,
        limit >= 1,
    ensures
        recent_events(log.pushed(e), log.sequence, limit) == seq![e],
{
    let s = log.retained.push(e);
    let k = keep_last(s, MAX_EVENTS as nat);
    assert(k.len() > 0);
    assert(k.last() == e);
    assert forall|i: int| 0 <= i < k.drop_last().len() implies #[trigger] k.drop_last()[i].sequence
        <= log.sequence by {
        if s.len() <= MAX_EVENTS {
            assert(k.drop_last()[i] == log.retained[i]);
        } else {
            assert(k.drop_last()[i] == s[i + (s.len() - MAX_EVENTS)]);
            assert(s[i + (s.len() - MAX_EVENTS)] == log.retained[i + (s.len() - MAX_EVENTS)]);
        }
    }
    lemma_events_after_none(k.drop_last(), log.sequence);
    assert(events_after(k, log.sequence) =~= seq![e]);
}

/// Every record takes the next sequence number and the log keeps the latest
/// `MAX_EVENTS` of all that it has been given.
pub proof fn law_push_keeps_latest(log: EventLogView, e: ConnectorEventView)
    requires
        log.wf(),
        log.sequence < u64::MAX,
        e.sequence == log.sequence + 1,
    ensures
        log.pushed(e).wf(),
        log.pushed(e).sequence == log.sequence + 1,
        log.pushed(e).retained.last() == e,
        log.pushed(e).retained.len() == if log.retained.len() < MAX_EVENTS {
            log.retained.len() + 1
        } else {
            MAX_EVENTS as nat
        },
{
    lemma_keep_last_wf(log, e);
}

/// The job that publishes a retained notification as `codexNotification`;
/// it is offered once.
#[derive(Debug)]
pub struct PublishJob {
    pub event_name: String,
    pub event_id: String,
    pub occurred_at: String,
    pub payload: Json,
    pub attempts: usize,
}

pub fn raw_job(event: &ConnectorEvent, event_id: String) -> (r: PublishJob)
    ensures
        r.event_name@ == "codexNotification"@,
        r.event_id@ == event_id@,
        r.occurred_at@ == event.received_at@,
        r.payload@ == event_json(event@),
        r.attempts == 1,
{
    let entries: Vec<(String, Json)> = vec![
        (String::from_str("method"), Json::Str(event.method.clone())),
        (String::from_str("params"), event.params.copy()),
        (String::from_str("receivedAt"), Json::Str(event.received_at.clone())),
        (String::from_str("sequence"), Json::u64_of(event.sequence)),
    ];
    proof {
        lemma_entries_view(entries@);
        assert(entries_view(entries@) =~= event_json(event@)->Object_0);
    }
    PublishJob {
        event_name: String::from_str("codexNotification"),
        event_id,
        occurred_at: event.received_at.clone(),
        payload: Json::Object(entries),
        attempts: 1,
    }
}

/// The job that publishes a domain event; it is offered up to
/// `DOMAIN_EVENT_PUBLISH_ATTEMPTS` times.
pub fn domain_job(event: DomainEvent) -> (r: PublishJob)
    ensures
        r.event_name@ == event.name@,
        r.event_id@ == event.event_id@,
        r.occurred_at@ == event.occurred_at@,
        r.payload@ == event.payload@,
        r.attempts == DOMAIN_EVENT_PUBLISH_ATTEMPTS,
{
    PublishJob {
        event_name: event.name,
        event_id: event.event_id,
        occurred_at: event.occurred_at,
        payload: event.payload,
        attempts: DOMAIN_EVENT_PUBLISH_ATTEMPTS,
    }
}

/// The body posted to the bridge for a job.
pub fn publish_request(app_id: &str, job: &PublishJob) -> (r: Json)
    ensures
        r@ == jobject(
            seq![
                ("appId"@, jstr(app_id@)),
                ("event"@, jstr(job.event_name@)),
                ("eventId"@, jstr(job.event_id@)),
                ("occurredAt"@, jstr(job.occurred_at@)),
                ("payload"@, job.payload@),
            ],
        ),
{
    let entries: Vec<(String, Json)> = vec![
        (String::from_str("appId"), Json::str_of(app_id)),
        (String::from_str("event"), Json::Str(job.event_name.clone())),
        (String::from_str("eventId"), Json::Str(job.event_id.clone())),
        (String::from_str("occurredAt"), Json::Str(job.occurred_at.clone())),
        (String::from_str("payload"), job.payload.copy()),
    ];
    proof {
        lemma_entries_view(entries@);
    }
    let r = Json::Object(entries);
    assert(entries_view(entries@) =~= seq![
        ("appId"@, jstr(app_id@)),
        ("event"@, jstr(job.event_name@)),
        ("eventId"@, jstr(job.event_id@)),
        ("occurredAt"@, jstr(job.occurred_at@)),
        ("payload"@, job.payload@),
    ]);
    r
}

/// Whether the bridge may accept a later attempt after answering `status`.
pub fn retryable_event_status(status: u16) -> (r: bool)
    ensures
        r == (status == 408 || status == 429 || status >= 500),
{
    status == 408 || status == 429 || status >= 500
}

/// What one attempt to post a job came to.
#[derive(Debug)]
pub enum SendOutcome {
    /// The bridge answered with this HTTP status.
    Status(u16),
    /// The request did not get an answer.
    TransportError,
}

/// What to do after an attempt.
#[derive(Debug, PartialEq, Eq, Structural)]
pub enum PublishDecision {
    /// The bridge accepted the event.
    Delivered,
    /// The bridge refused the event for good (with this status).
    Refused(u16),
    /// The last attempt failed.
    Exhausted,
    /// Wait the base delay times this factor, then try again.
    RetryAfter(u32),
}

pub open spec fn backoff_factor(attempt: nat) -> u32 {
    if attempt >= 9 {
        256
    } else if attempt == 8 {
        128
    } else if attempt == 7 {
        64
    } else if attempt == 6 {
        32
    } else if attempt == 5 {
        16
    } else if attempt == 4 {
        8
    } else if attempt == 3 {
        4
    } else if attempt == 2 {
        2
    } else {
        1
    }
}

/// The decision after attempt `attempt` of `attempts` (at least one is
/// made): a 2xx answer delivers, another answer that no retry can change
/// refuses, and a retryable answer or no answer retries with a delay that
/// doubles per attempt up to 256 times the base, until the last attempt.
pub fn publish_decision(attempt: usize, attempts: usize, outcome: &SendOutcome) -> (r:
    PublishDecision)
    requires
        1 <= attempt <= attempts,
    ensures
        r == match *outcome {
            SendOutcome::Status(s) if 200 <= s <= 299 => PublishDecision::Delivered,
            SendOutcome::Status(s) if !(s == 408 || s == 429 || s >= 500) => PublishDecision::Refused(s),
            _ => if attempt == attempts {
                PublishDecision::Exhausted
            } else {
                PublishDecision::RetryAfter(backoff_factor(attempt as nat))
            },
        },
{
    match outcome {
        SendOutcome::Status(s) => {
            if 200 <= *s && *s <= 299 {
                return PublishDecision::Delivered;
            }
            if !retryable_event_status(*s) {
                return PublishDecision::Refused(*s);
            }
        },
        SendOutcome::TransportError => {},
    }
    if attempt == attempts {
        PublishDecision::Exhausted
    } else {
        let shift: u32 = if attempt - 1 > 8 {
            8
        } else {
            (attempt - 1) as u32
        };
        let factor: u32 = 1u32 << shift;
        assert(factor == backoff_factor(attempt as nat)) by (bit_vector)
            requires
                factor == 1u32 << shift,
                shift <= 8,
                shift == 8 ==> attempt >= 9,
                shift < 8 ==> shift == attempt - 1,
        ;
        PublishDecision::RetryAfter(factor)
    }
}

} // verus!
