//! Per-thread read state: which Codex threads hold a turn the employee has
//! not seen, kept across restarts, and the runtime status shown with each
//! thread in a listing.
use vstd::prelude::*;

use crate::json::{
    entries_view, items_view, jobject, jstr, json_view, lemma_entries_view, lemma_items_view,
    lemma_json_equal_refl, lemma_with_get, lemma_with_same, lookup, opt_json, opt_json_equal,
    opt_str_json, Json, JsonNumber, JsonView,
};
use crate::text::{concat, str_eq, u64_to_decimal};

verus! {

/// The only version of the persisted read state.
pub const STATE_VERSION: u32 = 1;

/// What the connector remembers of one thread.
#[derive(Debug)]
pub struct ThreadReadEntry {
    pub has_unread_turn: bool,
    pub observed_updated_at: Option<Json>,
    pub observed_runtime_status_type: Option<String>,
    pub observed_latest_turn_status: Option<String>,
    pub observed_desktop_unread: bool,
}

pub struct EntryView {
    pub has_unread_turn: bool,
    pub observed_updated_at: Option<JsonView>,
    pub observed_runtime_status_type: Option<Seq<char>>,
    pub observed_latest_turn_status: Option<Seq<char>>,
    pub observed_desktop_unread: bool,
}

pub open spec fn opt_string_view(o: Option<String>) -> Option<Seq<char>> {
    match o {
        Some(s) => Some(s@),
        None => None,
    }
}

pub open spec fn opt_json_view(o: Option<Json>) -> Option<JsonView> {
    match o {
        Some(j) => Some(j@),
        None => None,
    }
}

impl View for ThreadReadEntry {
    type V = EntryView;

    open spec fn view(&self) -> EntryView {
        EntryView {
            has_unread_turn: self.has_unread_turn,
            observed_updated_at: opt_json_view(self.observed_updated_at),
            observed_runtime_status_type: opt_string_view(self.observed_runtime_status_type),
            observed_latest_turn_status: opt_string_view(self.observed_latest_turn_status),
            observed_desktop_unread: self.observed_desktop_unread,
        }
    }
}

/// Whether two entries record the same: every field equal, the observed
/// revision compared as a JSON value.
pub open spec fn entry_equal(a: EntryView, b: EntryView) -> bool {
    &&& a.has_unread_turn == b.has_unread_turn
    &&& opt_json_equal(a.observed_updated_at, b.observed_updated_at)
    &&& a.observed_runtime_status_type == b.observed_runtime_status_type
    &&& a.observed_latest_turn_status == b.observed_latest_turn_status
    &&& a.observed_desktop_unread == b.observed_desktop_unread
}

/// Whether two read states hold entries for the same threads, and equal
/// entries for each.
pub open spec fn threads_equal(a: Map<Seq<char>, EntryView>, b: Map<Seq<char>, EntryView>) -> bool {
    &&& a.dom() == b.dom()
    &&& forall|k: Seq<char>| #[trigger] a.contains_key(k) ==> entry_equal(a[k], b[k])
}

/// A fresh entry: nothing observed, nothing unread.
pub open spec fn default_entry() -> EntryView {
    EntryView {
        has_unread_turn: false,
        observed_updated_at: None,
        observed_runtime_status_type: None,
        observed_latest_turn_status: None,
        observed_desktop_unread: false,
    }
}

fn copy_opt_string(o: &Option<String>) -> (r: Option<String>)
    ensures
        opt_string_view(r) == opt_string_view(*o),
{
    match o {
        Some(s) => Some(s.clone()),
        None => None,
    }
}

fn copy_opt_json(o: &Option<Json>) -> (r: Option<Json>)
    ensures
        opt_json_view(r) == opt_json_view(*o),
{
    match o {
        Some(j) => Some(j.copy()),
        None => None,
    }
}

fn same_opt_string(a: &Option<String>, b: &Option<String>) -> (r: bool)
    ensures
        r == (opt_string_view(*a) == opt_string_view(*b)),
{
    match (a, b) {
        (Some(x), Some(y)) => str_eq(x.as_str(), y.as_str()),
        (None, None) => true,
        _ => false,
    }
}

fn same_opt_json(a: &Option<Json>, b: &Option<Json>) -> (r: bool)
    ensures
        r == opt_json_equal(opt_json_view(*a), opt_json_view(*b)),
{
    match (a, b) {
        (Some(x), Some(y)) => x.equals(y),
        (None, None) => true,
        _ => false,
    }
}

impl ThreadReadEntry {
    pub fn new() -> (r: ThreadReadEntry)
        ensures
            r@ == default_entry(),
    {
        ThreadReadEntry {
            has_unread_turn: false,
            observed_updated_at: None,
            observed_runtime_status_type: None,
            observed_latest_turn_status: None,
            observed_desktop_unread: false,
        }
    }

    pub fn copy(&self) -> (r: ThreadReadEntry)
        ensures
            r@ == self@,
    {
        ThreadReadEntry {
            has_unread_turn: self.has_unread_turn,
            observed_updated_at: copy_opt_json(&self.observed_updated_at),
            observed_runtime_status_type: copy_opt_string(&self.observed_runtime_status_type),
            observed_latest_turn_status: copy_opt_string(&self.observed_latest_turn_status),
            observed_desktop_unread: self.observed_desktop_unread,
        }
    }

    /// Whether two entries record the same (see `entry_equal`).
    pub fn same(&self, other: &ThreadReadEntry) -> (r: bool)
        ensures
            r == entry_equal(self@, other@),
    {
        self.has_unread_turn == other.has_unread_turn && same_opt_json(
            &self.observed_updated_at,
            &other.observed_updated_at,
        ) && same_opt_string(
            &self.observed_runtime_status_type,
            &other.observed_runtime_status_type,
        ) && same_opt_string(&self.observed_latest_turn_status, &other.observed_latest_turn_status)
            && self.observed_desktop_unread == other.observed_desktop_unread
    }
}

/// The persisted read state: a version and an entry per thread id.
#[derive(Debug)]
pub struct ThreadReadStore {
    pub version: u32,
    threads: Vec<(String, ThreadReadEntry)>,
}

pub open spec fn pairs_view(s: Seq<(String, ThreadReadEntry)>) -> Seq<(Seq<char>, EntryView)> {
    s.map_values(|p: (String, ThreadReadEntry)| (p.0@, p.1@))
}

/// The map that a sequence of pairs denotes; a later pair wins.
pub open spec fn to_map(s: Seq<(Seq<char>, EntryView)>) -> Map<Seq<char>, EntryView>
    decreases s.len(),
{
    if s.len() == 0 {
        Map::empty()
    } else {
        to_map(s.drop_last()).insert(s.last().0, s.last().1)
    }
}

pub open spec fn keys_unique(s: Seq<(Seq<char>, EntryView)>) -> bool {
    forall|i: int, j: int| 0 <= i < j < s.len() ==> s[i].0 != s[j].0
}

pub struct StoreView {
    pub version: u32,
    pub threads: Map<Seq<char>, EntryView>,
}

impl View for ThreadReadStore {
    type V = StoreView;

    closed spec fn view(&self) -> StoreView {
        StoreView { version: self.version, threads: to_map(pairs_view(self.threads@)) }
    }
}

proof fn lemma_to_map_dom(s: Seq<(Seq<char>, EntryView)>, k: Seq<char>)
    ensures
        to_map(s).contains_key(k) <==> exists|i: int| 0 <= i < s.len() && #[trigger] s[i].0 == k,
    decreases s.len(),
{
    if s.len() > 0 {
        lemma_to_map_dom(s.drop_last(), k);
        if to_map(s.drop_last()).contains_key(k) {
            let i = choose|i: int| 0 <= i < s.drop_last().len() && #[trigger] s.drop_last()[i].0 == k;
            assert(s[i].0 == k);
        }
        if exists|i: int| 0 <= i < s.len() && #[trigger] s[i].0 == k {
            let i = choose|i: int| 0 <= i < s.len() && #[trigger] s[i].0 == k;
            if i < s.len() - 1 {
                assert(s.drop_last()[i].0 == k);
            }
        }
    }
}

proof fn lemma_to_map_index(s: Seq<(Seq<char>, EntryView)>, i: int)
    requires
        keys_unique(s),
        0 <= i < s.len(),
    ensures
        to_map(s).contains_key(s[i].0),
        to_map(s)[s[i].0] == s[i].1,
    decreases s.len(),
{
    if i < s.len() - 1 {
        assert(keys_unique(s.drop_last()));
        assert(s.drop_last()[i] == s[i]);
        lemma_to_map_index(s.drop_last(), i);
        assert(s.last().0 != s[i].0);
    }
}

proof fn lemma_to_map_update(s: Seq<(Seq<char>, EntryView)>, i: int, v: EntryView)
    requires
        keys_unique(s),
        0 <= i < s.len(),
    ensures
        keys_unique(s.update(i, (s[i].0, v))),
        to_map(s.update(i, (s[i].0, v))) == to_map(s).insert(s[i].0, v),
    decreases s.len(),
{
    let u = s.update(i, (s[i].0, v));
    assert(keys_unique(u)) by {
        assert forall|a: int, b: int| 0 <= a < b < u.len() implies u[a].0 != u[b].0 by {
            assert(u[a].0 == s[a].0 && u[b].0 == s[b].0);
        }
    }
    if i == s.len() - 1 {
        assert(u.drop_last() =~= s.drop_last());
        assert(to_map(u) =~= to_map(s).insert(s[i].0, v));
    } else {
        assert(keys_unique(s.drop_last()));
        lemma_to_map_update(s.drop_last(), i, v);
        assert(u.drop_last() =~= s.drop_last().update(i, (s[i].0, v)));
        assert(s.last().0 != s[i].0);
        assert(to_map(u) =~= to_map(s).insert(s[i].0, v));
    }
}

proof fn lemma_to_map_push(s: Seq<(Seq<char>, EntryView)>, k: Seq<char>, v: EntryView)
    requires
        keys_unique(s),
        !to_map(s).contains_key(k),
    ensures
        keys_unique(s.push((k, v))),
        to_map(s.push((k, v))) == to_map(s).insert(k, v),
{
    lemma_to_map_dom(s, k);
    let p = s.push((k, v));
    assert(p.drop_last() =~= s);
    assert forall|a: int, b: int| 0 <= a < b < p.len() implies p[a].0 != p[b].0 by {
        if b == s.len() {
            assert(p[a].0 == s[a].0);
        }
    }
}

/// Whether `after` lists the ids of `before` first, in the same order.
pub open spec fn keeps_key_order(before: Seq<Seq<char>>, after: Seq<Seq<char>>) -> bool {
    &&& after.len() >= before.len()
    &&& forall|j: int| 0 <= j < before.len() ==> #[trigger] after[j] == before[j]
}

/// The entry of `id`, or a fresh one.
pub open spec fn entry_or_default(m: Map<Seq<char>, EntryView>, id: Seq<char>) -> EntryView {
    if m.contains_key(id) {
        m[id]
    } else {
        default_entry()
    }
}

impl ThreadReadStore {
    /// The thread ids in the order they were first stored.
    pub closed spec fn key_order(self) -> Seq<Seq<char>> {
        self.threads@.map_values(|p: (String, ThreadReadEntry)| p.0@)
    }

    /// The store's invariant: each thread id has one entry.
    pub closed spec fn wf(self) -> bool {
        keys_unique(pairs_view(self.threads@))
    }

    /// An empty store of the current version.
    pub fn new() -> (r: ThreadReadStore)
        ensures
            r.wf(),
            r@.version == STATE_VERSION,
            r@.threads == Map::<Seq<char>, EntryView>::empty(),
    {
        let r = ThreadReadStore { version: STATE_VERSION, threads: Vec::new() };
        assert(pairs_view(r.threads@) =~= Seq::<(Seq<char>, EntryView)>::empty());
        r
    }

    /// The position of the entry of `id`, or the number of entries.
    fn index_of(&self, id: &str) -> (r: usize)
        requires
            self.wf(),
        ensures
            r <= self.threads@.len(),
            r < self.threads@.len() ==> self.threads@[r as int].0@ == id@,
            r == self.threads@.len() ==> !self@.threads.contains_key(id@),
    {
        let ghost pv = pairs_view(self.threads@);
        let mut i: usize = 0;
        while i < self.threads.len()
            invariant
                i <= self.threads@.len(),
                pv == pairs_view(self.threads@),
                forall|j: int| 0 <= j < i ==> pv[j].0 != id@,
            decreases self.threads@.len() - i,
        {
            if str_eq(self.threads[i].0.as_str(), id) {
                return i;
            }
            i = i + 1;
        }
        proof {
            lemma_to_map_dom(pv, id@);
        }
        i
    }

    /// The entry of `id`, if there is one.
    pub fn get(&self, id: &str) -> (r: Option<&ThreadReadEntry>)
        requires
            self.wf(),
        ensures
            r is Some <==> self@.threads.contains_key(id@),
            r is Some ==> self@.threads[id@] == r->0@,
    {
        let i = self.index_of(id);
        if i < self.threads.len() {
            proof {
                lemma_to_map_index(pairs_view(self.threads@), i as int);
            }
            Some(&self.threads[i].1)
        } else {
            None
        }
    }

    /// Sets the entry of `id`.
    pub fn set(&mut self, id: &str, entry: ThreadReadEntry)
        requires
            old(self).wf(),
        ensures
            final(self).wf(),
            final(self)@.version == old(self)@.version,
            final(self)@.threads == old(self)@.threads.insert(id@, entry@),
            keeps_key_order(old(self).key_order(), final(self).key_order()),
    {
        let i = self.index_of(id);
        let ghost before = pairs_view(self.threads@);
        let ghost old_threads = self.threads@;
        if i < self.threads.len() {
            self.threads.set(i, (String::from_str(id), entry));
            proof {
                lemma_to_map_update(before, i as int, entry@);
                assert(pairs_view(self.threads@) =~= before.update(i as int, (before[i as int].0, entry@)));
            }
        } else {
            self.threads.push((String::from_str(id), entry));
            proof {
                lemma_to_map_push(before, id@, entry@);
                assert(pairs_view(self.threads@) =~= before.push((id@, entry@)));
            }
        }
        assert forall|j: int| 0 <= j < old_threads.len() implies #[trigger] self.key_order()[j]
            == old_threads.map_values(|p: (String, ThreadReadEntry)| p.0@)[j] by {
            if j != i {
                assert(self.threads@[j] == old_threads[j]);
            }
        }
    }

    /// A copy of the entry of `id`, or a fresh entry.
    pub fn entry_or_default(&self, id: &str) -> (r: ThreadReadEntry)
        requires
            self.wf(),
        ensures
            r@ == entry_or_default(self@.threads, id@),
    {
        match self.get(id) {
            Some(e) => e.copy(),
            None => ThreadReadEntry::new(),
        }
    }
}

/// The thread id of a listed thread: the first of `threadId`, `sessionId`
/// and `id` that is a string, when that string is not empty.
pub open spec fn thread_id_spec(item: JsonView) -> Option<Seq<char>> {
    let first = match item.get_str("threadId"@) {
        Some(s) => Some(s),
        None => match item.get_str("sessionId"@) {
            Some(s) => Some(s),
            None => item.get_str("id"@),
        },
    };
    match first {
        Some(s) => if s.len() > 0 {
            Some(s)
        } else {
            None
        },
        None => None,
    }
}

pub fn thread_id(item: &Json) -> (r: Option<String>)
    ensures
        opt_string_view(r) == thread_id_spec(item@),
{
    let first = match item.get_str("threadId") {
        Some(s) => Some(s),
        None => match item.get_str("sessionId") {
            Some(s) => Some(s),
            None => item.get_str("id"),
        },
    };
    match first {
        Some(s) => if s.unicode_len() > 0 {
            Some(s.clone())
        } else {
            None
        },
        None => None,
    }
}

pub open spec fn type_object(t: Seq<char>) -> JsonView {
    jobject(seq![("type"@, jstr(t))])
}

/// The runtime status of a listed thread: an object as it is, a non-empty
/// string as the object of that type, else the type `notLoaded`.
pub open spec fn normalize_runtime_status_spec(status: Option<JsonView>) -> JsonView {
    match status {
        Some(JsonView::Object(es)) => JsonView::Object(es),
        Some(JsonView::Str(s)) => if s.len() > 0 {
            type_object(s)
        } else {
            type_object("notLoaded"@)
        },
        _ => type_object("notLoaded"@),
    }
}

fn type_object_json(t: &str) -> (r: Json)
    ensures
        r@ == type_object(t@),
{
    let entries: Vec<(String, Json)> = vec![(String::from_str("type"), Json::str_of(t))];
    proof {
        lemma_entries_view(entries@);
    }
    assert(entries_view(entries@) =~= seq![("type"@, jstr(t@))]);
    Json::Object(entries)
}

pub fn normalize_runtime_status(status: Option<&Json>) -> (r: Json)
    ensures
        r@ == normalize_runtime_status_spec(
            match status {
                Some(j) => Some(j@),
                None => None,
            },
        ),
{
    match status {
        Some(Json::Object(_)) => status.unwrap().copy(),
        Some(Json::Str(s)) => if s.unicode_len() > 0 {
            type_object_json(s.as_str())
        } else {
            type_object_json("notLoaded")
        },
        _ => type_object_json("notLoaded"),
    }
}

/// The status of the last listed turn: the `status` string of its `turn`
/// member when it has one, else of the turn itself.
pub open spec fn last_turn_status(item: JsonView) -> Option<Seq<char>> {
    match item.get("turns"@) {
        Some(JsonView::Array(turns)) => if turns.len() > 0 {
            let last = turns.last();
            let turn = match last.get("turn"@) {
                Some(t) => t,
                None => last,
            };
            turn.get_str("status"@)
        } else {
            None
        },
        _ => None,
    }
}

/// The latest turn status: that of the last listed turn, else `inProgress`
/// while the thread is active.
pub open spec fn latest_turn_status_spec(item: JsonView, runtime_status: JsonView) -> Option<
    Seq<char>,
> {
    match last_turn_status(item) {
        Some(s) => Some(s),
        None => if runtime_status.get_str("type"@) == Some("active"@) {
            Some("inProgress"@)
        } else {
            None
        },
    }
}

pub fn latest_turn_status(item: &Json, runtime_status: &Json) -> (r: Option<String>)
    ensures
        opt_string_view(r) == latest_turn_status_spec(item@, runtime_status@),
{
    let from_turns: Option<String> = match item.get("turns") {
        Some(Json::Array(turns)) => {
            proof {
                lemma_items_view(turns@);
            }
            if turns.len() > 0 {
                let last = &turns[turns.len() - 1];
                let turn = match last.get("turn") {
                    Some(t) => t,
                    None => last,
                };
                match turn.get_str("status") {
                    Some(s) => Some(s.clone()),
                    None => None,
                }
            } else {
                None
            }
        },
        _ => None,
    };
    match from_turns {
        Some(s) => Some(s),
        None => match runtime_status.get_str("type") {
            Some(t) if str_eq(t.as_str(), "active") => Some(String::from_str("inProgress")),
            _ => None,
        },
    }
}

/// The runtime status type: the `type` string, else `notLoaded`.
pub open spec fn status_type(runtime_status: JsonView) -> Seq<char> {
    match runtime_status.get_str("type"@) {
        Some(t) => t,
        None => "notLoaded"@,
    }
}

/// An entry's observations after a listing shows the thread again, and
/// whether the thread now holds an unread turn.
pub open spec fn observe(
    e: EntryView,
    updated_at: Option<JsonView>,
    runtime_type: Seq<char>,
    latest: Option<Seq<char>>,
    desktop_unread: bool,
) -> EntryView {
    let revision_advanced = e.observed_updated_at is Some && updated_at is Some
        && !opt_json_equal(e.observed_updated_at, updated_at);
    let activity_finished = (e.observed_runtime_status_type == Some("active"@) && runtime_type
        != "active"@) || (e.observed_latest_turn_status == Some("inProgress"@) && latest != Some(
        "inProgress"@,
    ));
    let unread = e.has_unread_turn || (revision_advanced && activity_finished) || (
    !e.observed_desktop_unread && desktop_unread);
    EntryView {
        has_unread_turn: unread,
        observed_updated_at: if updated_at is Some {
            updated_at
        } else {
            e.observed_updated_at
        },
        observed_runtime_status_type: Some(runtime_type),
        observed_latest_turn_status: latest,
        observed_desktop_unread: desktop_unread,
    }
}

/// The entry a thread seen for the first time starts from.
pub open spec fn first_seen(
    updated_at: Option<JsonView>,
    runtime_type: Seq<char>,
    latest: Option<Seq<char>>,
    desktop_unread: bool,
) -> EntryView {
    EntryView {
        has_unread_turn: desktop_unread,
        observed_updated_at: updated_at,
        observed_runtime_status_type: Some(runtime_type),
        observed_latest_turn_status: latest,
        observed_desktop_unread: desktop_unread,
    }
}

/// The listed thread with its runtime status and read state set.
pub open spec fn enriched_item(
    item: JsonView,
    runtime_status: JsonView,
    latest: Option<Seq<char>>,
    has_unread: bool,
) -> JsonView {
    let runtime_type = status_type(runtime_status);
    let active_flags = match runtime_status.get("activeFlags"@) {
        Some(JsonView::Array(a)) => JsonView::Array(a),
        _ => JsonView::Array(Seq::empty()),
    };
    item.with("threadRuntimeStatus"@, runtime_status).with(
        "runtimeStatusAvailability"@,
        jstr(
            if runtime_type == "notLoaded"@ {
                "persistedOnly"@
            } else {
                "live"@
            },
        ),
    ).with("runtimeStatusSource"@, jstr("codexAppServer"@)).with("activeFlags"@, active_flags).with(
        "isInProgress"@,
        JsonView::Bool(runtime_type == "active"@ || latest == Some("inProgress"@)),
    ).with("latestTurnStatus"@, opt_str_json(latest)).with(
        "hasUnreadTurn"@,
        JsonView::Bool(has_unread),
    )
}

/// One listed thread: the read state after it, and the thread as shown.
pub open spec fn enrich_one(
    threads: Map<Seq<char>, EntryView>,
    desktop: Seq<Seq<char>>,
    item: JsonView,
) -> (Map<Seq<char>, EntryView>, JsonView) {
    if !item.is_object() {
        (threads, item)
    } else {
        match thread_id_spec(item) {
            None => (threads, item),
            Some(id) => {
                let updated_at = item.get("updatedAt"@);
                let desktop_unread = desktop.contains(id);
                let runtime_status = normalize_runtime_status_spec(item.get("status"@));
                let runtime_type = status_type(runtime_status);
                let latest = latest_turn_status_spec(item, runtime_status);
                let before = if threads.contains_key(id) {
                    threads[id]
                } else {
                    first_seen(updated_at, runtime_type, latest, desktop_unread)
                };
                let after = observe(before, updated_at, runtime_type, latest, desktop_unread);
                (
                    threads.insert(id, after),
                    enriched_item(item, runtime_status, latest, after.has_unread_turn),
                )
            },
        }
    }
}

/// A listing: the read state after all its threads, and the threads as shown.
pub open spec fn enrich_all(
    threads: Map<Seq<char>, EntryView>,
    desktop: Seq<Seq<char>>,
    items: Seq<JsonView>,
) -> (Map<Seq<char>, EntryView>, Seq<JsonView>)
    decreases items.len(),
{
    if items.len() == 0 {
        (threads, Seq::empty())
    } else {
        let (m, shown) = enrich_all(threads, desktop, items.drop_last());
        let (m2, last) = enrich_one(m, desktop, items.last());
        (m2, shown.push(last))
    }
}

fn string_in(list: &Vec<String>, s: &str) -> (r: bool)
    ensures
        r == list@.map_values(|x: String| x@).contains(s@),
{
    let ghost lv = list@.map_values(|x: String| x@);
    let mut i: usize = 0;
    while i < list.len()
        invariant
            i <= list@.len(),
            lv == list@.map_values(|x: String| x@),
            forall|j: int| 0 <= j < i ==> lv[j] != s@,
        decreases list@.len() - i,
    {
        if str_eq(list[i].as_str(), s) {
            assert(lv[i as int] == s@);
            return true;
        }
        i = i + 1;
    }
    false
}

fn enriched_item_json(
    item: &mut Json,
    runtime_status: Json,
    latest: &Option<String>,
    has_unread: bool,
)
    requires
        old(item)@.is_object(),
    ensures
        final(item)@ == enriched_item(
            old(item)@,
            runtime_status@,
            opt_string_view(*latest),
            has_unread,
        ),
{
    let ghost rs = runtime_status@;
    let is_active = type_is(&runtime_status, "active");
    let not_loaded = match runtime_status.get_str("type") {
        Some(_) => type_is(&runtime_status, "notLoaded"),
        None => true,
    };
    let active_flags = match runtime_status.get("activeFlags") {
        Some(Json::Array(a)) => runtime_status.get("activeFlags").unwrap().copy(),
        _ => Json::empty_array(),
    };
    let latest_in_progress = match latest {
        Some(l) => str_eq(l.as_str(), "inProgress"),
        None => false,
    };
    let latest_json = match latest {
        Some(l) => Json::Str(l.clone()),
        None => Json::Null,
    };
    proof {
        reveal_strlit("active");
        reveal_strlit("notLoaded");
    }
    assert("notLoaded"@.len() != "active"@.len());
    assert(is_active == (status_type(rs) == "active"@));
    assert(not_loaded == (status_type(rs) == "notLoaded"@));
    assert(active_flags@ == match rs.get("activeFlags"@) {
        Some(JsonView::Array(a)) => JsonView::Array(a),
        _ => JsonView::Array(Seq::empty()),
    });
    assert(latest_in_progress == (opt_string_view(*latest) == Some("inProgress"@)));
    assert(latest_json@ == opt_str_json(opt_string_view(*latest)));
    item.insert("threadRuntimeStatus", runtime_status);
    item.insert(
        "runtimeStatusAvailability",
        Json::str_of(
            if not_loaded {
                "persistedOnly"
            } else {
                "live"
            },
        ),
    );
    item.insert("runtimeStatusSource", Json::str_of("codexAppServer"));
    item.insert("activeFlags", active_flags);
    item.insert("isInProgress", Json::Bool(is_active || latest_in_progress));
    item.insert("latestTurnStatus", latest_json);
    item.insert("hasUnreadTurn", Json::Bool(has_unread));
}

fn type_is(runtime_status: &Json, t: &str) -> (r: bool)
    ensures
        r == (runtime_status@.get_str("type"@) == Some(t@)),
{
    match runtime_status.get_str("type") {
        Some(s) => str_eq(s.as_str(), t),
        None => false,
    }
}

/// Applies the observations of one listing to an entry (see `observe`).
fn observe_entry(
    entry: &mut ThreadReadEntry,
    updated_at: &Option<Json>,
    runtime_type: &str,
    latest: &Option<String>,
    desktop_unread: bool,
)
    ensures
        final(entry)@ == observe(
            old(entry)@,
            opt_json_view(*updated_at),
            runtime_type@,
            opt_string_view(*latest),
            desktop_unread,
        ),
{
    let revision_advanced = entry.observed_updated_at.is_some() && updated_at.is_some()
        && !same_opt_json(&entry.observed_updated_at, updated_at);
    let was_active = match &entry.observed_runtime_status_type {
        Some(t) => str_eq(t.as_str(), "active"),
        None => false,
    };
    let was_in_progress = match &entry.observed_latest_turn_status {
        Some(t) => str_eq(t.as_str(), "inProgress"),
        None => false,
    };
    let is_in_progress = match latest {
        Some(t) => str_eq(t.as_str(), "inProgress"),
        None => false,
    };
    let activity_finished = (was_active && !str_eq(runtime_type, "active")) || (was_in_progress
        && !is_in_progress);
    if revision_advanced && activity_finished {
        entry.has_unread_turn = true;
    }
    if !entry.observed_desktop_unread && desktop_unread {
        entry.has_unread_turn = true;
    }
    if updated_at.is_some() {
        entry.observed_updated_at = copy_opt_json(updated_at);
    }
    entry.observed_runtime_status_type = Some(String::from_str(runtime_type));
    entry.observed_latest_turn_status = copy_opt_string(latest);
    entry.observed_desktop_unread = desktop_unread;
}

impl ThreadReadStore {
    /// Shows one listed thread (see `enrich_one`).
    pub fn enrich_item(&mut self, item: &mut Json, desktop_unread_ids: &Vec<String>)
        requires
            old(self).wf(),
        ensures
            final(self).wf(),
            final(self)@.version == old(self)@.version,
            (final(self)@.threads, final(item)@) == enrich_one(
                old(self)@.threads,
                desktop_unread_ids@.map_values(|x: String| x@),
                old(item)@,
            ),
            keeps_key_order(old(self).key_order(), final(self).key_order()),
    {
        if !item.is_object() {
            return;
        }
        let id = match thread_id(item) {
            Some(id) => id,
            None => {
                return;
            },
        };
        let updated_at: Option<Json> = match item.get("updatedAt") {
            Some(v) => Some(v.copy()),
            None => None,
        };
        let desktop_unread = string_in(desktop_unread_ids, id.as_str());
        let runtime_status = normalize_runtime_status(item.get("status"));
        let runtime_type: String = match runtime_status.get_str("type") {
            Some(t) => t.clone(),
            None => String::from_str("notLoaded"),
        };
        let latest = latest_turn_status(item, &runtime_status);
        let mut entry = match self.get(id.as_str()) {
            Some(e) => e.copy(),
            None => ThreadReadEntry {
                has_unread_turn: desktop_unread,
                observed_updated_at: copy_opt_json(&updated_at),
                observed_runtime_status_type: Some(runtime_type.clone()),
                observed_latest_turn_status: copy_opt_string(&latest),
                observed_desktop_unread: desktop_unread,
            },
        };
        observe_entry(&mut entry, &updated_at, runtime_type.as_str(), &latest, desktop_unread);
        let has_unread = entry.has_unread_turn;
        self.set(id.as_str(), entry);
        enriched_item_json(item, runtime_status, &latest, has_unread);
    }
}

/// What enriching a listing leads to.
#[derive(Debug)]
pub struct EnrichOutcome {
    /// Whether the read state differs from before and must be saved.
    pub changed: bool,
}

impl ThreadReadStore {
    /// Whether this store holds the same entries as `other`, when it grew
    /// from it by setting entries.
    fn same_threads_as(&self, other: &ThreadReadStore) -> (r: bool)
        requires
            self.wf(),
            other.wf(),
            keeps_key_order(other.key_order(), self.key_order()),
        ensures
            r == threads_equal(self@.threads, other@.threads),
    {
        let ghost a = pairs_view(self.threads@);
        let ghost b = pairs_view(other.threads@);
        assert forall|j: int| 0 <= j < other.threads@.len() implies (#[trigger] a[j]).0 == b[j].0 by {
            assert(self.key_order()[j] == other.key_order()[j]);
        }
        if self.threads.len() != other.threads.len() {
            proof {
                let k = a[b.len() as int].0;
                lemma_to_map_index(a, b.len() as int);
                lemma_to_map_dom(b, k);
                if to_map(b).contains_key(k) {
                    let i = choose|i: int| 0 <= i < b.len() && #[trigger] b[i].0 == k;
                    assert(a[i].0 == b[i].0);
                }
            }
            return false;
        }
        let mut i: usize = 0;
        while i < self.threads.len()
            invariant
                i <= self.threads@.len(),
                self.threads@.len() == other.threads@.len(),
                a == pairs_view(self.threads@),
                b == pairs_view(other.threads@),
                forall|j: int| 0 <= j < other.threads@.len() ==> (#[trigger] a[j]).0 == b[j].0,
                forall|j: int| 0 <= j < i ==> entry_equal((#[trigger] a[j]).1, b[j].1),
                keys_unique(a),
                keys_unique(b),
            decreases self.threads@.len() - i,
        {
            if !self.threads[i].1.same(&other.threads[i].1) {
                proof {
                    lemma_to_map_index(a, i as int);
                    lemma_to_map_index(b, i as int);
                    assert(a[i as int].0 == b[i as int].0);
                    assert(!entry_equal(a[i as int].1, b[i as int].1));
                }
                return false;
            }
            assert(entry_equal(a[i as int].1, b[i as int].1));
            i = i + 1;
        }
        proof {
            assert forall|k: Seq<char>| to_map(a).contains_key(k) <==> to_map(b).contains_key(k) by {
                lemma_to_map_dom(a, k);
                lemma_to_map_dom(b, k);
                if to_map(a).contains_key(k) {
                    let j = choose|j: int| 0 <= j < a.len() && #[trigger] a[j].0 == k;
                    assert(b[j].0 == k);
                }
                if to_map(b).contains_key(k) {
                    let j = choose|j: int| 0 <= j < b.len() && #[trigger] b[j].0 == k;
                    assert(a[j].0 == k);
                }
            }
            assert(to_map(a).dom() =~= to_map(b).dom());
            assert forall|k: Seq<char>| #[trigger] to_map(a).contains_key(k) implies entry_equal(
                to_map(a)[k],
                to_map(b)[k],
            ) by {
                lemma_to_map_dom(a, k);
                let j = choose|j: int| 0 <= j < a.len() && #[trigger] a[j].0 == k;
                lemma_to_map_index(a, j);
                lemma_to_map_index(b, j);
                assert(a[j].0 == b[j].0);
            }
        }
        true
    }

    /// Shows every listed thread with its runtime status and read state,
    /// updating the read state; `changed` says whether it must be saved.
    pub fn enrich_thread_list(&mut self, items: &mut Vec<Json>, desktop_unread_ids: &Vec<String>) -> (r:
        EnrichOutcome)
        requires
            old(self).wf(),
        ensures
            final(self).wf(),
            final(self)@.version == old(self)@.version,
            (final(self)@.threads, items_view(final(items)@)) == enrich_all(
                old(self)@.threads,
                desktop_unread_ids@.map_values(|x: String| x@),
                items_view(old(items)@),
            ),
            r.changed == !threads_equal(final(self)@.threads, old(self)@.threads),
    {
        let ghost desktop = desktop_unread_ids@.map_values(|x: String| x@);
        let ghost initial_items = items_view(items@);
        let initial = ThreadReadStore { version: self.version, threads: self.copy_threads() };
        assert(initial.key_order() =~= self.key_order()) by {
            assert(pairs_view(initial.threads@).len() == pairs_view(self.threads@).len());
            assert forall|j: int| 0 <= j < self.threads@.len() implies #[trigger] initial.key_order()[j]
                == self.key_order()[j] by {
                assert(pairs_view(initial.threads@)[j] == pairs_view(self.threads@)[j]);
                assert(initial.threads@[j].0@ == self.threads@[j].0@);
            }
        }
        let mut i: usize = 0;
        proof {
            lemma_items_view(items@);
        }
        while i < items.len()
            invariant
                self.wf(),
                initial.wf(),
                initial@ == old(self)@,
                self@.version == old(self)@.version,
                keeps_key_order(initial.key_order(), self.key_order()),
                i <= items@.len(),
                desktop == desktop_unread_ids@.map_values(|x: String| x@),
                initial_items == items_view(old(items)@),
                items@.len() == initial_items.len(),
                forall|j: int| i <= j < items@.len() ==> json_view(#[trigger] items@[j]) == initial_items[j],
                (self@.threads, items_view(items@).take(i as int)) == enrich_all(
                    old(self)@.threads,
                    desktop,
                    initial_items.take(i as int),
                ),
            decreases items@.len() - i,
        {
            let ghost before_items = items@;
            let ghost before_keys = self.key_order();
            let mut item = items[i].copy();
            assert(json_view(item) == initial_items[i as int]);
            self.enrich_item(&mut item, desktop_unread_ids);
            items.set(i, item);
            proof {
                lemma_items_view(items@);
                lemma_items_view(before_items);
                assert(initial_items.take(i + 1).drop_last() =~= initial_items.take(i as int));
                assert(initial_items.take(i + 1).last() == initial_items[i as int]);
                assert(items_view(items@).take(i + 1).drop_last() =~= items_view(before_items).take(
                    i as int,
                ));
                assert forall|j: int| 0 <= j < initial.key_order().len() implies #[trigger] self.key_order()[j]
                    == initial.key_order()[j] by {
                    assert(before_keys[j] == initial.key_order()[j]);
                }
            }
            i = i + 1;
        }
        proof {
            lemma_items_view(items@);
            assert(initial_items.take(i as int) =~= initial_items);
            assert(items_view(items@).take(i as int) =~= items_view(items@));
        }
        let same = self.same_threads_as(&initial);
        EnrichOutcome { changed: !same }
    }

    fn copy_threads(&self) -> (r: Vec<(String, ThreadReadEntry)>)
        ensures
            pairs_view(r@) == pairs_view(self.threads@),
    {
        let mut out: Vec<(String, ThreadReadEntry)> = Vec::new();
        let mut i: usize = 0;
        while i < self.threads.len()
            invariant
                i <= self.threads@.len(),
                out@.len() == i,
                pairs_view(out@) == pairs_view(self.threads@.take(i as int)),
            decreases self.threads@.len() - i,
        {
            let ghost before = out@;
            out.push((self.threads[i].0.clone(), self.threads[i].1.copy()));
            assert forall|j: int| 0 <= j < out@.len() implies #[trigger] pairs_view(out@)[j]
                == pairs_view(self.threads@.take(i as int + 1))[j] by {
                if j < i {
                    assert(out@[j] == before[j]);
                    assert(pairs_view(before)[j] == pairs_view(self.threads@.take(i as int))[j]);
                }
            }
            assert(pairs_view(out@) =~= pairs_view(self.threads@.take(i as int + 1)));
            i = i + 1;
        }
        assert(self.threads@.take(i as int) =~= self.threads@);
        out
    }

    /// Records whether a thread holds an unread turn, and what was last
    /// observed of it; returns `{"hasUnreadTurn", "observedUpdatedAt",
    /// "threadId"}` with the observation now kept.
    pub fn set_thread_read_state(
        &mut self,
        thread_id: &str,
        has_unread_turn: bool,
        observed_updated_at: Option<Json>,
        desktop_unread: bool,
    ) -> (r: Json)
        requires
            old(self).wf(),
        ensures
            final(self).wf(),
            final(self)@.version == old(self)@.version,
            final(self)@.threads == old(self)@.threads.insert(
                thread_id@,
                read_state_set(
                    entry_or_default(old(self)@.threads, thread_id@),
                    has_unread_turn,
                    opt_json_view(observed_updated_at),
                    desktop_unread,
                ),
            ),
            r@ == jobject(
                seq![
                    ("hasUnreadTurn"@, JsonView::Bool(has_unread_turn)),
                    (
                        "observedUpdatedAt"@,
                        opt_json(
                            final(self)@.threads[thread_id@].observed_updated_at,
                        ),
                    ),
                    ("threadId"@, jstr(thread_id@)),
                ],
            ),
    {
        let mut entry = self.entry_or_default(thread_id);
        entry.has_unread_turn = has_unread_turn;
        if observed_updated_at.is_some() {
            entry.observed_updated_at = observed_updated_at;
        }
        entry.observed_desktop_unread = desktop_unread;
        let persisted = match &entry.observed_updated_at {
            Some(v) => v.copy(),
            None => Json::Null,
        };
        self.set(thread_id, entry);
        let entries: Vec<(String, Json)> = vec![
            (String::from_str("hasUnreadTurn"), Json::Bool(has_unread_turn)),
            (String::from_str("observedUpdatedAt"), persisted),
            (String::from_str("threadId"), Json::str_of(thread_id)),
        ];
        proof {
            lemma_entries_view(entries@);
        }
        let r = Json::Object(entries);
        assert(entries_view(entries@) =~= seq![
            ("hasUnreadTurn"@, JsonView::Bool(has_unread_turn)),
            ("observedUpdatedAt"@, opt_json(self@.threads[thread_id@].observed_updated_at)),
            ("threadId"@, jstr(thread_id@)),
        ]);
        r
    }
}

/// An entry after the read state has been set explicitly.
pub open spec fn read_state_set(
    e: EntryView,
    has_unread_turn: bool,
    observed_updated_at: Option<JsonView>,
    desktop_unread: bool,
) -> EntryView {
    EntryView {
        has_unread_turn,
        observed_updated_at: if observed_updated_at is Some {
            observed_updated_at
        } else {
            e.observed_updated_at
        },
        observed_desktop_unread: desktop_unread,
        ..e
    }
}

/// Marks a thread as holding an unread turn (a turn of it completed); the
/// desktop's own unread state is not touched.
pub fn mark_thread_unread(store: &mut ThreadReadStore, thread_id: &str)
    requires
        old(store).wf(),
    ensures
        final(store).wf(),
        final(store)@.version == old(store)@.version,
        final(store)@.threads == old(store)@.threads.insert(
            thread_id@,
            EntryView { has_unread_turn: true, ..entry_or_default(old(store)@.threads, thread_id@) },
        ),
{
    let mut entry = store.entry_or_default(thread_id);
    entry.has_unread_turn = true;
    store.set(thread_id, entry);
}

/// A field of a record read leniently: the member `name` of an object, or
/// the element at `index` of an array no longer than `fields`.
pub open spec fn field(j: JsonView, name: Seq<char>, index: int) -> Option<JsonView> {
    match j {
        JsonView::Object(es) => lookup(es, name),
        JsonView::Array(items) => if 0 <= index < items.len() {
            Some(items[index])
        } else {
            None
        },
        _ => None,
    }
}

/// Whether `j` can be read as a record of `fields` fields: an object (other
/// members are ignored) or an array of at most that many elements.
pub open spec fn record_shape(j: JsonView, fields: nat) -> bool {
    match j {
        JsonView::Object(_) => true,
        JsonView::Array(items) => items.len() <= fields,
        _ => false,
    }
}

/// An optional string field: absent or `null` is none.
pub open spec fn opt_string_field(v: Option<JsonView>) -> Option<Option<Seq<char>>> {
    match v {
        None => Some(None),
        Some(JsonView::Null) => Some(None),
        Some(JsonView::Str(s)) => Some(Some(s)),
        _ => None,
    }
}

/// An optional value field: absent or `null` is none.
pub open spec fn opt_value_field(v: Option<JsonView>) -> Option<JsonView> {
    match v {
        Some(JsonView::Null) => None,
        _ => v,
    }
}

/// What an entry of the persisted read state reads as.
pub open spec fn entry_from(j: JsonView) -> Option<EntryView> {
    if !record_shape(j, 5) {
        None
    } else {
        match (
            field(j, "hasUnreadTurn"@, 0),
            opt_string_field(field(j, "observedRuntimeStatusType"@, 2)),
            opt_string_field(field(j, "observedLatestTurnStatus"@, 3)),
            field(j, "observedDesktopUnread"@, 4),
        ) {
            (Some(JsonView::Bool(unread)), Some(status_type), Some(latest), desktop) => match desktop {
                None => Some(
                    EntryView {
                        has_unread_turn: unread,
                        observed_updated_at: opt_value_field(field(j, "observedUpdatedAt"@, 1)),
                        observed_runtime_status_type: status_type,
                        observed_latest_turn_status: latest,
                        observed_desktop_unread: false,
                    },
                ),
                Some(JsonView::Bool(d)) => Some(
                    EntryView {
                        has_unread_turn: unread,
                        observed_updated_at: opt_value_field(field(j, "observedUpdatedAt"@, 1)),
                        observed_runtime_status_type: status_type,
                        observed_latest_turn_status: latest,
                        observed_desktop_unread: d,
                    },
                ),
                _ => None,
            },
            _ => None,
        }
    }
}

/// The entries of the persisted read state; a later member of the same id wins.
pub open spec fn threads_from(es: Seq<(Seq<char>, JsonView)>) -> Option<Map<Seq<char>, EntryView>>
    decreases es.len(),
{
    if es.len() == 0 {
        Some(Map::empty())
    } else {
        match (threads_from(es.drop_last()), entry_from(es.last().1)) {
            (Some(m), Some(e)) => Some(m.insert(es.last().0, e)),
            _ => None,
        }
    }
}

/// What the persisted read state reads as: a `u32` version and, unless
/// absent, an object of entries.
pub open spec fn store_from(j: JsonView) -> Option<StoreView> {
    if !record_shape(j, 2) {
        None
    } else {
        match field(j, "version"@, 0) {
            Some(JsonView::Number(JsonNumber::PosInt(v))) => if v <= u32::MAX as u64 {
                match field(j, "threads"@, 1) {
                    None => Some(StoreView { version: v as u32, threads: Map::empty() }),
                    Some(JsonView::Object(es)) => match threads_from(es) {
                        Some(m) => Some(StoreView { version: v as u32, threads: m }),
                        None => None,
                    },
                    _ => None,
                }
            } else {
                None
            },
            _ => None,
        }
    }
}

/// The JSON form of an entry; absent observations are left out.
pub open spec fn entry_json(e: EntryView) -> JsonView {
    let a = seq![("hasUnreadTurn"@, JsonView::Bool(e.has_unread_turn))];
    let b = match e.observed_updated_at {
        Some(v) => a.push(("observedUpdatedAt"@, v)),
        None => a,
    };
    let c = match e.observed_runtime_status_type {
        Some(s) => b.push(("observedRuntimeStatusType"@, jstr(s))),
        None => b,
    };
    let d = match e.observed_latest_turn_status {
        Some(s) => c.push(("observedLatestTurnStatus"@, jstr(s))),
        None => c,
    };
    JsonView::Object(d.push(("observedDesktopUnread"@, JsonView::Bool(e.observed_desktop_unread))))
}

fn field_of<'a>(j: &'a Json, name: &str, index: usize) -> (r: Option<&'a Json>)
    ensures
        match field(j@, name@, index as int) {
            Some(v) => r is Some && r->0@ == v,
            None => r is None,
        },
{
    match j {
        Json::Object(_) => j.get(name),
        Json::Array(items) => {
            proof {
                lemma_items_view(items@);
            }
            if index < items.len() {
                Some(&items[index])
            } else {
                None
            }
        },
        _ => None,
    }
}

fn record_shape_of(j: &Json, fields: usize) -> (r: bool)
    ensures
        r == record_shape(j@, fields as nat),
{
    match j {
        Json::Object(_) => true,
        Json::Array(items) => {
            proof {
                lemma_items_view(items@);
            }
            items.len() <= fields
        },
        _ => false,
    }
}

fn opt_string_field_of(v: Option<&Json>) -> (r: Option<Option<String>>)
    ensures
        match opt_string_field(
            match v {
                Some(j) => Some(j@),
                None => None,
            },
        ) {
            Some(o) => r is Some && opt_string_view(r->0) == o,
            None => r is None,
        },
{
    match v {
        None => Some(None),
        Some(Json::Null) => Some(None),
        Some(Json::Str(s)) => Some(Some(s.clone())),
        _ => None,
    }
}

impl ThreadReadEntry {
    /// Reads an entry of the persisted read state.
    pub fn from_json(j: &Json) -> (r: Option<ThreadReadEntry>)
        ensures
            match entry_from(j@) {
                Some(e) => r is Some && r->0@ == e,
                None => r is None,
            },
    {
        if !record_shape_of(j, 5) {
            return None;
        }
        let unread = match field_of(j, "hasUnreadTurn", 0) {
            Some(Json::Bool(b)) => *b,
            _ => {
                return None;
            },
        };
        let status_type = match opt_string_field_of(field_of(j, "observedRuntimeStatusType", 2)) {
            Some(o) => o,
            None => {
                return None;
            },
        };
        let latest = match opt_string_field_of(field_of(j, "observedLatestTurnStatus", 3)) {
            Some(o) => o,
            None => {
                return None;
            },
        };
        let desktop = match field_of(j, "observedDesktopUnread", 4) {
            None => false,
            Some(Json::Bool(d)) => *d,
            _ => {
                return None;
            },
        };
        let updated_at = match field_of(j, "observedUpdatedAt", 1) {
            None => None,
            Some(Json::Null) => None,
            Some(v) => Some(v.copy()),
        };
        Some(
            ThreadReadEntry {
                has_unread_turn: unread,
                observed_updated_at: updated_at,
                observed_runtime_status_type: status_type,
                observed_latest_turn_status: latest,
                observed_desktop_unread: desktop,
            },
        )
    }

    /// The JSON form of an entry.
    pub fn to_json(&self) -> (r: Json)
        ensures
            r@ == entry_json(self@),
    {
        let mut entries: Vec<(String, Json)> = vec![
            (String::from_str("hasUnreadTurn"), Json::Bool(self.has_unread_turn)),
        ];
        proof {
            lemma_entries_view(entries@);
        }
        let ghost a = entries_view(entries@);
        assert(a =~= seq![("hasUnreadTurn"@, JsonView::Bool(self.has_unread_turn))]);
        if let Some(v) = &self.observed_updated_at {
            entries.push((String::from_str("observedUpdatedAt"), v.copy()));
        }
        proof {
            lemma_entries_view(entries@);
        }
        let ghost b = entries_view(entries@);
        assert(b =~= match self@.observed_updated_at {
            Some(v) => a.push(("observedUpdatedAt"@, v)),
            None => a,
        });
        if let Some(s) = &self.observed_runtime_status_type {
            entries.push((String::from_str("observedRuntimeStatusType"), Json::Str(s.clone())));
        }
        proof {
            lemma_entries_view(entries@);
        }
        let ghost c = entries_view(entries@);
        assert(c =~= match self@.observed_runtime_status_type {
            Some(s) => b.push(("observedRuntimeStatusType"@, jstr(s))),
            None => b,
        });
        if let Some(s) = &self.observed_latest_turn_status {
            entries.push((String::from_str("observedLatestTurnStatus"), Json::Str(s.clone())));
        }
        proof {
            lemma_entries_view(entries@);
        }
        let ghost d = entries_view(entries@);
        assert(d =~= match self@.observed_latest_turn_status {
            Some(s) => c.push(("observedLatestTurnStatus"@, jstr(s))),
            None => c,
        });
        entries.push((String::from_str("observedDesktopUnread"), Json::Bool(self.observed_desktop_unread)));
        proof {
            lemma_entries_view(entries@);
        }
        assert(entries_view(entries@) =~= d.push(
            ("observedDesktopUnread"@, JsonView::Bool(self.observed_desktop_unread)),
        ));
        Json::Object(entries)
    }
}

/// The JSON form of the persisted read state, entries in the store's order.
pub open spec fn store_json(version: u32, pairs: Seq<(Seq<char>, EntryView)>) -> JsonView {
    jobject(
        seq![
            ("version"@, JsonView::Number(JsonNumber::PosInt(version as u64))),
            (
                "threads"@,
                JsonView::Object(
                    pairs.map_values(|p: (Seq<char>, EntryView)| (p.0, entry_json(p.1))),
                ),
            ),
        ],
    )
}

impl ThreadReadStore {
    /// The entries in the store's order.
    pub closed spec fn pairs(self) -> Seq<(Seq<char>, EntryView)> {
        pairs_view(self.threads@)
    }

    /// The entries written to the JSON form are the store's entries, each
    /// thread once.
    pub proof fn lemma_pairs(self)
        requires
            self.wf(),
        ensures
            keys_unique(self.pairs()),
            to_map(self.pairs()) == self@.threads,
    {
    }

    /// The JSON form of the persisted read state.
    pub fn to_json(&self) -> (r: Json)
        ensures
            r@ == store_json(self@.version, self.pairs()),
    {
        let ghost pv = pairs_view(self.threads@);
        let mut members: Vec<(String, Json)> = Vec::new();
        let mut i: usize = 0;
        while i < self.threads.len()
            invariant
                i <= self.threads@.len(),
                pv == pairs_view(self.threads@),
                members@.len() == i,
                forall|k: int|
                    0 <= k < i ==> (#[trigger] members@[k]).0@ == pv[k].0 && json_view(members@[k].1)
                        == entry_json(pv[k].1),
            decreases self.threads@.len() - i,
        {
            members.push((self.threads[i].0.clone(), self.threads[i].1.to_json()));
            i = i + 1;
        }
        proof {
            lemma_entries_view(members@);
        }
        assert(entries_view(members@) =~= pv.map_values(
            |p: (Seq<char>, EntryView)| (p.0, entry_json(p.1)),
        ));
        let outer: Vec<(String, Json)> = vec![
            (String::from_str("version"), Json::u64_of(self.version as u64)),
            (String::from_str("threads"), Json::Object(members)),
        ];
        proof {
            lemma_entries_view(outer@);
        }
        assert(entries_view(outer@) =~= store_json(self@.version, self.pairs())->Object_0);
        Json::Object(outer)
    }

    /// Reads the persisted read state (any version).
    pub fn from_json(j: &Json) -> (r: Option<ThreadReadStore>)
        ensures
            match store_from(j@) {
                Some(v) => r is Some && r->0.wf() && r->0@ == v,
                None => r is None,
            },
    {
        if !record_shape_of(j, 2) {
            return None;
        }
        let version: u32 = match field_of(j, "version", 0) {
            Some(Json::Number(JsonNumber::PosInt(v))) => if *v <= 4294967295u64 {
                *v as u32
            } else {
                return None;
            },
            _ => {
                return None;
            },
        };
        let mut store = ThreadReadStore::new();
        store.version = version;
        match field_of(j, "threads", 1) {
            None => {
                assert(store@.threads == Map::<Seq<char>, EntryView>::empty());
                Some(store)
            },
            Some(Json::Object(entries)) => {
                proof {
                    lemma_entries_view(entries@);
                }
                let ghost es = entries_view(entries@);
                assert(store_from(j@) == match threads_from(es) {
                    Some(m) => Some(StoreView { version, threads: m }),
                    None => None,
                });
                let mut i: usize = 0;
                while i < entries.len()
                    invariant
                        store_from(j@) == match threads_from(es) {
                            Some(m) => Some(StoreView { version, threads: m }),
                            None => None,
                        },
                        store.wf(),
                        store@.version == version,
                        i <= entries@.len(),
                        es == entries_view(entries@),
                        es.len() == entries@.len(),
                        forall|m: int|
                            0 <= m < entries@.len() ==> #[trigger] es[m] == (
                                entries@[m].0@,
                                json_view(entries@[m].1),
                            ),
                        threads_from(es.take(i as int)) == Some(store@.threads),
                    decreases entries@.len() - i,
                {
                    assert(es.take(i + 1).drop_last() =~= es.take(i as int));
                    assert(es.take(i + 1).last() == es[i as int]);
                    match ThreadReadEntry::from_json(&entries[i].1) {
                        Some(e) => {
                            store.set(entries[i].0.as_str(), e);
                        },
                        None => {
                            proof {
                                lemma_threads_from_prefix(es, i + 1);
                            }
                            return None;
                        },
                    }
                    i = i + 1;
                }
                assert(es.take(i as int) =~= es);
                Some(store)
            },
            _ => None,
        }
    }
}

proof fn lemma_threads_from_prefix(es: Seq<(Seq<char>, JsonView)>, n: int)
    requires
        0 <= n <= es.len(),
        threads_from(es.take(n)) is None,
    ensures
        threads_from(es) is None,
    decreases es.len() - n,
{
    if n < es.len() {
        assert(es.take(n + 1).drop_last() =~= es.take(n));
        lemma_threads_from_prefix(es, n + 1);
    } else {
        assert(es.take(n) =~= es);
    }
}

/// Reading an entry back from its JSON form gives the entry, unless it
/// observed an `updatedAt` of `null` (which reads back as none).
pub proof fn law_entry_round_trip(e: EntryView)
    requires
        e.observed_updated_at != Some(JsonView::Null),
    ensures
        entry_from(entry_json(e)) == Some(e),
{
    let es = entry_json(e)->Object_0;
    reveal_strlit("hasUnreadTurn");
    reveal_strlit("observedUpdatedAt");
    reveal_strlit("observedRuntimeStatusType");
    reveal_strlit("observedLatestTurnStatus");
    reveal_strlit("observedDesktopUnread");
    assert("hasUnreadTurn"@ != "observedUpdatedAt"@) by {
        assert("hasUnreadTurn"@[0] != "observedUpdatedAt"@[0]);
    }
    assert("hasUnreadTurn"@ != "observedRuntimeStatusType"@) by {
        assert("hasUnreadTurn"@[0] != "observedRuntimeStatusType"@[0]);
    }
    assert("hasUnreadTurn"@ != "observedLatestTurnStatus"@) by {
        assert("hasUnreadTurn"@[0] != "observedLatestTurnStatus"@[0]);
    }
    assert("hasUnreadTurn"@ != "observedDesktopUnread"@) by {
        assert("hasUnreadTurn"@[0] != "observedDesktopUnread"@[0]);
    }
    assert("observedUpdatedAt"@ != "observedRuntimeStatusType"@) by {
        assert("observedUpdatedAt"@[8] != "observedRuntimeStatusType"@[8]);
    }
    assert("observedUpdatedAt"@ != "observedLatestTurnStatus"@) by {
        assert("observedUpdatedAt"@[8] != "observedLatestTurnStatus"@[8]);
    }
    assert("observedUpdatedAt"@ != "observedDesktopUnread"@) by {
        assert("observedUpdatedAt"@[8] != "observedDesktopUnread"@[8]);
    }
    assert("observedRuntimeStatusType"@ != "observedLatestTurnStatus"@) by {
        assert("observedRuntimeStatusType"@[8] != "observedLatestTurnStatus"@[8]);
    }
    assert("observedRuntimeStatusType"@ != "observedDesktopUnread"@) by {
        assert("observedRuntimeStatusType"@[8] != "observedDesktopUnread"@[8]);
    }
    assert("observedLatestTurnStatus"@ != "observedDesktopUnread"@) by {
        assert("observedLatestTurnStatus"@[8] != "observedDesktopUnread"@[8]);
    }
    reveal_with_fuel(lookup, 6);
}

proof fn lemma_threads_round_trip(pairs: Seq<(Seq<char>, EntryView)>)
    requires
        forall|i: int| 0 <= i < pairs.len() ==> (#[trigger] pairs[i]).1.observed_updated_at != Some(
            JsonView::Null,
        ),
    ensures
        threads_from(pairs.map_values(|p: (Seq<char>, EntryView)| (p.0, entry_json(p.1)))) == Some(
            to_map(pairs),
        ),
    decreases pairs.len(),
{
    if pairs.len() > 0 {
        let f = |p: (Seq<char>, EntryView)| (p.0, entry_json(p.1));
        assert(pairs.map_values(f).drop_last() =~= pairs.drop_last().map_values(f));
        assert forall|i: int| 0 <= i < pairs.drop_last().len() implies (
        #[trigger] pairs.drop_last()[i]).1.observed_updated_at != Some(JsonView::Null) by {
            assert(pairs.drop_last()[i] == pairs[i]);
        }
        lemma_threads_round_trip(pairs.drop_last());
        assert(pairs.last() == pairs[pairs.len() - 1]);
        law_entry_round_trip(pairs.last().1);
    }
}

/// Reading the persisted read state back from its JSON form (what
/// `ThreadReadStore::to_json` writes and `ThreadReadStore::from_json`
/// reads) gives the same version and entries, provided no entry observed an
/// `updatedAt` of `null`.
pub proof fn law_store_round_trip(s: ThreadReadStore)
    requires
        s.wf(),
        forall|k: Seq<char>|
            #![trigger s@.threads[k]]
            s@.threads.contains_key(k) ==> s@.threads[k].observed_updated_at != Some(JsonView::Null),
    ensures
        store_from(store_json(s@.version, s.pairs())) == Some(s@),
{
    let pairs = s.pairs();
    assert forall|i: int| 0 <= i < pairs.len() implies (
    #[trigger] pairs[i]).1.observed_updated_at != Some(JsonView::Null) by {
        lemma_to_map_index(pairs, i);
        assert(s@.threads[pairs[i].0] == pairs[i].1);
    }
    lemma_threads_round_trip(pairs);
    reveal_strlit("version");
    reveal_strlit("threads");
    assert("version"@[0] != "threads"@[0]);
    reveal_with_fuel(lookup, 3);
}

/// The ids the desktop app lists as unread on this host, read from its
/// global state document.
pub open spec fn desktop_unread_spec(document: Option<JsonView>, path: Seq<char>) -> Result<
    Seq<Seq<char>>,
    Seq<char>,
> {
    match document {
        None => Ok(Seq::empty()),
        Some(doc) => match doc.get("unread-thread-ids-by-host-v1"@) {
            None => Ok(Seq::empty()),
            Some(hosts) => if !hosts.is_object() {
                Err("Codex desktop unread state must be an object: "@ + path)
            } else {
                match hosts.get("local"@) {
                    None => Ok(Seq::empty()),
                    Some(JsonView::Array(items)) => Ok(strings_among(items)),
                    Some(_) => Err("Codex desktop local unread state must be an array: "@ + path),
                }
            },
        },
    }
}

/// The strings among some values, in order.
pub open spec fn strings_among(items: Seq<JsonView>) -> Seq<Seq<char>>
    decreases items.len(),
{
    if items.len() == 0 {
        Seq::empty()
    } else {
        match items.last() {
            JsonView::Str(s) => strings_among(items.drop_last()).push(s),
            _ => strings_among(items.drop_last()),
        }
    }
}

/// Reads the desktop's unread thread ids for this host from its global
/// state document (`None` when there is no document); `path` names the
/// document in errors.
pub fn desktop_unread_thread_ids(document: Option<&Json>, path: &str) -> (r: Result<
    Vec<String>,
    String,
>)
    ensures
        match desktop_unread_spec(
            match document {
                Some(d) => Some(d@),
                None => None,
            },
            path@,
        ) {
            Ok(ids) => r is Ok && r->Ok_0@.map_values(|x: String| x@) == ids,
            Err(e) => r is Err && r->Err_0@ == e,
        },
{
    let doc = match document {
        None => {
            let v: Vec<String> = Vec::new();
            assert(v@.map_values(|x: String| x@) =~= Seq::<Seq<char>>::empty());
            return Ok(v);
        },
        Some(d) => d,
    };
    let hosts = match doc.get("unread-thread-ids-by-host-v1") {
        None => {
            let v: Vec<String> = Vec::new();
            assert(v@.map_values(|x: String| x@) =~= Seq::<Seq<char>>::empty());
            return Ok(v);
        },
        Some(h) => h,
    };
    if !hosts.is_object() {
        return Err(concat("Codex desktop unread state must be an object: ", path));
    }
    let items = match hosts.get("local") {
        None => {
            let v: Vec<String> = Vec::new();
            assert(v@.map_values(|x: String| x@) =~= Seq::<Seq<char>>::empty());
            return Ok(v);
        },
        Some(Json::Array(items)) => items,
        Some(_) => {
            return Err(concat("Codex desktop local unread state must be an array: ", path));
        },
    };
    proof {
        lemma_items_view(items@);
    }
    let ghost iv = items_view(items@);
    let mut out: Vec<String> = Vec::new();
    let mut i: usize = 0;
    while i < items.len()
        invariant
            i <= items@.len(),
            iv == items_view(items@),
            iv.len() == items@.len(),
            forall|m: int| 0 <= m < items@.len() ==> #[trigger] iv[m] == json_view(items@[m]),
            out@.map_values(|x: String| x@) == strings_among(iv.take(i as int)),
        decreases items@.len() - i,
    {
        assert(iv.take(i + 1).drop_last() =~= iv.take(i as int));
        assert(iv.take(i + 1).last() == iv[i as int]);
        if let Json::Str(s) = &items[i] {
            out.push(s.clone());
            assert(out@.map_values(|x: String| x@) =~= strings_among(iv.take(i as int)).push(s@));
        }
        i = i + 1;
    }
    assert(iv.take(i as int) =~= iv);
    Ok(out)
}

/// Loads the persisted read state from the outcome of decoding its
/// document: a fresh store when there is no document; the decoder's error
/// when it does not decode; else the decoded store, which must be of the
/// current version. `path` names the document in errors.
pub fn store_from_document(decoded: Option<Result<ThreadReadStore, String>>, path: &str) -> (r:
    Result<ThreadReadStore, String>)
    requires
        decoded matches Some(Ok(s)) ==> s.wf(),
    ensures
        match decoded {
            None => r is Ok && r->Ok_0.wf() && r->Ok_0@ == (StoreView {
                version: STATE_VERSION,
                threads: Map::empty(),
            }),
            Some(Err(e)) => r is Err && r->Err_0@ == "invalid thread read state "@ + path@ + ": "@
                + e@,
            Some(Ok(s)) => if s@.version == STATE_VERSION {
                r is Ok && r->Ok_0.wf() && r->Ok_0@ == s@
            } else {
                r is Err && r->Err_0@ == "unsupported thread read state version "@
                    + crate::text::decimal(s@.version as nat) + " in "@ + path@
            },
        },
{
    let store = match decoded {
        None => {
            return Ok(ThreadReadStore::new());
        },
        Some(Err(error)) => {
            let mut e = concat("invalid thread read state ", path);
            e.append(": ");
            e.append(error.as_str());
            return Err(e);
        },
        Some(Ok(s)) => s,
    };
    if store.version != STATE_VERSION {
        let mut e = String::from_str("unsupported thread read state version ");
        let v = u64_to_decimal(store.version as u64);
        e.append(v.as_str());
        e.append(" in ");
        e.append(path);
        return Err(e);
    }
    Ok(store)
}

/// The facts of one listed thread that the laws below speak of.
pub open spec fn listed(item: JsonView, id: Seq<char>) -> bool {
    item.is_object() && thread_id_spec(item) == Some(id)
}

/// A thread that the desktop newly lists as unread becomes unread, in the
/// read state and as shown.
pub proof fn law_desktop_unread_is_adopted(
    threads: Map<Seq<char>, EntryView>,
    desktop: Seq<Seq<char>>,
    item: JsonView,
    id: Seq<char>,
)
    requires
        listed(item, id),
        desktop.contains(id),
        threads.contains_key(id) ==> !threads[id].observed_desktop_unread,
    ensures
        enrich_one(threads, desktop, item).0[id].has_unread_turn,
        enrich_one(threads, desktop, item).1.get("hasUnreadTurn"@) == Some(JsonView::Bool(true)),
{
    lemma_shown_unread(threads, desktop, item, id);
}

/// A listing never clears an unread turn: only an explicit read state does.
pub proof fn law_unread_survives_listing(
    threads: Map<Seq<char>, EntryView>,
    desktop: Seq<Seq<char>>,
    item: JsonView,
    id: Seq<char>,
)
    requires
        listed(item, id),
        threads.contains_key(id),
        threads[id].has_unread_turn,
    ensures
        enrich_one(threads, desktop, item).0[id].has_unread_turn,
{
}

/// A listing shows as many threads as it was given.
pub proof fn lemma_enrich_all_len(
    threads: Map<Seq<char>, EntryView>,
    desktop: Seq<Seq<char>>,
    items: Seq<JsonView>,
)
    ensures
        enrich_all(threads, desktop, items).1.len() == items.len(),
    decreases items.len(),
{
    if items.len() > 0 {
        lemma_enrich_all_len(threads, desktop, items.drop_last());
    }
}

/// One listed thread keeps an unread mark of any thread, its own or
/// another's.
proof fn lemma_one_keeps_unread(
    threads: Map<Seq<char>, EntryView>,
    desktop: Seq<Seq<char>>,
    item: JsonView,
    id: Seq<char>,
)
    requires
        threads.contains_key(id),
        threads[id].has_unread_turn,
    ensures
        enrich_one(threads, desktop, item).0.contains_key(id),
        enrich_one(threads, desktop, item).0[id].has_unread_turn,
{
    if item.is_object() {
        match thread_id_spec(item) {
            Some(other) => {
                if other == id {
                    law_unread_survives_listing(threads, desktop, item, id);
                }
            },
            None => {},
        }
    }
}

/// A whole listing never clears an unread turn: the read state keeps it,
/// and every listed item of that thread is shown unread.
pub proof fn law_unread_survives_whole_listing(
    threads: Map<Seq<char>, EntryView>,
    desktop: Seq<Seq<char>>,
    items: Seq<JsonView>,
    id: Seq<char>,
)
    requires
        threads.contains_key(id),
        threads[id].has_unread_turn,
    ensures
        enrich_all(threads, desktop, items).0.contains_key(id),
        enrich_all(threads, desktop, items).0[id].has_unread_turn,
        forall|i: int|
            0 <= i < items.len() && listed(items[i], id) ==> (#[trigger] enrich_all(
                threads,
                desktop,
                items,
            ).1[i]).get("hasUnreadTurn"@) == Some(JsonView::Bool(true)),
    decreases items.len(),
{
    if items.len() > 0 {
        let prefix = items.drop_last();
        law_unread_survives_whole_listing(threads, desktop, prefix, id);
        lemma_enrich_all_len(threads, desktop, prefix);
        let (m, shown) = enrich_all(threads, desktop, prefix);
        let last = items.last();
        lemma_one_keeps_unread(m, desktop, last, id);
        let all = enrich_all(threads, desktop, items);
        assert(all.1 == shown.push(enrich_one(m, desktop, last).1));
        assert forall|i: int|
            0 <= i < items.len() && listed(items[i], id) implies (#[trigger] all.1[i]).get(
            "hasUnreadTurn"@,
        ) == Some(JsonView::Bool(true)) by {
            if i < items.len() - 1 {
                assert(items[i] == prefix[i]);
                assert(all.1[i] == shown[i]);
            } else {
                lemma_shown_unread(m, desktop, last, id);
            }
        }
    }
}

/// The names of the members that a listing sets on a shown thread differ
/// from one another.
proof fn lemma_enrich_keys_distinct()
    ensures
        "threadRuntimeStatus"@ != "runtimeStatusAvailability"@,
        "threadRuntimeStatus"@ != "runtimeStatusSource"@,
        "threadRuntimeStatus"@ != "activeFlags"@,
        "threadRuntimeStatus"@ != "isInProgress"@,
        "threadRuntimeStatus"@ != "latestTurnStatus"@,
        "threadRuntimeStatus"@ != "hasUnreadTurn"@,
        "runtimeStatusAvailability"@ != "runtimeStatusSource"@,
        "runtimeStatusAvailability"@ != "activeFlags"@,
        "runtimeStatusAvailability"@ != "isInProgress"@,
        "runtimeStatusAvailability"@ != "latestTurnStatus"@,
        "runtimeStatusAvailability"@ != "hasUnreadTurn"@,
        "runtimeStatusSource"@ != "activeFlags"@,
        "runtimeStatusSource"@ != "isInProgress"@,
        "runtimeStatusSource"@ != "latestTurnStatus"@,
        "runtimeStatusSource"@ != "hasUnreadTurn"@,
        "activeFlags"@ != "isInProgress"@,
        "activeFlags"@ != "latestTurnStatus"@,
        "activeFlags"@ != "hasUnreadTurn"@,
        "isInProgress"@ != "latestTurnStatus"@,
        "isInProgress"@ != "hasUnreadTurn"@,
        "latestTurnStatus"@ != "hasUnreadTurn"@,
{
    reveal_strlit("threadRuntimeStatus");
    reveal_strlit("runtimeStatusAvailability");
    reveal_strlit("runtimeStatusSource");
    reveal_strlit("activeFlags");
    reveal_strlit("isInProgress");
    reveal_strlit("latestTurnStatus");
    reveal_strlit("hasUnreadTurn");
    assert("threadRuntimeStatus"@.len() == 19);
    assert("runtimeStatusAvailability"@.len() == 25);
    assert("runtimeStatusSource"@.len() == 19);
    assert("activeFlags"@.len() == 11);
    assert("isInProgress"@.len() == 12);
    assert("latestTurnStatus"@.len() == 16);
    assert("hasUnreadTurn"@.len() == 13);
    assert("threadRuntimeStatus"@[0] != "runtimeStatusSource"@[0]);
}

/// A name that is none of the members a listing sets.
pub open spec fn kept_by_listing(k: Seq<char>) -> bool {
    &&& k != "threadRuntimeStatus"@
    &&& k != "runtimeStatusAvailability"@
    &&& k != "runtimeStatusSource"@
    &&& k != "activeFlags"@
    &&& k != "isInProgress"@
    &&& k != "latestTurnStatus"@
    &&& k != "hasUnreadTurn"@
}

/// The members that a listing reads are none of those it sets.
proof fn lemma_read_keys_kept()
    ensures
        kept_by_listing("status"@),
        kept_by_listing("turns"@),
        kept_by_listing("updatedAt"@),
        kept_by_listing("threadId"@),
        kept_by_listing("sessionId"@),
        kept_by_listing("id"@),
{
    reveal_strlit("status");
    reveal_strlit("turns");
    reveal_strlit("updatedAt");
    reveal_strlit("threadId");
    reveal_strlit("sessionId");
    reveal_strlit("id");
    reveal_strlit("threadRuntimeStatus");
    reveal_strlit("runtimeStatusAvailability");
    reveal_strlit("runtimeStatusSource");
    reveal_strlit("activeFlags");
    reveal_strlit("isInProgress");
    reveal_strlit("latestTurnStatus");
    reveal_strlit("hasUnreadTurn");
    assert("threadRuntimeStatus"@.len() == 19);
    assert("runtimeStatusAvailability"@.len() == 25);
    assert("runtimeStatusSource"@.len() == 19);
    assert("activeFlags"@.len() == 11);
    assert("isInProgress"@.len() == 12);
    assert("latestTurnStatus"@.len() == 16);
    assert("hasUnreadTurn"@.len() == 13);
    assert("status"@.len() == 6);
    assert("turns"@.len() == 5);
    assert("updatedAt"@.len() == 9);
    assert("threadId"@.len() == 8);
    assert("sessionId"@.len() == 9);
    assert("id"@.len() == 2);
}

/// A thread shown by a listing keeps every member that the listing does
/// not set.
proof fn lemma_enriched_keeps(
    item: JsonView,
    rs: JsonView,
    latest: Option<Seq<char>>,
    h: bool,
    k: Seq<char>,
)
    requires
        item.is_object(),
        kept_by_listing(k),
    ensures
        enriched_item(item, rs, latest, h).is_object(),
        enriched_item(item, rs, latest, h).get(k) == item.get(k),
{
    let runtime_type = status_type(rs);
    let active_flags = match rs.get("activeFlags"@) {
        Some(JsonView::Array(a)) => JsonView::Array(a),
        _ => JsonView::Array(Seq::empty()),
    };
    let avail = jstr(
        if runtime_type == "notLoaded"@ {
            "persistedOnly"@
        } else {
            "live"@
        },
    );
    let in_progress = JsonView::Bool(runtime_type == "active"@ || latest == Some("inProgress"@));
    let o1 = item.with("threadRuntimeStatus"@, rs);
    lemma_with_get(item, "threadRuntimeStatus"@, rs, k);
    let o2 = o1.with("runtimeStatusAvailability"@, avail);
    lemma_with_get(o1, "runtimeStatusAvailability"@, avail, k);
    let o3 = o2.with("runtimeStatusSource"@, jstr("codexAppServer"@));
    lemma_with_get(o2, "runtimeStatusSource"@, jstr("codexAppServer"@), k);
    let o4 = o3.with("activeFlags"@, active_flags);
    lemma_with_get(o3, "activeFlags"@, active_flags, k);
    let o5 = o4.with("isInProgress"@, in_progress);
    lemma_with_get(o4, "isInProgress"@, in_progress, k);
    let o6 = o5.with("latestTurnStatus"@, opt_str_json(latest));
    lemma_with_get(o5, "latestTurnStatus"@, opt_str_json(latest), k);
    lemma_with_get(o6, "hasUnreadTurn"@, JsonView::Bool(h), k);
}

/// Showing an already shown thread again with the same facts changes
/// nothing.
proof fn lemma_enriched_fixed(item: JsonView, rs: JsonView, latest: Option<Seq<char>>, h: bool)
    requires
        item.is_object(),
    ensures
        enriched_item(enriched_item(item, rs, latest, h), rs, latest, h) == enriched_item(
            item,
            rs,
            latest,
            h,
        ),
{
    lemma_enrich_keys_distinct();
    let runtime_type = status_type(rs);
    let active_flags = match rs.get("activeFlags"@) {
        Some(JsonView::Array(a)) => JsonView::Array(a),
        _ => JsonView::Array(Seq::empty()),
    };
    let avail = jstr(
        if runtime_type == "notLoaded"@ {
            "persistedOnly"@
        } else {
            "live"@
        },
    );
    let in_progress = JsonView::Bool(runtime_type == "active"@ || latest == Some("inProgress"@));
    let k1 = "threadRuntimeStatus"@;
    let k2 = "runtimeStatusAvailability"@;
    let k3 = "runtimeStatusSource"@;
    let k4 = "activeFlags"@;
    let k5 = "isInProgress"@;
    let k6 = "latestTurnStatus"@;
    let k7 = "hasUnreadTurn"@;
    let v3 = jstr("codexAppServer"@);
    let v6 = opt_str_json(latest);
    let v7 = JsonView::Bool(h);
    let o1 = item.with(k1, rs);
    let o2 = o1.with(k2, avail);
    let o3 = o2.with(k3, v3);
    let o4 = o3.with(k4, active_flags);
    let o5 = o4.with(k5, in_progress);
    let o6 = o5.with(k6, v6);
    let e = o6.with(k7, v7);
    assert(e == enriched_item(item, rs, latest, h));
    lemma_with_get(item, k1, rs, k1);
    lemma_with_get(o1, k2, avail, k1);
    lemma_with_get(o1, k2, avail, k2);
    lemma_with_get(o2, k3, v3, k1);
    lemma_with_get(o2, k3, v3, k2);
    lemma_with_get(o2, k3, v3, k3);
    lemma_with_get(o3, k4, active_flags, k1);
    lemma_with_get(o3, k4, active_flags, k2);
    lemma_with_get(o3, k4, active_flags, k3);
    lemma_with_get(o3, k4, active_flags, k4);
    lemma_with_get(o4, k5, in_progress, k1);
    lemma_with_get(o4, k5, in_progress, k2);
    lemma_with_get(o4, k5, in_progress, k3);
    lemma_with_get(o4, k5, in_progress, k4);
    lemma_with_get(o4, k5, in_progress, k5);
    lemma_with_get(o5, k6, v6, k1);
    lemma_with_get(o5, k6, v6, k2);
    lemma_with_get(o5, k6, v6, k3);
    lemma_with_get(o5, k6, v6, k4);
    lemma_with_get(o5, k6, v6, k5);
    lemma_with_get(o5, k6, v6, k6);
    lemma_with_get(o6, k7, v7, k1);
    lemma_with_get(o6, k7, v7, k2);
    lemma_with_get(o6, k7, v7, k3);
    lemma_with_get(o6, k7, v7, k4);
    lemma_with_get(o6, k7, v7, k5);
    lemma_with_get(o6, k7, v7, k6);
    lemma_with_get(o6, k7, v7, k7);
    lemma_with_same(e, k1, rs);
    lemma_with_same(e, k2, avail);
    lemma_with_same(e, k3, v3);
    lemma_with_same(e, k4, active_flags);
    lemma_with_same(e, k5, in_progress);
    lemma_with_same(e, k6, v6);
    lemma_with_same(e, k7, v7);
}

/// The thread whose read state a listed item reads and writes, if any.
pub open spec fn touched(item: JsonView) -> Option<Seq<char>> {
    if item.is_object() {
        thread_id_spec(item)
    } else {
        None
    }
}

/// No two listed items belong to the same thread.
pub open spec fn distinct_threads(items: Seq<JsonView>) -> bool {
    forall|i: int, j: int|
        0 <= i < j < items.len() && (#[trigger] touched(items[i])) is Some ==> touched(items[i])
            != #[trigger] touched(items[j])
}

/// A thread shown once and shown again, with the read state that the first
/// showing left for it, is shown as before and leaves that state as it is.
proof fn lemma_enrich_one_again(
    p: Map<Seq<char>, EntryView>,
    desktop: Seq<Seq<char>>,
    item: JsonView,
    m: Map<Seq<char>, EntryView>,
)
    requires
        touched(item) is Some ==> m.contains_key(touched(item)->0) && m[touched(item)->0]
            == enrich_one(p, desktop, item).0[touched(item)->0],
    ensures
        enrich_one(m, desktop, enrich_one(p, desktop, item).1) == (
            m,
            enrich_one(p, desktop, item).1,
        ),
{
    if touched(item) is Some {
        let id = touched(item)->0;
        let updated_at = item.get("updatedAt"@);
        let desktop_unread = desktop.contains(id);
        let runtime_status = normalize_runtime_status_spec(item.get("status"@));
        let runtime_type = status_type(runtime_status);
        let latest = latest_turn_status_spec(item, runtime_status);
        let before = if p.contains_key(id) {
            p[id]
        } else {
            first_seen(updated_at, runtime_type, latest, desktop_unread)
        };
        let after = observe(before, updated_at, runtime_type, latest, desktop_unread);
        let shown = enriched_item(item, runtime_status, latest, after.has_unread_turn);
        assert(enrich_one(p, desktop, item).1 == shown);
        assert(enrich_one(p, desktop, item).0[id] == after);
        lemma_read_keys_kept();
        lemma_enriched_keeps(item, runtime_status, latest, after.has_unread_turn, "status"@);
        lemma_enriched_keeps(item, runtime_status, latest, after.has_unread_turn, "turns"@);
        lemma_enriched_keeps(item, runtime_status, latest, after.has_unread_turn, "updatedAt"@);
        lemma_enriched_keeps(item, runtime_status, latest, after.has_unread_turn, "threadId"@);
        lemma_enriched_keeps(item, runtime_status, latest, after.has_unread_turn, "sessionId"@);
        lemma_enriched_keeps(item, runtime_status, latest, after.has_unread_turn, "id"@);
        assert(thread_id_spec(shown) == Some(id));
        assert(latest_turn_status_spec(shown, runtime_status) == latest);
        assert(observe(after, updated_at, runtime_type, latest, desktop_unread) == after);
        assert(m.insert(id, after) =~= m);
        lemma_enriched_fixed(item, runtime_status, latest, after.has_unread_turn);
    }
}

/// The thread a listing shows at a place is that place's item, enriched with
/// the read state that the items before it left.
proof fn lemma_enrich_all_index(
    threads: Map<Seq<char>, EntryView>,
    desktop: Seq<Seq<char>>,
    items: Seq<JsonView>,
    n: int,
)
    requires
        0 <= n < items.len(),
    ensures
        enrich_all(threads, desktop, items).1[n] == enrich_one(
            enrich_all(threads, desktop, items.take(n)).0,
            desktop,
            items[n],
        ).1,
    decreases items.len(),
{
    let prefix = items.drop_last();
    lemma_enrich_all_len(threads, desktop, prefix);
    if n < items.len() - 1 {
        lemma_enrich_all_index(threads, desktop, prefix, n);
        assert(prefix.take(n) =~= items.take(n));
    } else {
        assert(items.take(n) =~= prefix);
    }
}

/// The read state after a listing and after one more of its items.
proof fn lemma_enrich_all_step(
    threads: Map<Seq<char>, EntryView>,
    desktop: Seq<Seq<char>>,
    items: Seq<JsonView>,
    n: int,
)
    requires
        0 <= n < items.len(),
    ensures
        enrich_all(threads, desktop, items.take(n + 1)).0 == enrich_one(
            enrich_all(threads, desktop, items.take(n)).0,
            desktop,
            items[n],
        ).0,
{
    assert(items.take(n + 1).drop_last() =~= items.take(n));
}

/// Items of other threads leave a thread's read state as it was.
proof fn lemma_enrich_all_untouched(
    threads: Map<Seq<char>, EntryView>,
    desktop: Seq<Seq<char>>,
    items: Seq<JsonView>,
    k: int,
    id: Seq<char>,
)
    requires
        0 <= k <= items.len(),
        forall|j: int| k <= j < items.len() ==> touched(#[trigger] items[j]) != Some(id),
    ensures
        enrich_all(threads, desktop, items).0.contains_key(id) == enrich_all(
            threads,
            desktop,
            items.take(k),
        ).0.contains_key(id),
        enrich_all(threads, desktop, items.take(k)).0.contains_key(id) ==> enrich_all(
            threads,
            desktop,
            items,
        ).0[id] == enrich_all(threads, desktop, items.take(k)).0[id],
    decreases items.len(),
{
    if k == items.len() {
        assert(items.take(k) =~= items);
    } else {
        let prefix = items.drop_last();
        assert(touched(items[items.len() - 1]) != Some(id));
        lemma_enrich_all_untouched(threads, desktop, prefix, k, id);
        assert(prefix.take(k) =~= items.take(k));
    }
}

/// Listing again what a listing showed, with the read state it left,
/// shows the same threads up to a place and leaves that state as it is.
proof fn lemma_listing_again_prefix(
    threads: Map<Seq<char>, EntryView>,
    desktop: Seq<Seq<char>>,
    items: Seq<JsonView>,
    n: int,
)
    requires
        distinct_threads(items),
        0 <= n <= items.len(),
    ensures
        enrich_all(
            enrich_all(threads, desktop, items).0,
            desktop,
            enrich_all(threads, desktop, items).1.take(n),
        ) == (enrich_all(threads, desktop, items).0, enrich_all(
            threads,
            desktop,
            items,
        ).1.take(n)),
    decreases n,
{
    let m = enrich_all(threads, desktop, items).0;
    let shown = enrich_all(threads, desktop, items).1;
    lemma_enrich_all_len(threads, desktop, items);
    if n == 0 {
        assert(shown.take(0) =~= Seq::<JsonView>::empty());
    } else {
        let i = n - 1;
        lemma_listing_again_prefix(threads, desktop, items, i);
        assert(shown.take(n).drop_last() =~= shown.take(i));
        let p = enrich_all(threads, desktop, items.take(i)).0;
        lemma_enrich_all_index(threads, desktop, items, i);
        assert(shown[i] == enrich_one(p, desktop, items[i]).1);
        if touched(items[i]) is Some {
            let id = touched(items[i])->0;
            assert forall|j: int| i + 1 <= j < items.len() implies touched(
                #[trigger] items[j],
            ) != Some(id) by {
                assert(touched(items[i]) != touched(items[j]));
            }
            lemma_enrich_all_untouched(threads, desktop, items, i + 1, id);
            lemma_enrich_all_step(threads, desktop, items, i);
        }
        lemma_enrich_one_again(p, desktop, items[i], m);
        assert(shown.take(i).push(shown[i]) =~= shown.take(n));
    }
}

/// Listing again, with the read state a listing left, the threads it showed
/// changes nothing: neither the threads as shown nor the read state, when
/// no two listed items belong to the same thread.
pub proof fn law_listing_again_changes_nothing(
    threads: Map<Seq<char>, EntryView>,
    desktop: Seq<Seq<char>>,
    items: Seq<JsonView>,
)
    requires
        distinct_threads(items),
    ensures
        enrich_all(
            enrich_all(threads, desktop, items).0,
            desktop,
            enrich_all(threads, desktop, items).1,
        ) == enrich_all(threads, desktop, items),
{
    lemma_enrich_all_len(threads, desktop, items);
    lemma_listing_again_prefix(threads, desktop, items, items.len() as int);
    let shown = enrich_all(threads, desktop, items).1;
    assert(shown.take(items.len() as int) =~= shown);
}

/// A shown thread carries the latest turn status it was shown with.
proof fn lemma_enriched_latest(item: JsonView, rs: JsonView, latest: Option<Seq<char>>, h: bool)
    requires
        item.is_object(),
    ensures
        enriched_item(item, rs, latest, h).get("latestTurnStatus"@) == Some(opt_str_json(latest)),
        enriched_item(item, rs, latest, h).get("isInProgress"@) == Some(
            JsonView::Bool(status_type(rs) == "active"@ || latest == Some("inProgress"@)),
        ),
{
    lemma_enrich_keys_distinct();
    let runtime_type = status_type(rs);
    let active_flags = match rs.get("activeFlags"@) {
        Some(JsonView::Array(a)) => JsonView::Array(a),
        _ => JsonView::Array(Seq::empty()),
    };
    let avail = jstr(
        if runtime_type == "notLoaded"@ {
            "persistedOnly"@
        } else {
            "live"@
        },
    );
    let in_progress = JsonView::Bool(runtime_type == "active"@ || latest == Some("inProgress"@));
    let o1 = item.with("threadRuntimeStatus"@, rs);
    let o2 = o1.with("runtimeStatusAvailability"@, avail);
    let o3 = o2.with("runtimeStatusSource"@, jstr("codexAppServer"@));
    let o4 = o3.with("activeFlags"@, active_flags);
    let o5 = o4.with("isInProgress"@, in_progress);
    let o6 = o5.with("latestTurnStatus"@, opt_str_json(latest));
    assert(o5.is_object());
    lemma_with_get(o5, "latestTurnStatus"@, opt_str_json(latest), "latestTurnStatus"@);
    lemma_with_get(o6, "hasUnreadTurn"@, JsonView::Bool(h), "latestTurnStatus"@);
    assert(o4.is_object());
    lemma_with_get(o4, "isInProgress"@, in_progress, "isInProgress"@);
    lemma_with_get(o5, "latestTurnStatus"@, opt_str_json(latest), "isInProgress"@);
    lemma_with_get(o6, "hasUnreadTurn"@, JsonView::Bool(h), "isInProgress"@);
}

/// The latest turn status of a listed thread is that of its last listed
/// turn (of that turn's `turn` member when it has one), whatever the turns
/// before it, and the thread is shown with it.
pub proof fn law_latest_turn_is_the_last(
    threads: Map<Seq<char>, EntryView>,
    desktop: Seq<Seq<char>>,
    item: JsonView,
    id: Seq<char>,
    turns: Seq<JsonView>,
    status: Seq<char>,
)
    requires
        listed(item, id),
        item.get("turns"@) == Some(JsonView::Array(turns)),
        turns.len() > 0,
        (match turns[turns.len() - 1].get("turn"@) {
            Some(t) => t,
            None => turns[turns.len() - 1],
        }).get_str("status"@) == Some(status),
    ensures
        forall|rs: JsonView| #[trigger] latest_turn_status_spec(item, rs) == Some(status),
        enrich_one(threads, desktop, item).1.get("latestTurnStatus"@) == Some(jstr(status)),
        enrich_one(threads, desktop, item).1.get("isInProgress"@) == Some(
            JsonView::Bool(
                status == "inProgress"@ || status_type(
                    normalize_runtime_status_spec(item.get("status"@)),
                ) == "active"@,
            ),
        ),
{
    let runtime_status = normalize_runtime_status_spec(item.get("status"@));
    let updated_at = item.get("updatedAt"@);
    let desktop_unread = desktop.contains(id);
    let runtime_type = status_type(runtime_status);
    let latest = latest_turn_status_spec(item, runtime_status);
    let before = if threads.contains_key(id) {
        threads[id]
    } else {
        first_seen(updated_at, runtime_type, latest, desktop_unread)
    };
    let after = observe(before, updated_at, runtime_type, latest, desktop_unread);
    lemma_enriched_latest(item, runtime_status, latest, after.has_unread_turn);
}

/// A thread read by the employee stays read while a listing shows nothing
/// new of it: the same revision (or none), and the desktop's flag as before.
pub proof fn law_read_state_sticks(
    threads: Map<Seq<char>, EntryView>,
    desktop: Seq<Seq<char>>,
    item: JsonView,
    id: Seq<char>,
)
    requires
        listed(item, id),
        threads.contains_key(id),
        !threads[id].has_unread_turn,
        threads[id].observed_desktop_unread == desktop.contains(id),
        item.get("updatedAt"@) is None || item.get("updatedAt"@) == threads[id].observed_updated_at,
    ensures
        !enrich_one(threads, desktop, item).0[id].has_unread_turn,
        enrich_one(threads, desktop, item).1.get("hasUnreadTurn"@) == Some(JsonView::Bool(false)),
{
    if item.get("updatedAt"@) is Some {
        lemma_json_equal_refl(item.get("updatedAt"@)->0);
    }
    lemma_shown_unread(threads, desktop, item, id);
}

/// A thread whose activity finished in a new revision becomes unread.
pub proof fn law_finished_activity_is_unread(
    threads: Map<Seq<char>, EntryView>,
    desktop: Seq<Seq<char>>,
    item: JsonView,
    id: Seq<char>,
)
    requires
        listed(item, id),
        threads.contains_key(id),
        threads[id].observed_updated_at is Some,
        item.get("updatedAt"@) is Some,
        !opt_json_equal(threads[id].observed_updated_at, item.get("updatedAt"@)),
        threads[id].observed_runtime_status_type == Some("active"@),
        status_type(normalize_runtime_status_spec(item.get("status"@))) != "active"@,
    ensures
        enrich_one(threads, desktop, item).0[id].has_unread_turn,
{
}

/// The thread as shown carries the read state kept for it.
proof fn lemma_shown_unread(
    threads: Map<Seq<char>, EntryView>,
    desktop: Seq<Seq<char>>,
    item: JsonView,
    id: Seq<char>,
)
    requires
        listed(item, id),
    ensures
        enrich_one(threads, desktop, item).1.get("hasUnreadTurn"@) == Some(
            JsonView::Bool(enrich_one(threads, desktop, item).0[id].has_unread_turn),
        ),
{
    let updated_at = item.get("updatedAt"@);
    let desktop_unread = desktop.contains(id);
    let runtime_status = normalize_runtime_status_spec(item.get("status"@));
    let runtime_type = status_type(runtime_status);
    let latest = latest_turn_status_spec(item, runtime_status);
    let before = if threads.contains_key(id) {
        threads[id]
    } else {
        first_seen(updated_at, runtime_type, latest, desktop_unread)
    };
    let after = observe(before, updated_at, runtime_type, latest, desktop_unread);
    let active_flags = match runtime_status.get("activeFlags"@) {
        Some(JsonView::Array(a)) => JsonView::Array(a),
        _ => JsonView::Array(Seq::empty()),
    };
    let o1 = item.with("threadRuntimeStatus"@, runtime_status);
    let o2 = o1.with(
        "runtimeStatusAvailability"@,
        jstr(
            if runtime_type == "notLoaded"@ {
                "persistedOnly"@
            } else {
                "live"@
            },
        ),
    );
    let o3 = o2.with("runtimeStatusSource"@, jstr("codexAppServer"@));
    let o4 = o3.with("activeFlags"@, active_flags);
    let o5 = o4.with(
        "isInProgress"@,
        JsonView::Bool(runtime_type == "active"@ || latest == Some("inProgress"@)),
    );
    let o6 = o5.with("latestTurnStatus"@, opt_str_json(latest));
    assert(o6.is_object());
    lemma_with_get(o6, "hasUnreadTurn"@, JsonView::Bool(after.has_unread_turn), "hasUnreadTurn"@);
}

} // verus!
