//! A JSON document model with a mathematical view.
//!
//! Objects keep their members in order; looking a key up finds its first
//! occurrence, and inserting a key replaces that occurrence or appends.
use vstd::prelude::*;

use crate::text::str_eq;

verus! {

/// A JSON number: a non-negative integer, a negative integer, or any other
/// number, held as the bit pattern of its IEEE-754 double value.
#[derive(Clone, Copy, Debug, PartialEq, Eq, Structural)]
pub enum JsonNumber {
    PosInt(u64),
    NegInt(i64),
    Float(u64),
}

/// A JSON value.
#[derive(Debug, PartialEq)]
pub enum Json {
    Null,
    Bool(bool),
    Number(JsonNumber),
    Str(String),
    Array(Vec<Json>),
    Object(Vec<(String, Json)>),
}

/// The mathematical value of a `Json`.
pub enum JsonView {
    Null,
    Bool(bool),
    Number(JsonNumber),
    Str(Seq<char>),
    Array(Seq<JsonView>),
    Object(Seq<(Seq<char>, JsonView)>),
}

pub open spec fn json_view(j: Json) -> JsonView
    decreases j,
{
    match j {
        Json::Null => JsonView::Null,
        Json::Bool(b) => JsonView::Bool(b),
        Json::Number(n) => JsonView::Number(n),
        Json::Str(s) => JsonView::Str(s@),
        Json::Array(items) => JsonView::Array(items_view(items@)),
        Json::Object(entries) => JsonView::Object(entries_view(entries@)),
    }
}

pub open spec fn items_view(s: Seq<Json>) -> Seq<JsonView>
    decreases s,
{
    if s.len() == 0 {
        Seq::empty()
    } else {
        items_view(s.drop_last()).push(json_view(s.last()))
    }
}

pub open spec fn entries_view(s: Seq<(String, Json)>) -> Seq<(Seq<char>, JsonView)>
    decreases s,
{
    if s.len() == 0 {
        Seq::empty()
    } else {
        entries_view(s.drop_last()).push((s.last().0@, json_view(s.last().1)))
    }
}

impl View for Json {
    type V = JsonView;

    open spec fn view(&self) -> JsonView {
        json_view(*self)
    }
}

pub broadcast proof fn lemma_items_view(s: Seq<Json>)
    ensures
        (#[trigger] items_view(s)).len() == s.len(),
        forall|i: int| 0 <= i < s.len() ==> #[trigger] items_view(s)[i] == json_view(s[i]),
    decreases s.len(),
{
    if s.len() > 0 {
        lemma_items_view(s.drop_last());
    }
}

pub broadcast proof fn lemma_entries_view(s: Seq<(String, Json)>)
    ensures
        (#[trigger] entries_view(s)).len() == s.len(),
        forall|i: int|
            0 <= i < s.len() ==> #[trigger] entries_view(s)[i] == (s[i].0@, json_view(s[i].1)),
    decreases s.len(),
{
    if s.len() > 0 {
        lemma_entries_view(s.drop_last());
    }
}

/// The value of the first member named `key`, if any.
pub open spec fn lookup(es: Seq<(Seq<char>, JsonView)>, key: Seq<char>) -> Option<JsonView>
    decreases es.len(),
{
    if es.len() == 0 {
        None
    } else if es[0].0 == key {
        Some(es[0].1)
    } else {
        lookup(es.drop_first(), key)
    }
}

/// The index of the first member named `key`, or the length when there is none.
pub open spec fn key_index(es: Seq<(Seq<char>, JsonView)>, key: Seq<char>) -> int
    decreases es.len(),
{
    if es.len() == 0 {
        0
    } else if es[0].0 == key {
        0
    } else {
        1 + key_index(es.drop_first(), key)
    }
}

pub proof fn lemma_key_index(es: Seq<(Seq<char>, JsonView)>, key: Seq<char>)
    ensures
        0 <= key_index(es, key) <= es.len(),
        key_index(es, key) < es.len() ==> es[key_index(es, key)].0 == key
            && lookup(es, key) == Some(es[key_index(es, key)].1),
        key_index(es, key) == es.len() ==> lookup(es, key) is None,
        forall|j: int| 0 <= j < key_index(es, key) ==> es[j].0 != key,
    decreases es.len(),
{
    if es.len() > 0 && es[0].0 != key {
        lemma_key_index(es.drop_first(), key);
        assert forall|j: int| 0 <= j < key_index(es, key) implies es[j].0 != key by {
            if j > 0 {
                assert(es[j] == es.drop_first()[j - 1]);
            }
        }
    }
}

/// Looking a key up in a member sequence from position `i` on.
pub proof fn lemma_lookup_step(es: Seq<(Seq<char>, JsonView)>, key: Seq<char>, i: int)
    requires
        0 <= i < es.len(),
    ensures
        lookup(es.subrange(i, es.len() as int), key) == if es[i].0 == key {
            Some(es[i].1)
        } else {
            lookup(es.subrange(i + 1, es.len() as int), key)
        },
{
    assert(es.subrange(i, es.len() as int).drop_first() =~= es.subrange(i + 1, es.len() as int));
}

/// Looking a key up after the member at `i` has been given a new value
/// (under the same name) or after a member has been appended.
pub proof fn lemma_lookup_update(
    es: Seq<(Seq<char>, JsonView)>,
    key: Seq<char>,
    i: int,
    v: JsonView,
    other: Seq<char>,
)
    requires
        0 <= i < es.len(),
        es[i].0 == key,
        forall|j: int| 0 <= j < i ==> es[j].0 != key,
    ensures
        lookup(es.update(i, (key, v)), other) == if other == key {
            Some(v)
        } else {
            lookup(es, other)
        },
    decreases es.len(),
{
    let u = es.update(i, (key, v));
    if i > 0 {
        assert(u[0] == es[0]);
        assert(es[0].0 != key);
        if es[0].0 != other {
            lemma_lookup_update(es.drop_first(), key, i - 1, v, other);
            assert(u.drop_first() =~= es.drop_first().update(i - 1, (key, v)));
        }
    } else {
        assert(u[0] == (key, v));
        assert(u.drop_first() =~= es.drop_first());
    }
}

pub proof fn lemma_lookup_push(
    es: Seq<(Seq<char>, JsonView)>,
    key: Seq<char>,
    v: JsonView,
    other: Seq<char>,
)
    requires
        lookup(es, key) is None,
    ensures
        lookup(es.push((key, v)), other) == if other == key {
            Some(v)
        } else {
            lookup(es, other)
        },
    decreases es.len(),
{
    let p = es.push((key, v));
    if es.len() > 0 {
        assert(p[0] == es[0]);
        assert(es[0].0 != key);
        if es[0].0 != other {
            lemma_lookup_push(es.drop_first(), key, v, other);
            assert(p.drop_first() =~= es.drop_first().push((key, v)));
        } else {
            assert(lookup(es, other) == Some(es[0].1));
            assert(lookup(p, other) == Some(p[0].1));
        }
    } else {
        assert(p[0] == (key, v));
        assert(p.drop_first() =~= Seq::<(Seq<char>, JsonView)>::empty());
        assert(lookup(p.drop_first(), other) is None);
    }
}

impl JsonView {
    /// The member `key` of an object.
    pub open spec fn get(self, key: Seq<char>) -> Option<JsonView> {
        match self {
            JsonView::Object(es) => lookup(es, key),
            _ => None,
        }
    }

    pub open spec fn as_str(self) -> Option<Seq<char>> {
        match self {
            JsonView::Str(s) => Some(s),
            _ => None,
        }
    }

    pub open spec fn as_bool(self) -> Option<bool> {
        match self {
            JsonView::Bool(b) => Some(b),
            _ => None,
        }
    }

    /// A number that is a non-negative integer.
    pub open spec fn as_u64(self) -> Option<u64> {
        match self {
            JsonView::Number(JsonNumber::PosInt(n)) => Some(n),
            _ => None,
        }
    }

    pub open spec fn as_array(self) -> Option<Seq<JsonView>> {
        match self {
            JsonView::Array(items) => Some(items),
            _ => None,
        }
    }

    pub open spec fn is_object(self) -> bool {
        self is Object
    }

    /// The member `key` when it is a string.
    pub open spec fn get_str(self, key: Seq<char>) -> Option<Seq<char>> {
        match self.get(key) {
            Some(v) => v.as_str(),
            None => None,
        }
    }

    /// An object with the member `key` set to `v`: the first member of that
    /// name takes the value, or the member is appended.
    pub open spec fn with(self, key: Seq<char>, v: JsonView) -> JsonView {
        match self {
            JsonView::Object(es) => {
                let i = key_index(es, key);
                if i < es.len() {
                    JsonView::Object(es.update(i, (key, v)))
                } else {
                    JsonView::Object(es.push((key, v)))
                }
            },
            _ => self,
        }
    }
}

/// An object of the given members.
pub open spec fn jobject(es: Seq<(Seq<char>, JsonView)>) -> JsonView {
    JsonView::Object(es)
}

pub open spec fn jstr(s: Seq<char>) -> JsonView {
    JsonView::Str(s)
}

pub open spec fn ju64(n: u64) -> JsonView {
    JsonView::Number(JsonNumber::PosInt(n))
}

/// The JSON value of a signed integer: non-negative values are `PosInt`.
pub open spec fn ji64(n: i64) -> JsonView {
    if n >= 0 {
        JsonView::Number(JsonNumber::PosInt(n as u64))
    } else {
        JsonView::Number(JsonNumber::NegInt(n))
    }
}

pub open spec fn opt_str_json(s: Option<Seq<char>>) -> JsonView {
    match s {
        Some(s) => JsonView::Str(s),
        None => JsonView::Null,
    }
}

pub open spec fn opt_json(v: Option<JsonView>) -> JsonView {
    match v {
        Some(v) => v,
        None => JsonView::Null,
    }
}

impl Json {
    pub fn str_of(s: &str) -> (r: Json)
        ensures
            r@ == JsonView::Str(s@),
    {
        Json::Str(String::from_str(s))
    }

    pub fn u64_of(n: u64) -> (r: Json)
        ensures
            r@ == ju64(n),
    {
        Json::Number(JsonNumber::PosInt(n))
    }

    pub fn i64_of(n: i64) -> (r: Json)
        ensures
            r@ == ji64(n),
    {
        if n >= 0 {
            Json::Number(JsonNumber::PosInt(n as u64))
        } else {
            Json::Number(JsonNumber::NegInt(n))
        }
    }

    pub fn empty_object() -> (r: Json)
        ensures
            r@ == JsonView::Object(Seq::empty()),
    {
        Json::Object(Vec::new())
    }

    pub fn empty_array() -> (r: Json)
        ensures
            r@ == JsonView::Array(Seq::empty()),
    {
        Json::Array(Vec::new())
    }

    /// A deep copy.
    pub fn copy(&self) -> (r: Json)
        ensures
            r@ == self@,
        decreases self,
    {
        match self {
            Json::Null => Json::Null,
            Json::Bool(b) => Json::Bool(*b),
            Json::Number(n) => Json::Number(*n),
            Json::Str(s) => Json::Str(s.clone()),
            Json::Array(items) => {
                let mut out: Vec<Json> = Vec::new();
                let mut i: usize = 0;
                while i < items.len()
                    invariant
                        *self is Array,
                        self->Array_0 == *items,
                        i <= items.len(),
                        out@.len() == i,
                        forall|j: int| 0 <= j < i ==> json_view(#[trigger] out@[j]) == json_view(items@[j]),
                    decreases items.len() - i,
                {
                    proof {
                        assert(decreases_to!(*self => self->Array_0));
                        assert(decreases_to!(self->Array_0 => self->Array_0@));
                        assert(decreases_to!(self->Array_0@ => self->Array_0@[i as int]));
                    }
                    let c = items[i].copy();
                    out.push(c);
                    i = i + 1;
                }
                proof {
                    lemma_items_view(out@);
                    lemma_items_view(items@);
                    assert forall|j: int| 0 <= j < out@.len() implies items_view(out@)[j] == items_view(items@)[j] by {
                        assert(json_view(out@[j]) == json_view(items@[j]));
                    }
                }
                assert(items_view(out@) =~= items_view(items@));
                Json::Array(out)
            },
            Json::Object(entries) => {
                let mut out: Vec<(String, Json)> = Vec::new();
                let mut i: usize = 0;
                while i < entries.len()
                    invariant
                        *self is Object,
                        self->Object_0 == *entries,
                        i <= entries.len(),
                        out@.len() == i,
                        forall|j: int|
                            0 <= j < i ==> (#[trigger] out@[j]).0@ == entries@[j].0@ && json_view(out@[j].1)
                                == json_view(entries@[j].1),
                    decreases entries.len() - i,
                {
                    proof {
                        assert(decreases_to!(*self => self->Object_0));
                        assert(decreases_to!(self->Object_0 => self->Object_0@));
                        assert(decreases_to!(self->Object_0@ => self->Object_0@[i as int]));
                        assert(decreases_to!(self->Object_0@[i as int] => self->Object_0@[i as int].1));
                    }
                    let k = entries[i].0.clone();
                    let c = entries[i].1.copy();
                    out.push((k, c));
                    i = i + 1;
                }
                proof {
                    lemma_entries_view(out@);
                    lemma_entries_view(entries@);
                    assert forall|j: int| 0 <= j < out@.len() implies entries_view(out@)[j] == entries_view(entries@)[j] by {
                        assert(out@[j].0@ == entries@[j].0@);
                    }
                }
                assert(entries_view(out@) =~= entries_view(entries@));
                Json::Object(out)
            },
        }
    }

    /// Structural equality of two values.
    pub fn same(&self, other: &Json) -> (r: bool)
        ensures
            r == (self@ == other@),
        decreases self,
    {
        match self {
            Json::Null => match other {
                Json::Null => true,
                _ => false,
            },
            Json::Bool(a) => match other {
                Json::Bool(b) => *a == *b,
                _ => false,
            },
            Json::Number(a) => match other {
                Json::Number(b) => *a == *b,
                _ => false,
            },
            Json::Str(a) => match other {
                Json::Str(b) => str_eq(a.as_str(), b.as_str()),
                _ => false,
            },
            Json::Array(a) => match other {
                Json::Array(b) => {
                proof {
                    lemma_items_view(a@);
                    lemma_items_view(b@);
                }
                if a.len() != b.len() {
                    return false;
                }
                let mut i: usize = 0;
                while i < a.len()
                    invariant
                        *self is Array,
                        self->Array_0 == *a,
                        *other is Array,
                        other->Array_0 == *b,
                        i <= a.len(),
                        a.len() == b.len(),
                        items_view(a@).len() == a@.len(),
                        items_view(b@).len() == b@.len(),
                        forall|j: int| 0 <= j < a@.len() ==> #[trigger] items_view(a@)[j] == json_view(a@[j]),
                        forall|j: int| 0 <= j < b@.len() ==> #[trigger] items_view(b@)[j] == json_view(b@[j]),
                        forall|j: int| 0 <= j < i ==> #[trigger] items_view(a@)[j] == items_view(b@)[j],
                    decreases a.len() - i,
                {
                    proof {
                        assert(decreases_to!(*self => self->Array_0));
                        assert(decreases_to!(self->Array_0 => self->Array_0@));
                        assert(decreases_to!(self->Array_0@ => self->Array_0@[i as int]));
                    }
                    if !a[i].same(&b[i]) {
                        assert(items_view(a@)[i as int] != items_view(b@)[i as int]);
                        return false;
                    }
                    assert(items_view(a@)[i as int] == items_view(b@)[i as int]);
                    i = i + 1;
                }
                assert(items_view(a@) =~= items_view(b@));
                true
            },
                _ => false,
            },
            Json::Object(a) => match other {
                Json::Object(b) => {
                proof {
                    lemma_entries_view(a@);
                    lemma_entries_view(b@);
                }
                if a.len() != b.len() {
                    return false;
                }
                let mut i: usize = 0;
                while i < a.len()
                    invariant
                        *self is Object,
                        self->Object_0 == *a,
                        *other is Object,
                        other->Object_0 == *b,
                        i <= a.len(),
                        a.len() == b.len(),
                        entries_view(a@).len() == a@.len(),
                        entries_view(b@).len() == b@.len(),
                        forall|j: int|
                            0 <= j < a@.len() ==> #[trigger] entries_view(a@)[j] == (
                                a@[j].0@,
                                json_view(a@[j].1),
                            ),
                        forall|j: int|
                            0 <= j < b@.len() ==> #[trigger] entries_view(b@)[j] == (
                                b@[j].0@,
                                json_view(b@[j].1),
                            ),
                        forall|j: int| 0 <= j < i ==> #[trigger] entries_view(a@)[j] == entries_view(b@)[j],
                    decreases a.len() - i,
                {
                    proof {
                        assert(decreases_to!(*self => self->Object_0));
                        assert(decreases_to!(self->Object_0 => self->Object_0@));
                        assert(decreases_to!(self->Object_0@ => self->Object_0@[i as int]));
                        assert(decreases_to!(self->Object_0@[i as int] => self->Object_0@[i as int].1));
                    }
                    if a[i].0 != b[i].0 {
                        assert(entries_view(a@)[i as int] != entries_view(b@)[i as int]);
                        return false;
                    }
                    if !a[i].1.same(&b[i].1) {
                        assert(entries_view(a@)[i as int] != entries_view(b@)[i as int]);
                        return false;
                    }
                    assert(entries_view(a@)[i as int] == entries_view(b@)[i as int]);
                    i = i + 1;
                }
                assert(entries_view(a@) =~= entries_view(b@));
                true
            },
                _ => false,
            },
        }
    }


    /// Equality of two values as JSON values (see `json_equal`).
    pub fn equals(&self, other: &Json) -> (r: bool)
        ensures
            r == json_equal(self@, other@),
        decreases self,
    {
        match self {
            Json::Null => match other {
                Json::Null => true,
                _ => false,
            },
            Json::Bool(a) => match other {
                Json::Bool(b) => *a == *b,
                _ => false,
            },
            Json::Number(a) => match other {
                Json::Number(b) => number_equals(*a, *b),
                _ => false,
            },
            Json::Str(a) => match other {
                Json::Str(b) => str_eq(a.as_str(), b.as_str()),
                _ => false,
            },
            Json::Array(a) => match other {
                Json::Array(b) => {
                    proof {
                        lemma_items_view(a@);
                        lemma_items_view(b@);
                        lemma_items_equal(items_view(a@), items_view(b@));
                    }
                    if a.len() != b.len() {
                        return false;
                    }
                    let mut i: usize = 0;
                    while i < a.len()
                        invariant
                            *self is Array,
                            self->Array_0 == *a,
                            *other is Array,
                            other->Array_0 == *b,
                            i <= a.len(),
                            a.len() == b.len(),
                            items_view(a@).len() == a@.len(),
                            items_view(b@).len() == b@.len(),
                            forall|j: int| 0 <= j < a@.len() ==> #[trigger] items_view(a@)[j] == json_view(a@[j]),
                            forall|j: int| 0 <= j < b@.len() ==> #[trigger] items_view(b@)[j] == json_view(b@[j]),
                            forall|j: int|
                                0 <= j < i ==> #[trigger] json_equal(items_view(a@)[j], items_view(b@)[j]),
                        decreases a.len() - i,
                    {
                        proof {
                            assert(decreases_to!(*self => self->Array_0));
                            assert(decreases_to!(self->Array_0 => self->Array_0@));
                            assert(decreases_to!(self->Array_0@ => self->Array_0@[i as int]));
                        }
                        if !a[i].equals(&b[i]) {
                            proof {
                                lemma_items_equal(items_view(a@), items_view(b@));
                                assert(!json_equal(items_view(a@)[i as int], items_view(b@)[i as int]));
                            }
                            return false;
                        }
                        i = i + 1;
                    }
                    proof {
                        lemma_items_equal(items_view(a@), items_view(b@));
                    }
                    true
                },
                _ => false,
            },
            Json::Object(a) => match other {
                Json::Object(b) => {
                    proof {
                        lemma_entries_view(a@);
                        lemma_entries_view(b@);
                        lemma_members_equal(entries_view(a@), entries_view(b@));
                    }
                    if a.len() != b.len() {
                        return false;
                    }
                    let mut i: usize = 0;
                    while i < a.len()
                        invariant
                            *self is Object,
                            self->Object_0 == *a,
                            *other is Object,
                            other->Object_0 == *b,
                            i <= a.len(),
                            a.len() == b.len(),
                            entries_view(a@).len() == a@.len(),
                            entries_view(b@).len() == b@.len(),
                            forall|j: int|
                                0 <= j < a@.len() ==> #[trigger] entries_view(a@)[j] == (
                                    a@[j].0@,
                                    json_view(a@[j].1),
                                ),
                            forall|j: int|
                                0 <= j < b@.len() ==> #[trigger] entries_view(b@)[j] == (
                                    b@[j].0@,
                                    json_view(b@[j].1),
                                ),
                            forall|j: int|
                                0 <= j < i ==> #[trigger] member_equal(entries_view(a@)[j], entries_view(b@)[j]),
                        decreases a.len() - i,
                    {
                        proof {
                            assert(decreases_to!(*self => self->Object_0));
                            assert(decreases_to!(self->Object_0 => self->Object_0@));
                            assert(decreases_to!(self->Object_0@ => self->Object_0@[i as int]));
                            assert(decreases_to!(self->Object_0@[i as int] => self->Object_0@[i as int].1));
                        }
                        if !str_eq(a[i].0.as_str(), b[i].0.as_str()) || !a[i].1.equals(&b[i].1) {
                            proof {
                                lemma_members_equal(entries_view(a@), entries_view(b@));
                                assert(!member_equal(entries_view(a@)[i as int], entries_view(b@)[i as int]));
                            }
                            return false;
                        }
                        assert(member_equal(entries_view(a@)[i as int], entries_view(b@)[i as int]));
                        i = i + 1;
                    }
                    proof {
                        lemma_members_equal(entries_view(a@), entries_view(b@));
                    }
                    true
                },
                _ => false,
            },
        }
    }

    /// The member `key` of an object.
    pub fn get(&self, key: &str) -> (r: Option<&Json>)
        ensures
            r is Some <==> self@.get(key@) is Some,
            r is Some ==> self@.get(key@) == Some(r->0@),
    {
        match self {
            Json::Object(entries) => {
                let ghost es = entries_view(entries@);
                proof {
                    lemma_entries_view(entries@);
                    assert(es.subrange(0, es.len() as int) =~= es);
                }
                let mut i: usize = 0;
                while i < entries.len()
                    invariant
                        *self is Object,
                        self->Object_0 == *entries,
                        i <= entries.len(),
                        es == entries_view(entries@),
                        es.len() == entries@.len(),
                        forall|j: int| 0 <= j < entries@.len() ==> #[trigger] es[j] == (entries@[j].0@, json_view(entries@[j].1)),
                        lookup(es, key@) == lookup(es.subrange(i as int, es.len() as int), key@),
                    decreases entries.len() - i,
                {
                    proof {
                        lemma_lookup_step(es, key@, i as int);
                    }
                    if str_eq(entries[i].0.as_str(), key) {
                        return Some(&entries[i].1);
                    }
                    i = i + 1;
                }
                assert(es.subrange(i as int, es.len() as int).len() == 0);
                None
            },
            _ => None,
        }
    }

    /// The member `key` when it is a string.
    pub fn get_str(&self, key: &str) -> (r: Option<&String>)
        ensures
            r is Some <==> self@.get_str(key@) is Some,
            r is Some ==> self@.get_str(key@) == Some(r->0@),
    {
        match self.get(key) {
            Some(Json::Str(s)) => Some(s),
            _ => None,
        }
    }

    pub fn as_str(&self) -> (r: Option<&String>)
        ensures
            r is Some <==> self@.as_str() is Some,
            r is Some ==> self@.as_str() == Some(r->0@),
    {
        match self {
            Json::Str(s) => Some(s),
            _ => None,
        }
    }

    pub fn as_bool(&self) -> (r: Option<bool>)
        ensures
            r == self@.as_bool(),
    {
        match self {
            Json::Bool(b) => Some(*b),
            _ => None,
        }
    }

    pub fn as_u64(&self) -> (r: Option<u64>)
        ensures
            r == self@.as_u64(),
    {
        match self {
            Json::Number(JsonNumber::PosInt(n)) => Some(*n),
            _ => None,
        }
    }

    pub fn as_array(&self) -> (r: Option<&Vec<Json>>)
        ensures
            r is Some <==> self@ is Array,
            r is Some ==> self@ == JsonView::Array(items_view(r->0@)),
    {
        match self {
            Json::Array(items) => Some(items),
            _ => None,
        }
    }

    pub fn is_object(&self) -> (r: bool)
        ensures
            r == self@.is_object(),
    {
        match self {
            Json::Object(_) => true,
            _ => false,
        }
    }

    /// Sets the member `key` of an object; other values are left as they are.
    pub fn insert(&mut self, key: &str, value: Json)
        ensures
            final(self)@ == old(self)@.with(key@, value@),
    {
        if let Json::Object(entries) = self {
            let ghost es = entries_view(entries@);
            let ghost old_entries = entries@;
            let idx = find_key(entries, key);
            proof {
                lemma_entries_view(entries@);
                lemma_key_index(es, key@);
            }
            if idx < entries.len() {
                entries.set(idx, (String::from_str(key), value));
                proof {
                    lemma_entries_view(entries@);
                    assert forall|j: int| 0 <= j < entries@.len() implies #[trigger] entries_view(
                        entries@,
                    )[j] == es.update(idx as int, (key@, value@))[j] by {
                        if j != idx {
                            assert(entries@[j] == old_entries[j]);
                        }
                    }
                }
                assert(entries_view(entries@) =~= es.update(idx as int, (key@, value@)));
            } else {
                entries.push((String::from_str(key), value));
                proof {
                    lemma_entries_view(entries@);
                    assert forall|j: int| 0 <= j < entries@.len() implies #[trigger] entries_view(
                        entries@,
                    )[j] == es.push((key@, value@))[j] by {
                        if j < old_entries.len() {
                            assert(entries@[j] == old_entries[j]);
                        }
                    }
                }
                assert(entries_view(entries@) =~= es.push((key@, value@)));
            }
        }
    }
}

/// The position of the first member named `key`, or the number of members.
fn find_key(entries: &Vec<(String, Json)>, key: &str) -> (r: usize)
    ensures
        r as int == key_index(entries_view(entries@), key@),
{
    let ghost es = entries_view(entries@);
    proof {
        lemma_entries_view(entries@);
        lemma_key_index(es, key@);
    }
    let mut i: usize = 0;
    while i < entries.len()
        invariant
            i <= entries.len(),
            es == entries_view(entries@),
            es.len() == entries@.len(),
            forall|j: int| 0 <= j < entries@.len() ==> #[trigger] es[j] == (entries@[j].0@, json_view(entries@[j].1)),
            forall|j: int| 0 <= j < i ==> #[trigger] es[j].0 != key@,
            0 <= key_index(es, key@) <= es.len(),
            key_index(es, key@) < es.len() ==> es[key_index(es, key@)].0 == key@,
            forall|j: int| 0 <= j < key_index(es, key@) ==> es[j].0 != key@,
        decreases entries.len() - i,
    {
        if str_eq(entries[i].0.as_str(), key) {
            proof {
                if key_index(es, key@) < i {
                    assert(es[key_index(es, key@)].0 != key@);
                }
                if key_index(es, key@) > i {
                    assert(es[i as int].0 == key@);
                }
            }
            return i;
        }
        i = i + 1;
    }
    proof {
        if key_index(es, key@) < es.len() {
            assert(es[key_index(es, key@)].0 != key@);
        }
    }
    i
}

/// Setting a member makes it readable under its name and leaves every other
/// member as it was.
pub proof fn lemma_with_get(o: JsonView, key: Seq<char>, v: JsonView, other: Seq<char>)
    requires
        o.is_object(),
    ensures
        o.with(key, v).get(other) == if other == key {
            Some(v)
        } else {
            o.get(other)
        },
{
    if let JsonView::Object(es) = o {
        lemma_key_index(es, key);
        let i = key_index(es, key);
        if i < es.len() {
            lemma_lookup_update(es, key, i, v, other);
        } else {
            lemma_lookup_push(es, key, v, other);
        }
    }
}

/// Setting a member to the value it already has changes nothing.
pub proof fn lemma_with_same(o: JsonView, key: Seq<char>, v: JsonView)
    requires
        o.is_object(),
        o.get(key) == Some(v),
    ensures
        o.with(key, v) == o,
{
    if let JsonView::Object(es) = o {
        lemma_key_index(es, key);
        let i = key_index(es, key);
        assert(es[i] == (key, v));
        assert(es.update(i, (key, v)) =~= es);
    }
}


/// Whether two numbers are equal as JSON numbers: integers by value, and
/// other numbers as doubles, so that `0.0` and `-0.0` are equal.
pub open spec fn number_equal(a: JsonNumber, b: JsonNumber) -> bool {
    match a {
        JsonNumber::Float(x) => match b {
            JsonNumber::Float(y) => x == y || (x % 0x8000_0000_0000_0000u64 == 0 && y
                % 0x8000_0000_0000_0000u64 == 0),
            _ => false,
        },
        _ => a == b,
    }
}

/// Whether two values are equal as JSON values: numbers compared as
/// numbers, arrays element by element, objects member by member.
pub open spec fn json_equal(a: JsonView, b: JsonView) -> bool
    decreases a,
{
    match a {
        JsonView::Number(x) => match b {
            JsonView::Number(y) => number_equal(x, y),
            _ => false,
        },
        JsonView::Array(xs) => match b {
            JsonView::Array(ys) => items_equal(xs, ys),
            _ => false,
        },
        JsonView::Object(xs) => match b {
            JsonView::Object(ys) => members_equal(xs, ys),
            _ => false,
        },
        _ => a == b,
    }
}

/// Arrays equal element by element.
pub open spec fn items_equal(xs: Seq<JsonView>, ys: Seq<JsonView>) -> bool
    decreases xs,
{
    if xs.len() == 0 {
        ys.len() == 0
    } else {
        ys.len() > 0 && items_equal(xs.drop_last(), ys.drop_last()) && json_equal(
            xs.last(),
            ys.last(),
        )
    }
}

/// Objects equal member by member: the same names in the same order, with
/// equal values.
pub open spec fn members_equal(xs: Seq<(Seq<char>, JsonView)>, ys: Seq<(Seq<char>, JsonView)>) -> bool
    decreases xs,
{
    if xs.len() == 0 {
        ys.len() == 0
    } else {
        ys.len() > 0 && members_equal(xs.drop_last(), ys.drop_last()) && member_equal(
            xs.last(),
            ys.last(),
        )
    }
}

/// Two members with the same name and equal values.
pub open spec fn member_equal(x: (Seq<char>, JsonView), y: (Seq<char>, JsonView)) -> bool
    decreases x,
{
    x.0 == y.0 && json_equal(x.1, y.1)
}

/// Arrays are equal exactly when they have the same length and equal
/// elements at each place.
pub proof fn lemma_items_equal(xs: Seq<JsonView>, ys: Seq<JsonView>)
    ensures
        items_equal(xs, ys) <==> (xs.len() == ys.len() && forall|i: int|
            0 <= i < xs.len() ==> #[trigger] json_equal(xs[i], ys[i])),
    decreases xs.len(),
{
    if xs.len() > 0 && ys.len() > 0 {
        lemma_items_equal(xs.drop_last(), ys.drop_last());
        if xs.len() == ys.len() && (forall|i: int| 0 <= i < xs.len() ==> #[trigger] json_equal(xs[i], ys[i])) {
            assert forall|i: int| 0 <= i < xs.drop_last().len() implies #[trigger] json_equal(
                xs.drop_last()[i],
                ys.drop_last()[i],
            ) by {
                assert(json_equal(xs[i], ys[i]));
            }
            assert(json_equal(xs[xs.len() - 1], ys[ys.len() - 1]));
        }
        if items_equal(xs, ys) {
            assert forall|i: int| 0 <= i < xs.len() implies #[trigger] json_equal(xs[i], ys[i]) by {
                if i < xs.len() - 1 {
                    assert(json_equal(xs.drop_last()[i], ys.drop_last()[i]));
                }
            }
        }
    }
}

/// Objects are equal exactly when they have the same length and equal
/// members at each place.
pub proof fn lemma_members_equal(xs: Seq<(Seq<char>, JsonView)>, ys: Seq<(Seq<char>, JsonView)>)
    ensures
        members_equal(xs, ys) <==> (xs.len() == ys.len() && forall|i: int|
            0 <= i < xs.len() ==> #[trigger] member_equal(xs[i], ys[i])),
    decreases xs.len(),
{
    if xs.len() > 0 && ys.len() > 0 {
        lemma_members_equal(xs.drop_last(), ys.drop_last());
        if xs.len() == ys.len() && (forall|i: int| 0 <= i < xs.len() ==> #[trigger] member_equal(xs[i], ys[i])) {
            assert forall|i: int| 0 <= i < xs.drop_last().len() implies #[trigger] member_equal(
                xs.drop_last()[i],
                ys.drop_last()[i],
            ) by {
                assert(member_equal(xs[i], ys[i]));
            }
            assert(member_equal(xs[xs.len() - 1], ys[ys.len() - 1]));
        }
        if members_equal(xs, ys) {
            assert forall|i: int| 0 <= i < xs.len() implies #[trigger] member_equal(xs[i], ys[i]) by {
                if i < xs.len() - 1 {
                    assert(member_equal(xs.drop_last()[i], ys.drop_last()[i]));
                }
            }
        }
    }
}

/// Every value is equal to itself.
pub proof fn lemma_json_equal_refl(a: JsonView)
    ensures
        json_equal(a, a),
    decreases a,
{
    match a {
        JsonView::Array(xs) => {
            assert forall|i: int| 0 <= i < xs.len() implies #[trigger] json_equal(xs[i], xs[i]) by {
                lemma_json_equal_refl(xs[i]);
            }
            lemma_items_equal(xs, xs);
        },
        JsonView::Object(xs) => {
            assert forall|i: int| 0 <= i < xs.len() implies #[trigger] member_equal(xs[i], xs[i]) by {
                lemma_json_equal_refl(xs[i].1);
            }
            lemma_members_equal(xs, xs);
        },
        _ => {},
    }
}

/// Whether two optional values are both absent, or both present and equal
/// as JSON values.
pub open spec fn opt_json_equal(a: Option<JsonView>, b: Option<JsonView>) -> bool {
    match a {
        Some(x) => match b {
            Some(y) => json_equal(x, y),
            None => false,
        },
        None => b is None,
    }
}

/// Equality of two numbers as JSON numbers (see `number_equal`).
fn number_equals(a: JsonNumber, b: JsonNumber) -> (r: bool)
    ensures
        r == number_equal(a, b),
{
    match a {
        JsonNumber::Float(x) => match b {
            JsonNumber::Float(y) => x == y || (x % 0x8000_0000_0000_0000u64 == 0 && y
                % 0x8000_0000_0000_0000u64 == 0),
            _ => false,
        },
        _ => a == b,
    }
}

} // verus!
