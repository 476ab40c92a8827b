//! JSON, as `serde_json` reads it.

use crate::lists;
use crate::sorted;
use crate::text;
use vstd::prelude::*;

verus! {

/// A JSON value. Of a number only the kind is kept.
#[derive(Debug)]
pub enum Json {
    Null,
    Bool(bool),
    Number,
    Text(String),
    Array(Vec<Json>),
    Object(Vec<(String, Json)>),
}

/// The view of a [`Json`].
pub enum JsonView {
    Null,
    Bool(bool),
    Number,
    Text(Seq<char>),
    Array(Seq<JsonView>),
    Object(Seq<(Seq<char>, JsonView)>),
}

pub open spec fn json_view(v: Json) -> JsonView
    decreases v,
{
    match v {
        Json::Null => JsonView::Null,
        Json::Bool(b) => JsonView::Bool(b),
        Json::Number => JsonView::Number,
        Json::Text(s) => JsonView::Text(s@),
        Json::Array(a) => JsonView::Array(
            Seq::new(
                a@.len(),
                |i: int|
                    if 0 <= i < a@.len() {
                        json_view(a@[i])
                    } else {
                        JsonView::Null
                    },
            ),
        ),
        Json::Object(o) => JsonView::Object(
            Seq::new(
                o@.len(),
                |i: int|
                    if 0 <= i < o@.len() {
                        (o@[i].0@, json_view(o@[i].1))
                    } else {
                        (Seq::empty(), JsonView::Null)
                    },
            ),
        ),
    }
}

impl DeepView for Json {
    type V = JsonView;

    open spec fn deep_view(&self) -> JsonView {
        json_view(*self)
    }
}

#[verifier::external_type_specification]
#[verifier::external_body]
pub struct ExJsonValue(serde_json::Value);

#[verifier::external_type_specification]
#[verifier::external_body]
pub struct ExJsonError(serde_json::Error);

/// What `serde_json` reads from a text as a `serde_json::Value`; none if it is not JSON.
pub uninterp spec fn json_parsed(text: Seq<char>) -> Option<JsonView>;

/// What a `serde_json::Value` holds.
pub uninterp spec fn json_held(v: serde_json::Value) -> JsonView;

/// What a `serde_json::Error` displays.
pub uninterp spec fn json_error_text(e: serde_json::Error) -> Seq<char>;

/// `serde_json::from_str` into a `serde_json::Value`. A function of the text alone.
#[verifier::external_body]
fn json_from_str(text: &str) -> (r: Option<serde_json::Value>)
    ensures
        json_parsed(text@) == match r {
            Some(v) => Some(json_held(v)),
            None => None::<JsonView>,
        },
{
    serde_json::from_str::<serde_json::Value>(text).ok()
}

/// `serde_json::Value` carried over, each kind of value to the same kind here.
#[verifier::external_body]
pub(crate) fn json_of(v: &serde_json::Value) -> (r: Json)
    ensures
        r.deep_view() == json_held(*v),
{
    match v {
        serde_json::Value::Null => Json::Null,
        serde_json::Value::Bool(b) => Json::Bool(*b),
        serde_json::Value::Number(_) => Json::Number,
        serde_json::Value::String(s) => Json::Text(s.clone()),
        serde_json::Value::Array(a) => Json::Array(a.iter().map(json_of).collect()),
        serde_json::Value::Object(o) => Json::Object(o.iter().map(|(k, v)| (k.clone(), json_of(v))).collect()),
    }
}

/// The words of a `serde_json::Error`, as it displays itself.
#[verifier::external_body]
pub(crate) fn json_complaint(e: &serde_json::Error) -> (r: String)
    ensures
        r@ == json_error_text(*e),
{
    e.to_string()
}

/// Reads a text as JSON.
pub fn parse(text: &str) -> (r: Option<Json>)
    ensures
        r.deep_view() == json_parsed(text@),
{
    match json_from_str(text) {
        Some(v) => Some(json_of(&v)),
        None => None,
    }
}

// ---------------------------------------------------------------------------
// Tables of texts
// ---------------------------------------------------------------------------

/// What `serde_json` reads from a text as a `BTreeMap<String, String>`, in the order of the map; none
/// if it is no such map.
pub uninterp spec fn text_map_parsed(text: Seq<char>) -> Option<Seq<(Seq<char>, Seq<char>)>>;

/// What `serde_json` writes for a map of texts, given in the order of its keys, or the words of its
/// complaint.
pub uninterp spec fn text_map_written(m: Seq<(Seq<char>, Seq<char>)>) -> Result<Seq<char>, Seq<char>>;

/// `serde_json::from_str` into a `BTreeMap<String, String>`. A function of the text alone.
#[verifier::external_body]
pub(crate) fn text_map_from_str(text: &str) -> (r: Option<Vec<(String, String)>>)
    ensures
        r.deep_view() == text_map_parsed(text@),
{
    let m = serde_json::from_str::<std::collections::BTreeMap<String, String>>(text).ok()?;
    Some(m.into_iter().collect())
}

/// `serde_json::to_string` of a `BTreeMap` of texts. A function of the map alone, and what it writes
/// is read back as the same map.
#[verifier::external_body]
pub(crate) fn text_map_to_string(m: &Vec<(String, String)>) -> (r: Result<String, serde_json::Error>)
    requires
        sorted::ascending(m.deep_view()),
    ensures
        text_map_written(m.deep_view()) == match r {
            Ok(s) => Ok::<Seq<char>, Seq<char>>(s@),
            Err(e) => Err::<Seq<char>, Seq<char>>(json_error_text(e)),
        },
        r matches Ok(s) ==> text_map_parsed(s@) == Some(m.deep_view()),
{
    let map: std::collections::BTreeMap<&str, &str> = m.iter().map(|e| (e.0.as_str(), e.1.as_str())).collect();
    serde_json::to_string(&map)
}

// ---------------------------------------------------------------------------
// Members of a value
// ---------------------------------------------------------------------------

/// What an object holds under `key`.
pub open spec fn member_of(v: JsonView, key: Seq<char>) -> Option<JsonView> {
    match v {
        JsonView::Object(o) => sorted::entry_of(o, key),
        _ => None,
    }
}

/// The text under `key`.
pub open spec fn text_under(v: JsonView, key: Seq<char>) -> Option<Seq<char>> {
    match member_of(v, key) {
        Some(JsonView::Text(s)) => Some(s),
        _ => None,
    }
}

/// The text under `key` if there is one, `None` inside if the key is absent or null.
pub open spec fn opt_text_under(v: JsonView, key: Seq<char>) -> Option<Option<Seq<char>>> {
    match member_of(v, key) {
        Some(JsonView::Text(s)) => Some(Some(s)),
        Some(JsonView::Null) => Some(None),
        None => Some(None),
        _ => None,
    }
}

/// The truth value under `key`.
pub open spec fn bool_under(v: JsonView, key: Seq<char>) -> Option<bool> {
    match member_of(v, key) {
        Some(JsonView::Bool(b)) => Some(b),
        _ => None,
    }
}

pub open spec fn json_text_at() -> spec_fn(JsonView) -> Option<Seq<char>> {
    |v: JsonView|
        match v {
            JsonView::Text(s) => Some(s),
            _ => None,
        }
}

/// The texts of an array of nothing but texts.
pub open spec fn texts_of(v: JsonView) -> Option<Seq<Seq<char>>> {
    match v {
        JsonView::Array(a) => lists::all_of(a, json_text_at()),
        _ => None,
    }
}

pub open spec fn texts_under(v: JsonView, key: Seq<char>) -> Option<Seq<Seq<char>>> {
    match member_of(v, key) {
        Some(x) => texts_of(x),
        None => None,
    }
}

/// The items of the array under `key`.
pub open spec fn items_under(v: JsonView, key: Seq<char>) -> Option<Seq<JsonView>> {
    match member_of(v, key) {
        Some(JsonView::Array(a)) => Some(a),
        _ => None,
    }
}

impl Json {
    pub fn get(&self, key: &str) -> (r: Option<&Json>)
        ensures
            r.deep_view() == member_of(self.deep_view(), key@),
    {
        match self {
            Json::Object(t) => {
                let ghost s = self.deep_view()->Object_0;
                for i in 0..t.len()
                    invariant
                        self.deep_view() == JsonView::Object(s),
                        self == Json::Object(*t),
                        forall|j: int| 0 <= j < i ==> (#[trigger] s[j]).0 != key@,
                {
                    assert(s[i as int] == (t@[i as int].0@, t@[i as int].1.deep_view()));
                    if text::same(&t[i].0, key) {
                        proof {
                            sorted::lemma_entry_of_is(s, key@, i as int);
                        }
                        return Some(&t[i].1);
                    }
                }
                proof {
                    sorted::lemma_entry_of_is(s, key@, s.len() as int);
                }
                None
            },
            _ => None,
        }
    }

    pub fn text(&self, key: &str) -> (r: Option<String>)
        ensures
            r.deep_view() == text_under(self.deep_view(), key@),
    {
        match self.get(key) {
            Some(Json::Text(s)) => Some(s.clone()),
            _ => None,
        }
    }

    pub fn opt_text(&self, key: &str) -> (r: Option<Option<String>>)
        ensures
            r.deep_view() == opt_text_under(self.deep_view(), key@),
    {
        match self.get(key) {
            Some(Json::Text(s)) => Some(Some(s.clone())),
            Some(Json::Null) => Some(None),
            None => Some(None),
            _ => None,
        }
    }

    pub fn flag(&self, key: &str) -> (r: Option<bool>)
        ensures
            r == bool_under(self.deep_view(), key@),
    {
        match self.get(key) {
            Some(Json::Bool(b)) => Some(*b),
            _ => None,
        }
    }

    pub fn as_texts(&self) -> (r: Option<Vec<String>>)
        ensures
            r.deep_view() == texts_of(self.deep_view()),
    {
        match self {
            Json::Array(a) => {
                let ghost s = a.deep_view();
                assert(self.deep_view()->Array_0 =~= s);
                let ghost f = json_text_at();
                let mut out: Vec<String> = Vec::new();
                assert(s.take(0) =~= Seq::empty());
                assert(out.deep_view() =~= Seq::empty());
                for i in 0..a.len()
                    invariant
                        s == a.deep_view(),
                        f == json_text_at(),
                        self.deep_view() == JsonView::Array(s),
                        lists::all_of(s.take(i as int), f) == Some(out.deep_view()),
                {
                    let ghost o = out.deep_view();
                    assert(s.take(i + 1).drop_last() =~= s.take(i as int));
                    assert(s.take(i + 1).last() == a@[i as int].deep_view());
                    match &a[i] {
                        Json::Text(x) => {
                            out.push(x.clone());
                            assert(out.deep_view() =~= o.push(x@));
                        },
                        _ => {
                            proof {
                                lists::lemma_all_of_fails(s, f, i + 1);
                            }
                            return None;
                        },
                    }
                }
                assert(s.take(s.len() as int) =~= s);
                Some(out)
            },
            _ => None,
        }
    }

    pub fn texts(&self, key: &str) -> (r: Option<Vec<String>>)
        ensures
            r.deep_view() == texts_under(self.deep_view(), key@),
    {
        match self.get(key) {
            Some(x) => x.as_texts(),
            None => None,
        }
    }

    pub fn items(&self, key: &str) -> (r: Option<&Vec<Json>>)
        ensures
            match r {
                Some(a) => items_under(self.deep_view(), key@) == Some(a.deep_view()),
                None => items_under(self.deep_view(), key@) is None,
            },
    {
        match self.get(key) {
            Some(x) => match x {
                Json::Array(a) => {
                    assert(x.deep_view()->Array_0 =~= a.deep_view());
                    Some(a)
                },
                _ => None,
            },
            None => None,
        }
    }
}

/// An object's member is the first with its key, and nothing but an object has members.
pub proof fn lemma_first_member(o: Seq<(Seq<char>, JsonView)>, i: int, key: Seq<char>, v: JsonView)
    requires
        0 <= i <= o.len(),
        i < o.len() ==> o[i].0 == key,
        forall|j: int| 0 <= j < i ==> (#[trigger] o[j]).0 != key,
        !(v is Object),
    ensures
        i < o.len() ==> member_of(JsonView::Object(o), key) == Some(o[i].1),
        i == o.len() ==> member_of(JsonView::Object(o), key) is None,
        member_of(v, key) is None,
{
    sorted::lemma_entry_of_is(o, key, i);
}

/// An array of texts is read as those texts, and an array with anything else among its items as none.
pub proof fn lemma_texts(a: Seq<JsonView>, s: Seq<Seq<char>>, i: int)
    ensures
        a.len() == s.len() && (forall|k: int| 0 <= k < a.len() ==> #[trigger] a[k] == JsonView::Text(s[k])) ==> texts_of(
            JsonView::Array(a),
        ) == Some(s),
        0 <= i < a.len() && !(a[i] is Text) ==> texts_of(JsonView::Array(a)) is None,
{
    let f = json_text_at();
    lists::lemma_all_of(a, f);
    if a.len() == s.len() && (forall|k: int| 0 <= k < a.len() ==> #[trigger] a[k] == JsonView::Text(s[k])) {
        match texts_of(JsonView::Array(a)) {
            Some(t) => {
                assert forall|k: int| 0 <= k < a.len() implies #[trigger] t[k] == s[k] by {
                    assert(f(a[k]) == Some(t[k]));
                    assert(a[k] == JsonView::Text(s[k]));
                }
                assert(t =~= s);
            },
            None => {
                let k = choose|k: int| 0 <= k < a.len() && f(#[trigger] a[k]) is None;
                assert(a[k] == JsonView::Text(s[k]));
            },
        }
    }
    if 0 <= i < a.len() && !(a[i] is Text) {
        assert(f(a[i]) is None);
    }
}

} // verus!
