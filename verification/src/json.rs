//! A JSON document as the library builds it, and its text as `serde_json`
//! writes it.
use vstd::prelude::*;

verus! {

/// A JSON value.
#[derive(Debug)]
pub enum Json {
    Bool(bool),
    Num(u64),
    Str(String),
    Arr(Vec<Json>),
    Obj(Vec<(String, Json)>),
}

/// A JSON value as plain values.
pub enum JsonValue {
    Bool(bool),
    Num(nat),
    Str(Seq<char>),
    Arr(Seq<JsonValue>),
    Obj(Seq<(Seq<char>, JsonValue)>),
}

pub open spec fn json_view(j: Json) -> JsonValue
    decreases j,
{
    match j {
        Json::Bool(b) => JsonValue::Bool(b),
        Json::Num(n) => JsonValue::Num(n as nat),
        Json::Str(s) => JsonValue::Str(s@),
        Json::Arr(v) => JsonValue::Arr(json_views(v@)),
        Json::Obj(es) => JsonValue::Obj(json_entries(es@)),
    }
}

pub open spec fn json_views(s: Seq<Json>) -> Seq<JsonValue>
    decreases s,
{
    if s.len() == 0 {
        seq![]
    } else {
        json_views(s.drop_last()).push(json_view(s.last()))
    }
}

pub open spec fn json_entries(s: Seq<(String, Json)>) -> Seq<(Seq<char>, JsonValue)>
    decreases s,
{
    if s.len() == 0 {
        seq![]
    } else {
        json_entries(s.drop_last()).push((s.last().0@, json_view(s.last().1)))
    }
}

/// The views of `s`, one for one.
pub proof fn lemma_json_views(s: Seq<Json>)
    ensures
        json_views(s) == s.map_values(|j: Json| json_view(j)),
    decreases s.len(),
{
    if s.len() > 0 {
        lemma_json_views(s.drop_last());
        assert(s.map_values(|j: Json| json_view(j)) =~= s.drop_last().map_values(
            |j: Json| json_view(j),
        ).push(json_view(s.last())));
    } else {
        assert(s.map_values(|j: Json| json_view(j)) =~= Seq::<JsonValue>::empty());
    }
}

/// The views of the entries `s`, one for one.
pub proof fn lemma_json_entries(s: Seq<(String, Json)>)
    ensures
        json_entries(s) == s.map_values(|e: (String, Json)| (e.0@, json_view(e.1))),
    decreases s.len(),
{
    if s.len() > 0 {
        lemma_json_entries(s.drop_last());
        assert(s.map_values(|e: (String, Json)| (e.0@, json_view(e.1))) =~= s.drop_last().map_values(
            |e: (String, Json)| (e.0@, json_view(e.1)),
        ).push((s.last().0@, json_view(s.last().1))));
    } else {
        assert(s.map_values(|e: (String, Json)| (e.0@, json_view(e.1))) =~= Seq::<
            (Seq<char>, JsonValue),
        >::empty());
    }
}

/// A JSON string.
pub fn json_text(s: &str) -> (j: Json)
    ensures
        json_view(j) == JsonValue::Str(s@),
{
    Json::Str(String::from_str(s))
}

/// An object entry.
pub fn json_entry(key: &str, value: Json) -> (e: (String, Json))
    ensures
        e.0@ == key@,
        e.1 == value,
{
    (String::from_str(key), value)
}

/// An array of `items`.
pub fn json_array(items: Vec<Json>) -> (j: Json)
    ensures
        json_view(j) == JsonValue::Arr(items@.map_values(|i: Json| json_view(i))),
{
    proof {
        lemma_json_views(items@);
    }
    Json::Arr(items)
}

/// An object of `entries`, in order.
pub fn json_object(entries: Vec<(String, Json)>) -> (j: Json)
    ensures
        json_view(j) == JsonValue::Obj(entries@.map_values(|e: (String, Json)| (e.0@, json_view(e.1)))),
{
    proof {
        lemma_json_entries(entries@);
    }
    Json::Obj(entries)
}

/// The value at `key` in object `v`: that of the last entry with the key,
/// as a later entry replaces an earlier one when `serde_json` reads or
/// builds an object.
pub open spec fn json_get(v: JsonValue, key: Seq<char>) -> Option<JsonValue> {
    match v {
        JsonValue::Obj(es) => entry_value(es, key, es.len() as int),
        _ => None,
    }
}

/// The value of the last entry with `key` among the first `n` of `es`.
pub open spec fn entry_value(es: Seq<(Seq<char>, JsonValue)>, key: Seq<char>, n: int) -> Option<
    JsonValue,
>
    decreases n,
{
    if n <= 0 || n > es.len() {
        None
    } else if es[n - 1].0 == key {
        Some(es[n - 1].1)
    } else {
        entry_value(es, key, n - 1)
    }
}

/// The value at `key` in an object whose entry `j` is the last with that key.
pub proof fn lemma_json_get(es: Seq<(Seq<char>, JsonValue)>, key: Seq<char>, j: int)
    requires
        0 <= j < es.len(),
        es[j].0 == key,
        forall|i: int| j < i < es.len() ==> es[i].0 != key,
    ensures
        json_get(JsonValue::Obj(es), key) == Some(es[j].1),
{
    lemma_entry_value_upto(es, key, es.len() as int, j);
}

/// An object with no entry for `key` has no value at it.
pub proof fn lemma_json_get_absent(es: Seq<(Seq<char>, JsonValue)>, key: Seq<char>)
    requires
        forall|i: int| 0 <= i < es.len() ==> es[i].0 != key,
    ensures
        json_get(JsonValue::Obj(es), key) is None,
{
    lemma_entry_value_absent(es, key, es.len() as int);
}

proof fn lemma_entry_value_absent(es: Seq<(Seq<char>, JsonValue)>, key: Seq<char>, n: int)
    requires
        0 <= n <= es.len(),
        forall|i: int| 0 <= i < es.len() ==> es[i].0 != key,
    ensures
        entry_value(es, key, n) is None,
    decreases n,
{
    if n > 0 {
        lemma_entry_value_absent(es, key, n - 1);
    }
}

proof fn lemma_entry_value_upto(es: Seq<(Seq<char>, JsonValue)>, key: Seq<char>, n: int, j: int)
    requires
        0 <= j < n <= es.len(),
        es[j].0 == key,
        forall|k: int| j < k < es.len() ==> es[k].0 != key,
    ensures
        entry_value(es, key, n) == Some(es[j].1),
    decreases n,
{
    if n - 1 > j {
        lemma_entry_value_upto(es, key, n - 1, j);
    }
}

/// Item `i` of array `v`.
pub open spec fn json_item(v: JsonValue, i: int) -> Option<JsonValue> {
    match v {
        JsonValue::Arr(items) => if 0 <= i < items.len() {
            Some(items[i])
        } else {
            None
        },
        _ => None,
    }
}

/// One step into a JSON value: an object's key or an array's index.
pub enum JsonStep {
    Key(Seq<char>),
    Index(int),
}

/// The value reached from `v` by `path`, step by step.
pub open spec fn json_at(v: JsonValue, path: Seq<JsonStep>) -> Option<JsonValue> {
    json_at_from(v, path, 0)
}

/// The value reached from `v` by the steps of `path` from step `i` on.
pub open spec fn json_at_from(v: JsonValue, path: Seq<JsonStep>, i: int) -> Option<JsonValue>
    decreases path.len() - i,
{
    if i < 0 || i >= path.len() {
        Some(v)
    } else {
        let next = match path[i] {
            JsonStep::Key(k) => json_get(v, k),
            JsonStep::Index(n) => json_item(v, n),
        };
        match next {
            Some(w) => json_at_from(w, path, i + 1),
            None => None,
        }
    }
}

#[verifier::external_type_specification]
#[verifier::external_body]
pub struct ExJsonValue(serde_json::Value);

/// What `serde_json::to_string_pretty` gives for a document: its text, or
/// the `Display` text of the error.
pub uninterp spec fn pretty_json(doc: JsonValue) -> Result<Seq<char>, Seq<char>>;

/// `doc` as a `serde_json::Value`, value for value: booleans, numbers,
/// strings, arrays in order and objects with the same entries. Nothing is
/// stated of the result: the value is opaque here.
#[verifier::external_body]
fn to_serde_value(doc: &Json) -> serde_json::Value {
    match doc {
        Json::Bool(b) => serde_json::Value::Bool(*b),
        Json::Num(n) => serde_json::Value::from(*n),
        Json::Str(s) => serde_json::Value::String(s.clone()),
        Json::Arr(items) => serde_json::Value::Array(items.iter().map(to_serde_value).collect()),
        Json::Obj(entries) => serde_json::Value::Object(
            entries.iter().map(|(key, value)| (key.clone(), to_serde_value(value))).collect(),
        ),
    }
}

/// `serde_json::to_string_pretty` of `doc`. Trusted: the outcome is the
/// one `pretty_json` names for the document, the text or the `Display`
/// text of `serde_json`'s error.
#[verifier::external_body]
pub(crate) fn json_pretty(doc: &Json) -> (r: Result<String, String>)
    ensures
        match r {
            Ok(s) => pretty_json(json_view(*doc)) == Ok::<Seq<char>, Seq<char>>(s@),
            Err(e) => pretty_json(json_view(*doc)) == Err::<Seq<char>, Seq<char>>(e@),
        },
{
    serde_json::to_string_pretty(&to_serde_value(doc)).map_err(|error| format!("{error}"))
}

} // verus!
