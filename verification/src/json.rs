//! JSON values as the library reads and builds them.

use vstd::prelude::*;
use crate::assoc::{find_last, lemma_pairs_map_absent, lemma_pairs_map_last, pairs_map};

verus! {

/// A JSON value. `Int` is a number that reads as an `i64`; `Number` is any
/// other number, held as its JSON text. An object is an association list in
/// which a later entry for a key replaces an earlier one.
#[derive(Debug)]
pub enum JsonValue {
    Null,
    Bool(bool),
    Int(i64),
    Number(String),
    Str(String),
    Array(Vec<JsonValue>),
    Object(Vec<(String, JsonValue)>),
}

/// The mathematical model of a JSON value.
pub enum Json {
    Null,
    Bool(bool),
    Int(i64),
    Number(Seq<char>),
    Str(Seq<char>),
    Array(Seq<Json>),
    Object(Seq<(Seq<char>, Json)>),
}

pub open spec fn json_of(v: JsonValue) -> Json
    decreases v,
{
    match v {
        JsonValue::Null => Json::Null,
        JsonValue::Bool(b) => Json::Bool(b),
        JsonValue::Int(i) => Json::Int(i),
        JsonValue::Number(s) => Json::Number(s@),
        JsonValue::Str(s) => Json::Str(s@),
        JsonValue::Array(items) => Json::Array(json_seq(items@)),
        JsonValue::Object(e) => Json::Object(json_pairs(e@)),
    }
}

pub open spec fn json_seq(s: Seq<JsonValue>) -> Seq<Json>
    decreases s,
{
    if s.len() == 0 {
        Seq::empty()
    } else {
        json_seq(s.drop_last()).push(json_of(s.last()))
    }
}

pub open spec fn json_pairs(e: Seq<(String, JsonValue)>) -> Seq<(Seq<char>, Json)>
    decreases e,
{
    if e.len() == 0 {
        Seq::empty()
    } else {
        json_pairs(e.drop_last()).push((e.last().0@, json_of(e.last().1)))
    }
}

impl View for JsonValue {
    type V = Json;

    open spec fn view(&self) -> Json {
        json_of(*self)
    }
}

impl Json {
    /// The value of field `k` of an object (`Value::get`).
    pub open spec fn get(self, k: Seq<char>) -> Option<Json> {
        match self {
            Json::Object(e) => pairs_map(e).get(k),
            _ => None,
        }
    }

    pub open spec fn as_str(self) -> Option<Seq<char>> {
        match self {
            Json::Str(s) => Some(s),
            _ => None,
        }
    }

    pub open spec fn as_i64(self) -> Option<i64> {
        match self {
            Json::Int(i) => Some(i),
            _ => None,
        }
    }

    pub open spec fn as_bool(self) -> Option<bool> {
        match self {
            Json::Bool(b) => Some(b),
            _ => None,
        }
    }

    pub open spec fn as_array(self) -> Option<Seq<Json>> {
        match self {
            Json::Array(a) => Some(a),
            _ => None,
        }
    }
}

/// `v.get(k).and_then(Value::as_str)`.
pub open spec fn get_str(v: Json, k: Seq<char>) -> Option<Seq<char>> {
    match v.get(k) {
        Some(x) => x.as_str(),
        None => None,
    }
}

/// `v.get(k).and_then(Value::as_i64)`.
pub open spec fn get_i64(v: Json, k: Seq<char>) -> Option<i64> {
    match v.get(k) {
        Some(x) => x.as_i64(),
        None => None,
    }
}

/// `v.get(k).and_then(Value::as_bool)`.
pub open spec fn get_bool(v: Json, k: Seq<char>) -> Option<bool> {
    match v.get(k) {
        Some(x) => x.as_bool(),
        None => None,
    }
}

/// `v.get(k).and_then(Value::as_str).unwrap_or_default()`.
pub open spec fn str_or_empty(v: Json, k: Seq<char>) -> Seq<char> {
    match get_str(v, k) {
        Some(s) => s,
        None => Seq::empty(),
    }
}

/// `v.get(k).and_then(Value::as_i64).unwrap_or_default()`.
pub open spec fn i64_or_zero(v: Json, k: Seq<char>) -> i64 {
    match get_i64(v, k) {
        Some(i) => i,
        None => 0,
    }
}

/// `v.get(k).and_then(Value::as_bool).unwrap_or(false)`.
pub open spec fn bool_or_false(v: Json, k: Seq<char>) -> bool {
    match get_bool(v, k) {
        Some(b) => b,
        None => false,
    }
}

pub proof fn lemma_json_seq(s: Seq<JsonValue>)
    ensures
        json_seq(s).len() == s.len(),
        forall|i: int| 0 <= i < s.len() ==> #[trigger] json_seq(s)[i] == json_of(s[i]),
    decreases s.len(),
{
    if s.len() > 0 {
        lemma_json_seq(s.drop_last());
    }
}

pub proof fn lemma_json_pairs(e: Seq<(String, JsonValue)>)
    ensures
        json_pairs(e).len() == e.len(),
        forall|i: int|
            0 <= i < e.len() ==> #[trigger] json_pairs(e)[i] == (e[i].0@, json_of(e[i].1)),
    decreases e.len(),
{
    if e.len() > 0 {
        lemma_json_pairs(e.drop_last());
    }
}

pub proof fn lemma_json_pairs_push(e: Seq<(String, JsonValue)>, k: String, v: JsonValue)
    ensures
        json_pairs(e.push((k, v))) == json_pairs(e).push((k@, json_of(v))),
{
    assert(e.push((k, v)).drop_last() =~= e);
}

pub proof fn lemma_json_seq_push(s: Seq<JsonValue>, v: JsonValue)
    ensures
        json_seq(s.push(v)) == json_seq(s).push(json_of(v)),
{
    assert(s.push(v).drop_last() =~= s);
}

/// The index of the entry that `get` reads for `key`.
fn object_find(e: &Vec<(String, JsonValue)>, key: &str) -> (res: Option<usize>)
    ensures
        match res {
            Some(i) => i < e@.len() && pairs_map(json_pairs(e@)).get(key@) == Some(
                json_of(e@[i as int].1),
            ),
            None => pairs_map(json_pairs(e@)).get(key@) is None,
        },
{
    let r = find_last(e, key);
    proof {
        let m = json_pairs(e@);
        lemma_json_pairs(e@);
        match r {
            Some(i) => {
                assert forall|j: int| i < j < m.len() implies (#[trigger] m[j]).0 != key@ by {
                    assert(m[j] == (e@[j].0@, json_of(e@[j].1)));
                }
                assert(m[i as int] == (e@[i as int].0@, json_of(e@[i as int].1)));
                lemma_pairs_map_last(m, i as int, key@);
            },
            None => {
                assert forall|j: int| 0 <= j < m.len() implies (#[trigger] m[j]).0 != key@ by {
                    assert(m[j] == (e@[j].0@, json_of(e@[j].1)));
                }
                lemma_pairs_map_absent(m, key@);
            },
        }
    }
    r
}

impl JsonValue {
    /// The value of field `key` (`Value::get`).
    pub fn get(&self, key: &str) -> (res: Option<&JsonValue>)
        ensures
            match res {
                Some(r) => self@.get(key@) == Some(r@),
                None => self@.get(key@) is None,
            },
    {
        match self {
            JsonValue::Object(e) => match object_find(e, key) {
                Some(i) => Some(&e[i].1),
                None => None,
            },
            _ => None,
        }
    }

    /// Takes field `key` out of an object.
    pub fn into_field(self, key: &str) -> (res: Option<JsonValue>)
        ensures
            match res {
                Some(r) => self@.get(key@) == Some(r@),
                None => self@.get(key@) is None,
            },
    {
        match self {
            JsonValue::Object(e) => match object_find(&e, key) {
                Some(i) => {
                    let mut e = e;
                    let (_, v) = e.remove(i);
                    Some(v)
                },
                None => None,
            },
            _ => None,
        }
    }

    pub fn as_str(&self) -> (res: Option<&String>)
        ensures
            match res {
                Some(s) => self@.as_str() == Some(s@),
                None => self@.as_str() is None,
            },
    {
        match self {
            JsonValue::Str(s) => Some(s),
            _ => None,
        }
    }

    pub fn as_i64(&self) -> (res: Option<i64>)
        ensures
            res == self@.as_i64(),
    {
        match self {
            JsonValue::Int(i) => Some(*i),
            _ => None,
        }
    }

    pub fn as_bool(&self) -> (res: Option<bool>)
        ensures
            res == self@.as_bool(),
    {
        match self {
            JsonValue::Bool(b) => Some(*b),
            _ => None,
        }
    }

    pub fn as_array(&self) -> (res: Option<&Vec<JsonValue>>)
        ensures
            match res {
                Some(a) => self@.as_array() == Some(json_seq(a@)),
                None => self@.as_array() is None,
            },
    {
        match self {
            JsonValue::Array(a) => Some(a),
            _ => None,
        }
    }

    /// A string value.
    pub fn string(s: &str) -> (res: JsonValue)
        ensures
            res@ == Json::Str(s@),
    {
        JsonValue::Str(s.to_owned())
    }
}

/// `v.get(k).and_then(Value::as_str)`, owned.
pub fn field_str(v: &JsonValue, k: &str) -> (res: Option<String>)
    ensures
        match res {
            Some(s) => get_str(v@, k@) == Some(s@),
            None => get_str(v@, k@) is None,
        },
{
    match v.get(k) {
        Some(x) => match x.as_str() {
            Some(s) => Some(s.clone()),
            None => None,
        },
        None => None,
    }
}

/// `v.get(k).and_then(Value::as_i64)`.
pub fn field_i64(v: &JsonValue, k: &str) -> (res: Option<i64>)
    ensures
        res == get_i64(v@, k@),
{
    match v.get(k) {
        Some(x) => x.as_i64(),
        None => None,
    }
}

/// `v.get(k).and_then(Value::as_bool)`.
pub fn field_bool(v: &JsonValue, k: &str) -> (res: Option<bool>)
    ensures
        res == get_bool(v@, k@),
{
    match v.get(k) {
        Some(x) => x.as_bool(),
        None => None,
    }
}

/// `v.get(k).and_then(Value::as_str).unwrap_or_default().to_string()`.
pub fn field_str_or_empty(v: &JsonValue, k: &str) -> (res: String)
    ensures
        res@ == str_or_empty(v@, k@),
{
    match field_str(v, k) {
        Some(s) => s,
        None => String::new(),
    }
}

/// `v.get(k).and_then(Value::as_i64).unwrap_or_default()`.
pub fn field_i64_or_zero(v: &JsonValue, k: &str) -> (res: i64)
    ensures
        res == i64_or_zero(v@, k@),
{
    match field_i64(v, k) {
        Some(i) => i,
        None => 0,
    }
}

/// `v.get(k).and_then(Value::as_bool).unwrap_or(false)`.
pub fn field_bool_or_false(v: &JsonValue, k: &str) -> (res: bool)
    ensures
        res == bool_or_false(v@, k@),
{
    match field_bool(v, k) {
        Some(b) => b,
        None => false,
    }
}

/// Appends field `k` to an object under construction.
pub fn push_field(e: &mut Vec<(String, JsonValue)>, k: &str, v: JsonValue)
    ensures
        json_pairs(final(e)@) == json_pairs(old(e)@).push((k@, v@)),
{
    let ks = k.to_owned();
    proof {
        lemma_json_pairs_push(old(e)@, ks, v);
    }
    e.push((ks, v));
}

} // verus!
