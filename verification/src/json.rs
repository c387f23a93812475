//! JSON documents as the library reads them, parsed by `serde_json`.

use vstd::prelude::*;
use crate::text::{chars_of, same_chars};

verus! {

/// One `"key": value` entry of a JSON object.
pub struct JsonMember {
    pub key: String,
    pub value: Json,
}

/// A parsed JSON document. Numbers are kept only as a kind: nothing here reads
/// their value.
pub enum Json {
    Null,
    Bool(bool),
    Number,
    Str(String),
    Array(Vec<Json>),
    Object(Vec<JsonMember>),
}

#[verifier::external_type_specification]
#[verifier::external_body]
pub struct ExJsonValue(serde_json::Value);

/// What `serde_json::from_str::<serde_json::Value>` gives for a text: the
/// document, or the error's message.
pub uninterp spec fn json_parse_result(text: Seq<char>) -> Result<Json, Seq<char>>;

/// Parses `text` with `serde_json::from_str::<serde_json::Value>`; the document
/// is converted variant by variant, an error to its message. Claimed: the result
/// is `json_parse_result` of the text.
#[verifier::external_body]
pub(crate) fn parse_json(text: &str) -> (r: Result<Json, String>)
    ensures
        match r {
            Ok(j) => json_parse_result(text@) == Ok::<Json, Seq<char>>(j),
            Err(e) => json_parse_result(text@) == Err::<Json, Seq<char>>(e@),
        },
{
    match serde_json::from_str::<serde_json::Value>(text) {
        Ok(v) => Ok(json_from_value(v)),
        Err(e) => Err(e.to_string()),
    }
}

/// Converts a `serde_json::Value` into a `Json`, one variant for one variant; an
/// object's members keep the order in which `serde_json::Map` holds them. Nothing
/// is claimed of it: only `parse_json` uses it, and that function's result is named.
#[verifier::external_body]
fn json_from_value(v: serde_json::Value) -> Json {
    match v {
        serde_json::Value::Null => Json::Null,
        serde_json::Value::Bool(b) => Json::Bool(b),
        serde_json::Value::Number(_) => Json::Number,
        serde_json::Value::String(s) => Json::Str(s),
        serde_json::Value::Array(a) => Json::Array(a.into_iter().map(json_from_value).collect()),
        serde_json::Value::Object(m) => Json::Object(
            m.into_iter().map(|(key, value)| JsonMember { key, value: json_from_value(value) }).collect(),
        ),
    }
}

/// The value of the first member named `key` (`serde_json::Map::get`).
pub open spec fn member_lookup(ms: Seq<JsonMember>, key: Seq<char>) -> Option<Json>
    decreases ms.len(),
{
    if ms.len() == 0 {
        None
    } else if ms[0].key@ == key {
        Some(ms[0].value)
    } else {
        member_lookup(ms.drop_first(), key)
    }
}

/// `Value::get(key)`: a member of an object; nothing for any other value.
pub open spec fn json_get(j: Json, key: Seq<char>) -> Option<Json> {
    match j {
        Json::Object(ms) => member_lookup(ms@, key),
        _ => None,
    }
}

/// `Value::as_str` on an optional value.
pub open spec fn json_str(j: Option<Json>) -> Option<Seq<char>> {
    match j {
        Some(Json::Str(s)) => Some(s@),
        _ => None,
    }
}

/// `get(key)` chained over an optional value.
pub open spec fn json_get_opt(j: Option<Json>, key: Seq<char>) -> Option<Json> {
    match j {
        Some(v) => json_get(v, key),
        None => None,
    }
}

/// Field `idx` (named `name`) of a struct of `n` fields, as a derived
/// `Deserialize` reads it: from an object by name (absent when missing), or from
/// an array of exactly `n` elements by position. `None` when `j` is neither.
pub open spec fn field_of(j: Json, n: nat, idx: int, name: Seq<char>) -> Option<Option<Json>> {
    match j {
        Json::Object(ms) => Some(member_lookup(ms@, name)),
        Json::Array(items) => if items@.len() == n {
            Some(Some(items@[idx]))
        } else {
            None
        },
        _ => None,
    }
}

/// An `Option<String>` field: absent or null gives `None`, a string gives it;
/// anything else is a type error (`None` outside).
pub open spec fn opt_string(f: Option<Json>) -> Option<Option<Seq<char>>> {
    match f {
        None => Some(None),
        Some(Json::Null) => Some(None),
        Some(Json::Str(s)) => Some(Some(s@)),
        _ => None,
    }
}

/// An optional reference read as an optional value.
pub open spec fn deref_opt(j: Option<&Json>) -> Option<Json> {
    match j {
        Some(v) => Some(*v),
        None => None,
    }
}

/// The value of the first member named `key`.
pub fn member_get<'a>(ms: &'a Vec<JsonMember>, key: &Vec<char>) -> (r: Option<&'a Json>)
    ensures
        match r {
            Some(x) => member_lookup(ms@, key@) == Some(*x),
            None => member_lookup(ms@, key@) is None,
        },
{
    let mut i: usize = 0;
    assert(ms@.skip(0) =~= ms@);
    while i < ms.len()
        invariant
            i <= ms@.len(),
            member_lookup(ms@.skip(i as int), key@) == member_lookup(ms@, key@),
        decreases ms@.len() - i,
    {
        let k = chars_of(ms[i].key.as_str());
        assert(ms@.skip(i as int)[0] == ms@[i as int]);
        if same_chars(&k, key) {
            return Some(&ms[i].value);
        }
        assert(ms@.skip(i as int).drop_first() =~= ms@.skip(i + 1));
        i += 1;
    }
    assert(ms@.skip(i as int) =~= Seq::<JsonMember>::empty());
    None
}

/// `Value::get(key)`.
pub fn get<'a>(j: &'a Json, key: &Vec<char>) -> (r: Option<&'a Json>)
    ensures
        match r {
            Some(x) => json_get(*j, key@) == Some(*x),
            None => json_get(*j, key@) is None,
        },
{
    match j {
        Json::Object(ms) => member_get(ms, key),
        _ => None,
    }
}

/// `Value::get(key)` on an optional value.
pub fn get_opt<'a>(j: Option<&'a Json>, key: &Vec<char>) -> (r: Option<&'a Json>)
    ensures
        match r {
            Some(x) => json_get_opt(deref_opt(j), key@) == Some(*x),
            None => json_get_opt(deref_opt(j), key@) is None,
        },
{
    match j {
        Some(v) => get(v, key),
        None => None,
    }
}

/// `Value::as_str`.
pub fn as_str(j: Option<&Json>) -> (r: Option<Vec<char>>)
    ensures
        match r {
            Some(s) => json_str(deref_opt(j)) == Some(s@),
            None => json_str(deref_opt(j)) is None,
        },
{
    match j {
        Some(Json::Str(s)) => Some(chars_of(s.as_str())),
        _ => None,
    }
}

/// Field `idx` named `name` of a struct of `n` fields (see `field_of`).
pub fn field<'a>(j: &'a Json, n: usize, idx: usize, name: &Vec<char>) -> (r: Option<Option<&'a Json>>)
    requires
        idx < n,
    ensures
        match r {
            None => field_of(*j, n as nat, idx as int, name@) is None,
            Some(None) => field_of(*j, n as nat, idx as int, name@) == Some(None::<Json>),
            Some(Some(x)) => field_of(*j, n as nat, idx as int, name@) == Some(Some(*x)),
        },
{
    match j {
        Json::Object(ms) => Some(member_get(ms, name)),
        Json::Array(items) => if items.len() == n {
            Some(Some(&items[idx]))
        } else {
            None
        },
        _ => None,
    }
}

/// An `Option<String>` field (see `opt_string`).
pub fn opt_string_exec(f: Option<&Json>) -> (r: Option<Option<String>>)
    ensures
        match r {
            None => opt_string(deref_opt(f)) is None,
            Some(None) => opt_string(deref_opt(f)) == Some(None::<Seq<char>>),
            Some(Some(s)) => opt_string(deref_opt(f)) == Some(Some(s@)),
        },
{
    match f {
        None => Some(None),
        Some(Json::Null) => Some(None),
        Some(Json::Str(s)) => Some(Some(s.clone())),
        _ => None,
    }
}

} // verus!
