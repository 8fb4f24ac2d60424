//! JSON documents as the import commands read them: the replies of the
//! review services, held as plain values.

use vstd::prelude::*;
use crate::text::{chars_equal, chars_of};

verus! {

/// A member of a JSON object.
pub struct Member {
    pub key: String,
    pub value: Json,
}

/// A JSON value. A number is held as the unsigned 64-bit integer that it
/// is, where it is one (`None` for negative, fractional or larger numbers),
/// since that is all that is read of numbers.
pub enum Json {
    Null,
    Bool(bool),
    Number(Option<u64>),
    Str(String),
    Array(Vec<Json>),
    Object(Vec<Member>),
}

/// The value of the first member named `key`.
pub open spec fn member_of(ms: Seq<Member>, key: Seq<char>) -> Option<Json>
    decreases ms.len(),
{
    if ms.len() == 0 {
        None
    } else if ms[0].key@ == key {
        Some(ms[0].value)
    } else {
        member_of(ms.drop_first(), key)
    }
}

/// The member `key` of an object; nothing for other values.
pub open spec fn json_get(j: Json, key: Seq<char>) -> Option<Json> {
    match j {
        Json::Object(ms) => member_of(ms@, key),
        _ => None,
    }
}

/// The member `key` of a value that may be absent.
pub open spec fn opt_get(j: Option<Json>, key: Seq<char>) -> Option<Json> {
    match j {
        Some(v) => json_get(v, key),
        None => None,
    }
}

/// The member `a` of a value that may be absent, or where the value has
/// no member `a`, its member `b`.
pub open spec fn get_either(j: Option<Json>, a: Seq<char>, b: Seq<char>) -> Option<Json> {
    match opt_get(j, a) {
        Some(v) => Some(v),
        None => opt_get(j, b),
    }
}

/// The text of a string value.
pub open spec fn json_str(j: Option<Json>) -> Option<Seq<char>> {
    match j {
        Some(Json::Str(s)) => Some(s@),
        _ => None,
    }
}

/// The truth value of a boolean value.
pub open spec fn json_bool(j: Option<Json>) -> Option<bool> {
    match j {
        Some(Json::Bool(b)) => Some(b),
        _ => None,
    }
}

/// The value of a number that is an unsigned 64-bit integer.
pub open spec fn json_u64(j: Option<Json>) -> Option<u64> {
    match j {
        Some(Json::Number(n)) => n,
        _ => None,
    }
}

/// The elements of an array value.
pub open spec fn json_array(j: Option<Json>) -> Option<Seq<Json>> {
    match j {
        Some(Json::Array(v)) => Some(v@),
        _ => None,
    }
}

/// A reference that may be absent, as a value that may be absent.
pub open spec fn deref_opt(j: Option<&Json>) -> Option<Json> {
    match j {
        Some(v) => Some(*v),
        None => None,
    }
}

/// The position of the first member named `key`.
pub fn find_member(ms: &Vec<Member>, key: &str) -> (r: Option<usize>)
    ensures
        match r {
            Some(k) => k < ms@.len() && member_of(ms@, key@) == Some(ms@[k as int].value),
            None => member_of(ms@, key@) is None,
        },
{
    let kc = chars_of(key);
    let mut i: usize = 0;
    assert(ms@.subrange(0, ms@.len() as int) =~= ms@);
    while i < ms.len()
        invariant
            i <= ms@.len(),
            kc@ == key@,
            member_of(ms@, key@) == member_of(ms@.subrange(i as int, ms@.len() as int), key@),
        decreases ms.len() - i,
    {
        let ghost rest = ms@.subrange(i as int, ms@.len() as int);
        assert(rest[0] == ms@[i as int]);
        if chars_equal(&chars_of(ms[i].key.as_str()), &kc) {
            return Some(i);
        }
        assert(rest.drop_first() =~= ms@.subrange(i + 1, ms@.len() as int));
        i = i + 1;
    }
    None
}

/// The member `key` of `j`, where `j` is an object that has one.
pub fn get<'a>(j: &'a Json, key: &str) -> (r: Option<&'a Json>)
    ensures
        deref_opt(r) == json_get(*j, key@),
{
    match j {
        Json::Object(ms) => match find_member(ms, key) {
            Some(k) => Some(&ms[k].value),
            None => None,
        },
        _ => None,
    }
}

/// The member `key` of a value that may be absent.
pub fn get_opt<'a>(j: Option<&'a Json>, key: &str) -> (r: Option<&'a Json>)
    ensures
        deref_opt(r) == opt_get(deref_opt(j), key@),
{
    match j {
        Some(v) => get(v, key),
        None => None,
    }
}

/// The member `a` of a value that may be absent, else its member `b`.
pub fn get_first<'a>(j: Option<&'a Json>, a: &str, b: &str) -> (r: Option<&'a Json>)
    ensures
        deref_opt(r) == get_either(deref_opt(j), a@, b@),
{
    match get_opt(j, a) {
        Some(v) => Some(v),
        None => get_opt(j, b),
    }
}

/// The text of a string value.
pub fn as_str(j: Option<&Json>) -> (r: Option<String>)
    ensures
        r.deep_view() == json_str(deref_opt(j)),
{
    match j {
        Some(Json::Str(s)) => Some(s.clone()),
        _ => None,
    }
}

/// The truth value of a boolean value.
pub fn as_bool(j: Option<&Json>) -> (r: Option<bool>)
    ensures
        r == json_bool(deref_opt(j)),
{
    match j {
        Some(Json::Bool(b)) => Some(*b),
        _ => None,
    }
}

/// The value of a number that is an unsigned 64-bit integer.
pub fn as_u64(j: Option<&Json>) -> (r: Option<u64>)
    ensures
        r == json_u64(deref_opt(j)),
{
    match j {
        Some(Json::Number(n)) => *n,
        _ => None,
    }
}

/// The elements of an array value.
pub fn as_array(j: Option<&Json>) -> (r: Option<&Vec<Json>>)
    ensures
        match r {
            Some(v) => json_array(deref_opt(j)) == Some(v@),
            None => json_array(deref_opt(j)) is None,
        },
{
    match j {
        Some(Json::Array(v)) => Some(v),
        _ => None,
    }
}

/// `serde_json::Value`, the document that `serde_json` parses into. It is
/// held only on its way to `Json`.
#[verifier::external_type_specification]
#[verifier::external_body]
pub struct ExValue(serde_json::Value);

/// The document that `serde_json::from_slice::<serde_json::Value>` reads
/// from the bytes, as a `Json`; `None` where the bytes are not one JSON
/// document.
pub uninterp spec fn json_parsed(bytes: Seq<u8>) -> Option<Json>;

/// A `serde_json::Value` as a `Json`, variant for variant; a number becomes
/// what `serde_json::Number::as_u64` gives. Only `parse_json` calls it.
#[verifier::external_body]
fn json_of_value(v: &serde_json::Value) -> Json {
    match v {
        serde_json::Value::Null => Json::Null,
        serde_json::Value::Bool(b) => Json::Bool(*b),
        serde_json::Value::Number(n) => Json::Number(n.as_u64()),
        serde_json::Value::String(t) => Json::Str(t.clone()),
        serde_json::Value::Array(a) => Json::Array(a.iter().map(json_of_value).collect()),
        serde_json::Value::Object(m) => Json::Object(
            m.iter().map(|(k, x)| Member { key: k.clone(), value: json_of_value(x) }).collect(),
        ),
    }
}

/// `serde_json::from_slice::<serde_json::Value>`: the JSON document the
/// bytes hold, or `None` where they hold none. Which texts are accepted,
/// and what they denote, is `serde_json`'s; the result is named by
/// `json_parsed`.
#[verifier::external_body]
pub(crate) fn parse_json(bytes: &[u8]) -> (r: Option<Json>)
    ensures
        r == json_parsed(bytes@),
{
    match serde_json::from_slice::<serde_json::Value>(bytes) {
        Ok(v) => Some(json_of_value(&v)),
        Err(_) => None,
    }
}

} // verus!
