//! JSON values as `serde_json` holds them.
//!
//! A `serde_json::Value` is a tree of string-keyed maps and arrays. [`json`]
//! names what such a tree holds, and the functions below say over that name
//! what the `serde_json` calls made by this crate do.

use serde_json::Value;
use vstd::prelude::*;

verus! {

/// What a JSON value holds.
pub enum Json {
    Null,
    Bool(bool),
    /// A number held as an integer.
    Int(int),
    /// A number held in floating point, by its bit pattern.
    Float(int),
    Text(Seq<char>),
    Array(Seq<Json>),
    Object(Map<Seq<char>, Json>),
}

/// The member of an object under `key`; nothing else has members.
pub open spec fn member(j: Json, key: Seq<char>) -> Option<Json> {
    match j {
        Json::Object(m) => if m.dom().contains(key) {
            Some(m[key])
        } else {
            None
        },
        _ => None,
    }
}

/// The text of a string value.
pub open spec fn text_of(j: Json) -> Option<Seq<char>> {
    match j {
        Json::Text(s) => Some(s),
        _ => None,
    }
}

/// The value of a number held as an integer that fits `u64`.
pub open spec fn uint_of(j: Json) -> Option<u64> {
    match j {
        Json::Int(n) => if 0 <= n <= u64::MAX {
            Some(n as u64)
        } else {
            None
        },
        _ => None,
    }
}

/// The text under `key`, or nothing where there is no text.
pub open spec fn member_text(j: Json, key: Seq<char>) -> Option<Seq<char>> {
    match member(j, key) {
        Some(x) => text_of(x),
        None => None,
    }
}

/// How many levels of nested arrays and objects `serde_json::from_str` follows.
pub open spec fn max_nesting() -> nat {
    127
}

/// Values that keep their meaning when written as text and read back: at most
/// `depth` levels of nesting and no number in floating point.
pub open spec fn storable(j: Json, depth: nat) -> bool
    decreases depth,
{
    match j {
        Json::Float(_) => false,
        Json::Array(s) => depth > 0 && forall|i: int|
            0 <= i < s.len() ==> storable(#[trigger] s[i], (depth - 1) as nat),
        Json::Object(m) => depth > 0 && forall|k: Seq<char>| #[trigger]
            m.dom().contains(k) ==> storable(m[k], (depth - 1) as nat),
        _ => true,
    }
}

/// Whether reading what is written for a value gives that value.
pub open spec fn reads_back(j: Json) -> bool {
    parsed(printed(j)) == Some(j)
}

/// The members that a list of pairs makes: of two pairs with one key the later
/// one stays.
pub open spec fn members_of(pairs: Seq<(String, Value)>) -> Map<Seq<char>, Json>
    decreases pairs.len(),
{
    if pairs.len() == 0 {
        Map::empty()
    } else {
        members_of(pairs.drop_last()).insert(pairs.last().0@, json(pairs.last().1))
    }
}

/// A JSON value of `serde_json`.
#[verifier::external_type_specification]
#[verifier::external_body]
pub struct ExValue(serde_json::Value);

/// What a `serde_json` value holds.
pub uninterp spec fn json(v: serde_json::Value) -> Json;

/// What `serde_json::from_str` reads from a text, where it reads anything.
pub uninterp spec fn parsed(text: Seq<char>) -> Option<Json>;

/// What the error of `serde_json::from_str` says about a text it refuses.
pub uninterp spec fn parse_complaint(text: Seq<char>) -> Seq<char>;

/// What `serde_json::to_string` writes for a value.
pub uninterp spec fn printed(j: Json) -> Seq<char>;

/// `Value::as_str`: the text of a string, nothing for any other value.
pub assume_specification[ serde_json::Value::as_str ](v: &serde_json::Value) -> (r: Option<&str>)
    ensures
        match r {
            Some(s) => text_of(json(*v)) == Some(s@),
            None => text_of(json(*v)) is None,
        },
;

/// `Value::as_u64`: the value of a number held as an unsigned integer.
pub assume_specification[ serde_json::Value::as_u64 ](v: &serde_json::Value) -> (r: Option<u64>)
    ensures
        r == uint_of(json(*v)),
;

/// `Value::clone` copies the whole tree.
pub assume_specification[ <serde_json::Value as Clone>::clone ](v: &serde_json::Value) -> (r:
    serde_json::Value)
    ensures
        json(r) == json(*v),
;

/// `Value::default` is the null value.
pub assume_specification[ <serde_json::Value as Default>::default ]() -> (r: serde_json::Value)
    ensures
        json(r) == Json::Null,
;

/// `Value::get` with a string index: the member of an object under that key,
/// nothing where the key is missing or the value is no object.
#[verifier::external_body]
pub(crate) fn get<'a>(v: &'a Value, key: &str) -> (r: Option<&'a Value>)
    ensures
        match r {
            Some(x) => member(json(*v), key@) == Some(json(*x)),
            None => member(json(*v), key@) is None,
        },
{
    v.get(key)
}

/// `serde_json::from_str` into a value. The result and the text of the error
/// depend on `text` alone.
#[verifier::external_body]
pub(crate) fn parse(text: &str) -> (r: Result<Value, String>)
    ensures
        match r {
            Ok(v) => parsed(text@) == Some(json(v)),
            Err(e) => parsed(text@) is None && e@ == parse_complaint(text@),
        },
{
    serde_json::from_str(text).map_err(|e| e.to_string())
}

/// `serde_json::to_string` of a value. Writing a value into memory does not
/// fail, and [`parse`] gives back what was written, as long as the value keeps
/// within the nesting that `from_str` follows and holds no floating point.
#[verifier::external_body]
pub(crate) fn print(v: &Value) -> (r: Result<String, String>)
    ensures
        r is Ok,
        r->Ok_0@ == printed(json(*v)),
        storable(json(*v), max_nesting()) ==> parsed(r->Ok_0@) == Some(json(*v)),
{
    serde_json::to_string(v).map_err(|e| e.to_string())
}

/// `Value::from` of a string.
#[verifier::external_body]
pub(crate) fn from_text(s: String) -> (r: Value)
    ensures
        json(r) == Json::Text(s@),
{
    Value::from(s)
}

/// `Value::from` of an unsigned integer.
#[verifier::external_body]
pub(crate) fn from_uint(n: usize) -> (r: Value)
    ensures
        json(r) == Json::Int(n as int),
{
    Value::from(n)
}

/// `Value::from_iter` over pairs: the object with those members.
#[verifier::external_body]
pub(crate) fn from_pairs(pairs: Vec<(String, Value)>) -> (r: Value)
    ensures
        json(r) == Json::Object(members_of(pairs@)),
{
    Value::from_iter(pairs)
}

} // verus!
