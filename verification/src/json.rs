//! The JSON documents that travel in datagrams, as `serde_json` reads and
//! writes them.
//!
//! Parsing and printing are left to `serde_json`. This module gives a
//! mathematical model of a document, [`Json`], and states of each call into
//! `serde_json` what it does in terms of that model. Those statements are
//! taken on trust; everything built on them is proved.

use vstd::prelude::*;

verus! {

/// A JSON document as a mathematical value.
pub enum Json {
    Null,
    Bool(bool),
    /// An integer number, between `i64::MIN` and `u64::MAX`.
    Int(int),
    /// Any other number, by the bit pattern of its double.
    Real(u64),
    Text(Seq<char>),
    List(Seq<Json>),
    Object(Map<Seq<char>, Json>),
}

/// `serde_json::Value`, carried as it is. What a value holds is known only
/// through [`json_of`].
#[verifier::external_type_specification]
#[verifier::external_body]
pub struct ExValue(serde_json::Value);

/// `serde_json::Error`, carried as it is. Nothing is known of what an error
/// holds.
#[verifier::external_type_specification]
#[verifier::external_body]
pub struct ExError(serde_json::Error);

/// The document that a `serde_json::Value` holds.
pub uninterp spec fn json_of(v: serde_json::Value) -> Json;

/// The document that `serde_json::from_slice` reads from `bytes`, or `None`
/// where it reports an error.
pub uninterp spec fn json_parse(bytes: Seq<u8>) -> Option<Json>;

/// The bytes that `serde_json::to_vec` writes for a value holding `doc`, or
/// `None` where it reports an error.
pub uninterp spec fn json_text(doc: Json) -> Option<Seq<u8>>;

/// `serde_json::from_slice` at type `Value`: the outcome depends on the bytes
/// alone, and [`json_parse`] names it.
#[verifier::external_body]
pub(crate) fn parse(bytes: &[u8]) -> (r: Result<serde_json::Value, serde_json::Error>)
    ensures
        match r {
            Ok(v) => json_parse(bytes@) == Some(json_of(v)),
            Err(_) => json_parse(bytes@) is None,
        },
{
    serde_json::from_slice::<serde_json::Value>(bytes)
}

/// `Value::get` with a string index: the member of an object under `key`,
/// and `None` for a missing key or a value that is no object.
#[verifier::external_body]
pub(crate) fn member<'a>(v: &'a serde_json::Value, key: &str) -> (r: Option<&'a serde_json::Value>)
    ensures
        match json_of(*v) {
            Json::Object(m) if m.contains_key(key@) => r is Some && json_of(*r->0) == m[key@],
            _ => r is None,
        },
{
    v.get(key)
}

/// `Value::as_str`: the text of a JSON string, and `None` for any other value.
#[verifier::external_body]
pub(crate) fn as_text<'a>(v: &'a serde_json::Value) -> (r: Option<&'a str>)
    ensures
        match json_of(*v) {
            Json::Text(s) => r is Some && r->0@ == s,
            _ => r is None,
        },
{
    v.as_str()
}

/// `Value::as_u64`: the value of a non-negative integer number, and `None`
/// for a negative or fractional number and for any value that is no number.
#[verifier::external_body]
pub(crate) fn as_number(v: &serde_json::Value) -> (r: Option<u64>)
    ensures
        match json_of(*v) {
            Json::Int(i) if 0 <= i <= u64::MAX => r == Some(i as u64),
            _ => r is None,
        },
{
    v.as_u64()
}

/// `Map::new` inside `Value::Object`: an object without members.
#[verifier::external_body]
pub(crate) fn empty_object() -> (r: serde_json::Value)
    ensures
        json_of(r) == Json::Object(Map::empty()),
{
    serde_json::Value::Object(serde_json::Map::new())
}

/// `Map::insert` on the map of an object: `key` now leads to `value`, the
/// other members stay. A value that is no object is left as it is.
#[verifier::external_body]
pub(crate) fn put_member(object: &mut serde_json::Value, key: &str, value: serde_json::Value)
    ensures
        json_of(*final(object)) == match json_of(*old(object)) {
            Json::Object(m) => Json::Object(m.insert(key@, json_of(value))),
            other => other,
        },
{
    if let serde_json::Value::Object(map) = object {
        map.insert(key.to_owned(), value);
    }
}

/// `Value::from` on a string slice: a JSON string with the same text.
#[verifier::external_body]
pub(crate) fn text_value(text: &str) -> (r: serde_json::Value)
    ensures
        json_of(r) == Json::Text(text@),
{
    serde_json::Value::from(text)
}

/// `Value::from` on a `u64`: the integer number `n`.
#[verifier::external_body]
pub(crate) fn number_value(n: u64) -> (r: serde_json::Value)
    ensures
        json_of(r) == Json::Int(n as int),
{
    serde_json::Value::from(n)
}

/// `serde_json::to_vec` on a `Value`: the outcome depends on the document
/// alone, and [`json_text`] names it.
#[verifier::external_body]
pub(crate) fn print(v: &serde_json::Value) -> (r: Result<Vec<u8>, serde_json::Error>)
    ensures
        match r {
            Ok(bytes) => json_text(json_of(*v)) == Some(bytes@),
            Err(_) => json_text(json_of(*v)) is None,
        },
{
    serde_json::to_vec(v)
}

} // verus!
