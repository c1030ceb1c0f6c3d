//! JSON documents, read and written through `serde_json`.
use crate::text::digits;
use vstd::prelude::*;

verus! {

/// A JSON document. A number is held as it is printed, with its value where it
/// is an integer of 64 signed bits.
pub enum Json {
    Null,
    Flag(bool),
    Number { text: Seq<char>, integer: Option<i64> },
    Text(Seq<char>),
    Array(Seq<Json>),
    Object(Map<Seq<char>, Json>),
}

/// What an object holds under a key.
pub open spec fn json_field(j: Json, key: Seq<char>) -> Option<Json> {
    match j {
        Json::Object(m) => if m.contains_key(key) {
            Some(m[key])
        } else {
            None
        },
        _ => None,
    }
}

/// A `serde_json` value.
#[verifier::external_type_specification]
#[verifier::external_body]
pub struct ExValue(serde_json::Value);

/// The document that a `serde_json` value holds.
pub uninterp spec fn json_of(v: serde_json::Value) -> Json;

/// The document that `serde_json::from_slice` reads from bytes, if it accepts them.
pub uninterp spec fn json_parse(data: Seq<u8>) -> Option<Json>;

/// The compact text that `serde_json` prints for a document.
pub uninterp spec fn json_text(j: Json) -> Seq<char>;

/// The documents that values hold.
pub open spec fn jsons(v: Seq<serde_json::Value>) -> Seq<Json> {
    v.map_values(|x: serde_json::Value| json_of(x))
}

/// `serde_json::from_slice`: the document that the bytes hold is a function of
/// the bytes, and so is whether they hold one.
#[verifier::external_body]
pub(crate) fn parse_json(data: &[u8]) -> (r: Option<serde_json::Value>)
    ensures
        r is Some <==> json_parse(data@) is Some,
        r matches Some(v) ==> json_of(v) == json_parse(data@)->0,
{
    serde_json::from_slice(data).ok()
}

/// `serde_json::Value::get` with a text: what an object holds under a key, and
/// nothing where the value is no object or does not hold the key.
#[verifier::external_body]
pub(crate) fn field<'a>(v: &'a serde_json::Value, key: &str) -> (r: Option<&'a serde_json::Value>)
    ensures
        match json_field(json_of(*v), key@) {
            Some(j) => r matches Some(x) && json_of(*x) == j,
            None => r is None,
        },
{
    v.get(key)
}

/// `serde_json::Value::as_array`: the elements of an array, in order.
#[verifier::external_body]
pub(crate) fn elements(v: &serde_json::Value) -> (r: Option<&Vec<serde_json::Value>>)
    ensures
        match json_of(*v) {
            Json::Array(a) => r matches Some(x) && jsons(x@) == a,
            _ => r is None,
        },
{
    v.as_array()
}

/// `serde_json::Value::as_str`: the characters of a text.
#[verifier::external_body]
pub(crate) fn text_of(v: &serde_json::Value) -> (r: Option<&str>)
    ensures
        match json_of(*v) {
            Json::Text(s) => r matches Some(x) && x@ == s,
            _ => r is None,
        },
{
    v.as_str()
}

/// `serde_json::Value::as_i64`: the value of a number that is an integer of 64
/// signed bits.
#[verifier::external_body]
pub(crate) fn integer_of(v: &serde_json::Value) -> (r: Option<i64>)
    ensures
        match json_of(*v) {
            Json::Number { text, integer } => r == integer,
            _ => r is None,
        },
{
    v.as_i64()
}

/// A number as `serde_json::Number` prints it.
#[verifier::external_body]
pub(crate) fn number_text(v: &serde_json::Value) -> (r: Option<String>)
    ensures
        match json_of(*v) {
            Json::Number { text, integer } => r matches Some(x) && x@ == text,
            _ => r is None,
        },
{
    match v {
        serde_json::Value::Number(n) => Some(n.to_string()),
        _ => None,
    }
}

/// `serde_json::Value::from` of a text.
#[verifier::external_body]
pub(crate) fn text_value(s: &str) -> (r: serde_json::Value)
    ensures
        json_of(r) == Json::Text(s@),
{
    serde_json::Value::from(s)
}

/// `serde_json::Value::from` of an unsigned integer, which is printed in decimal.
#[verifier::external_body]
pub(crate) fn number_value(n: u64) -> (r: serde_json::Value)
    ensures
        json_of(r) == (Json::Number {
            text: digits(n as nat),
            integer: if n <= 0x7fff_ffff_ffff_ffff {
                Some(n as i64)
            } else {
                None
            },
        }),
{
    serde_json::Value::from(n)
}

/// `serde_json::Value::from` of a vector of values.
#[verifier::external_body]
pub(crate) fn array_value(v: Vec<serde_json::Value>) -> (r: serde_json::Value)
    ensures
        json_of(r) == Json::Array(jsons(v@)),
{
    serde_json::Value::from(v)
}

/// `serde_json::Value::from` of a map without entries.
#[verifier::external_body]
pub(crate) fn object_value() -> (r: serde_json::Value)
    ensures
        json_of(r) == Json::Object(Map::<Seq<char>, Json>::empty()),
{
    serde_json::Value::from(serde_json::Map::new())
}

/// `IndexMut` of `serde_json::Value` with a text: puts a value under a key of
/// an object.
#[verifier::external_body]
pub(crate) fn set_field(v: &mut serde_json::Value, key: &str, item: serde_json::Value)
    requires
        json_of(*old(v)) is Object,
    ensures
        json_of(*final(v)) == Json::Object(json_of(*old(v))->Object_0.insert(key@, json_of(item))),
{
    v[key] = item;
}

/// `Display` of `serde_json::Value`: the compact text, a function of the document.
#[verifier::external_body]
pub(crate) fn render(v: &serde_json::Value) -> (r: String)
    ensures
        r@ == json_text(json_of(*v)),
{
    v.to_string()
}

} // verus!
