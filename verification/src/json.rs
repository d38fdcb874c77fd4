//! JSON documents as `serde_json` holds them, the values they stand for, and
//! the questions this library asks of them.

use serde_json::Value;
use vstd::prelude::*;

verus! {

/// A JSON value.
pub enum Json {
    Null,
    Bool(bool),
    /// A whole number.
    Integer(int),
    /// A number held as a floating-point number, by its bits.
    Float(u64),
    Text(Seq<char>),
    Array(Seq<Json>),
    Object(Map<Seq<char>, Json>),
}

/// `serde_json::Value`, a JSON value in memory.
#[verifier::external_type_specification]
#[verifier::external_body]
pub struct ExValue(serde_json::Value);

/// `serde_json::Map`, the members of a JSON object in memory.
#[verifier::external_type_specification]
#[verifier::external_body]
#[verifier::reject_recursive_types(K)]
#[verifier::reject_recursive_types(V)]
pub struct ExObject<K, V>(serde_json::Map<K, V>);

/// `serde_json::Error`, why a text is not JSON.
#[verifier::external_type_specification]
#[verifier::external_body]
pub struct ExJsonError(serde_json::Error);

/// The JSON value that `value` holds.
pub uninterp spec fn json_view(value: Value) -> Json;

/// The members that `object` holds, by key.
pub uninterp spec fn members(object: serde_json::Map<String, Value>) -> Map<Seq<char>, Json>;

/// The JSON value that `text` is the text of, if it is one.
pub uninterp spec fn parsed(text: Seq<char>) -> Option<Json>;

/// The value inside `doc` that the JSON Pointer `path` leads to, if any.
pub uninterp spec fn pointed(doc: Json, path: Seq<char>) -> Option<Json>;

/// The members of an object that has none.
pub open spec fn no_members() -> Map<Seq<char>, Json> {
    Map::empty()
}

/// The JSON values that `values` hold.
pub open spec fn json_views(values: Seq<Value>) -> Seq<Json> {
    values.map_values(|value: Value| json_view(value))
}

/// `serde_json::from_str` at the type `Value`: the value that the text
/// stands for, or an error if the text is not JSON. Which of the two, and
/// which value, depends on the text alone.
#[verifier::external_body]
pub(crate) fn from_str(text: &str) -> (r: Result<Value, serde_json::Error>)
    ensures
        match r {
            Ok(doc) => parsed(text@) == Some(json_view(doc)),
            Err(_) => parsed(text@) is None,
        },
{
    serde_json::from_str::<Value>(text)
}

/// `Value::pointer`: the value that a JSON Pointer (RFC 6901) addresses
/// inside the document, or `None` if there is no such value. The answer
/// depends on the document's value and the pointer alone.
#[verifier::external_body]
pub(crate) fn pointer<'a>(doc: &'a Value, path: &str) -> (r: Option<&'a Value>)
    ensures
        match r {
            Some(value) => pointed(json_view(*doc), path@) == Some(json_view(*value)),
            None => pointed(json_view(*doc), path@) is None,
        },
{
    doc.pointer(path)
}

/// `Value::as_object`: the map of an object, `None` for any other value.
#[verifier::external_body]
pub(crate) fn as_object<'a>(value: &'a Value) -> (r: Option<&'a serde_json::Map<String, Value>>)
    ensures
        match json_view(*value) {
            Json::Object(held) => r is Some && members(*r->0) == held,
            _ => r is None,
        },
{
    value.as_object()
}

/// `Value::as_array`: the vector of an array, `None` for any other value.
#[verifier::external_body]
pub(crate) fn as_array<'a>(value: &'a Value) -> (r: Option<&'a Vec<Value>>)
    ensures
        match json_view(*value) {
            Json::Array(elements) => r is Some && json_views(r->0@) == elements,
            _ => r is None,
        },
{
    value.as_array()
}

/// `Value::as_str`: the text of a string, `None` for any other value.
#[verifier::external_body]
pub(crate) fn as_str<'a>(value: &'a Value) -> (r: Option<&'a str>)
    ensures
        match json_view(*value) {
            Json::Text(text) => r is Some && r->0@ == text,
            _ => r is None,
        },
{
    value.as_str()
}

/// `Map::iter`, with each key and value cloned: every member of the object
/// once, and nothing else. The order is the map's own and is not stated.
#[verifier::external_body]
pub(crate) fn entries(object: &serde_json::Map<String, Value>) -> (r: Vec<(String, Value)>)
    ensures
        forall|i: int, j: int| 0 <= i < j < r@.len() ==> r@[i].0@ != r@[j].0@,
        forall|i: int|
            0 <= i < r@.len() ==> members(*object).contains_key(#[trigger] r@[i].0@) && members(
                *object,
            )[r@[i].0@] == json_view(r@[i].1),
        forall|key: Seq<char>| #[trigger]
            members(*object).contains_key(key) ==> exists|i: int|
                0 <= i < r@.len() && #[trigger] r@[i].0@ == key,
{
    object.iter().map(|(key, value)| (key.clone(), value.clone())).collect()
}

/// `Value::clone`: a second value that holds the same JSON value.
pub assume_specification[ <Value as Clone>::clone ](value: &Value) -> (r: Value)
    ensures
        json_view(r) == json_view(*value),
;

/// `Value::from` a `String`: the string with that text.
#[verifier::external_body]
pub(crate) fn text_value(text: String) -> (r: Value)
    ensures
        json_view(r) == Json::Text(text@),
{
    Value::from(text)
}

/// `Value::from` a `u8`: that whole number.
#[verifier::external_body]
pub(crate) fn integer_value(n: u8) -> (r: Value)
    ensures
        json_view(r) == Json::Integer(n as int),
{
    Value::from(n)
}

/// `Value::from` a `bool`: that truth value.
#[verifier::external_body]
pub(crate) fn bool_value(b: bool) -> (r: Value)
    ensures
        json_view(r) == Json::Bool(b),
{
    Value::from(b)
}

/// `Value::from` a vector of values: the array of these values, in order.
#[verifier::external_body]
pub(crate) fn array_value(elements: Vec<Value>) -> (r: Value)
    ensures
        json_view(r) == Json::Array(json_views(elements@)),
{
    Value::from(elements)
}

/// `Map::new`: an object without members.
#[verifier::external_body]
pub(crate) fn new_object() -> (r: serde_json::Map<String, Value>)
    ensures
        members(r) == no_members(),
{
    serde_json::Map::new()
}

/// `Map::insert`: the member under `key` becomes `value`, whether or not
/// the object had a member under that key; the other members stay.
#[verifier::external_body]
pub(crate) fn insert(object: &mut serde_json::Map<String, Value>, key: String, value: Value)
    ensures
        members(*final(object)) == members(*old(object)).insert(key@, json_view(value)),
{
    object.insert(key, value);
}

/// `Value::from` a map: the object with the map's members.
#[verifier::external_body]
pub(crate) fn object_value(object: serde_json::Map<String, Value>) -> (r: Value)
    ensures
        json_view(r) == Json::Object(members(object)),
{
    Value::from(object)
}

} // verus!
