//! JSON values that the state carries without looking inside them, and the
//! text form in which they are stored.
//!
//! The values are `serde_json`'s own. The functions here call `serde_json`
//! and are believed, not proved. Each result is named after the call that
//! gives it; nothing is claimed about what the text looks like, nor that a
//! value comes back unchanged from its text. Of an object the library knows
//! what it holds under each key, and the order in which it hands its
//! entries out.

use vstd::prelude::*;

verus! {

#[verifier::external_type_specification]
#[verifier::external_body]
pub struct ExJsonValue(serde_json::Value);

#[verifier::external_type_specification]
#[verifier::external_body]
#[verifier::reject_recursive_types(K)]
#[verifier::reject_recursive_types(V)]
pub struct ExJsonMap<K, V>(serde_json::Map<K, V>);

/// A JSON object with string keys.
pub type JsonObject = serde_json::Map<String, serde_json::Value>;

/// The compact text of a JSON value, or `None` where it has none.
pub uninterp spec fn value_text(v: serde_json::Value) -> Option<Seq<char>>;

/// The JSON value that a text parses to, or `None` where it is no JSON.
pub uninterp spec fn text_value(text: Seq<char>) -> Option<serde_json::Value>;

/// The JSON string that holds exactly `s`.
pub uninterp spec fn string_value(s: Seq<char>) -> serde_json::Value;

/// The compact text of a JSON object, or `None` where it has none.
pub uninterp spec fn object_text(m: JsonObject) -> Option<Seq<char>>;

/// The JSON object that a text parses to, or `None` where it is not the text of one.
pub uninterp spec fn text_object(text: Seq<char>) -> Option<JsonObject>;

/// The compact text of a JSON array of strings, or `None` where it has none.
pub uninterp spec fn strings_text(l: Seq<Seq<char>>) -> Option<Seq<char>>;

/// The list of strings that a text parses to, or `None` where it is not
/// the text of a JSON array of strings.
pub uninterp spec fn text_strings(text: Seq<char>) -> Option<Seq<Seq<char>>>;

/// The object without keys: what the text `{}` parses to.
pub open spec fn empty_object() -> JsonObject {
    text_object("{}"@)->0
}

/// `Clone` for a value: the copy is the value.
pub assume_specification[ <serde_json::Value as Clone>::clone ](v: &serde_json::Value) -> (r: serde_json::Value)
    ensures
        r == *v,
;

/// `Clone` for an object: the copy is the object.
pub assume_specification[ <serde_json::Map<String, serde_json::Value> as Clone>::clone ](
    m: &serde_json::Map<String, serde_json::Value>,
) -> (r: serde_json::Map<String, serde_json::Value>)
    ensures
        r == *m,
;

/// `serde_json::to_string` on a value.
#[verifier::external_body]
pub(crate) fn encode_value(v: &serde_json::Value) -> (r: Option<String>)
    ensures
        r.deep_view() == value_text(*v),
{
    serde_json::to_string(v).ok()
}

/// `serde_json::from_str` to a value.
#[verifier::external_body]
pub(crate) fn decode_value(text: &str) -> (r: Option<serde_json::Value>)
    ensures
        r == text_value(text@),
{
    serde_json::from_str::<serde_json::Value>(text).ok()
}

/// `Value::String` (through `Value::from`) on a string.
#[verifier::external_body]
pub(crate) fn value_of_string(s: String) -> (r: serde_json::Value)
    ensures
        r == string_value(s@),
{
    serde_json::Value::from(s)
}

/// `serde_json::to_string` on an object.
#[verifier::external_body]
pub(crate) fn encode_object(m: &JsonObject) -> (r: Option<String>)
    ensures
        r.deep_view() == object_text(*m),
{
    serde_json::to_string(m).ok()
}

/// `serde_json::from_str` to an object.
#[verifier::external_body]
pub(crate) fn decode_object(text: &str) -> (r: Option<JsonObject>)
    ensures
        r == text_object(text@),
{
    serde_json::from_str::<JsonObject>(text).ok()
}

/// `Map::new`: the object without keys, which is also what `{}` parses to.
#[verifier::external_body]
pub(crate) fn new_object() -> (r: JsonObject)
    ensures
        text_object("{}"@) == Some(r),
{
    serde_json::Map::new()
}

/// What an object holds: its values by key.
pub uninterp spec fn object_fields(m: JsonObject) -> Map<Seq<char>, serde_json::Value>;

/// The keys of an object in the order in which it hands out its entries.
pub uninterp spec fn object_order(m: JsonObject) -> Seq<Seq<char>>;

/// The object that a value is, if it is one.
pub uninterp spec fn as_object(v: serde_json::Value) -> Option<JsonObject>;

/// The string that a value is, if it is one.
pub uninterp spec fn as_text(v: serde_json::Value) -> Option<Seq<char>>;

/// The items of the array that a value is, if it is one.
pub uninterp spec fn as_items(v: serde_json::Value) -> Option<Seq<serde_json::Value>>;

/// The JSON number that an integer is.
pub uninterp spec fn number_value(n: i64) -> serde_json::Value;

/// The JSON number that a count is.
pub uninterp spec fn index_value(n: nat) -> serde_json::Value;

/// The JSON array of the items.
pub uninterp spec fn array_value(items: Seq<serde_json::Value>) -> serde_json::Value;

/// `Map::insert`: the key holds the value afterwards, whatever it held before.
#[verifier::external_body]
pub(crate) fn object_insert(m: &mut JsonObject, key: String, value: serde_json::Value)
    ensures
        object_fields(*final(m)) == object_fields(*old(m)).insert(key@, value),
{
    m.insert(key, value);
}

/// `Map::remove`: the key holds nothing afterwards.
#[verifier::external_body]
pub(crate) fn object_remove(m: &mut JsonObject, key: &str)
    ensures
        object_fields(*final(m)) == object_fields(*old(m)).remove(key@),
{
    m.remove(key);
}

/// `Map::get`, the value copied.
#[verifier::external_body]
pub(crate) fn object_get(m: &JsonObject, key: &str) -> (r: Option<serde_json::Value>)
    ensures
        match r {
            Some(v) => object_fields(*m).contains_key(key@) && object_fields(*m)[key@] == v,
            None => !object_fields(*m).contains_key(key@),
        },
{
    m.get(key).cloned()
}

/// `Map::iter`, keys and values copied: the keys in the object's order,
/// each with what it holds.
#[verifier::external_body]
pub(crate) fn object_entries(m: &JsonObject) -> (r: Vec<(String, serde_json::Value)>)
    ensures
        r@.map_values(|e: (String, serde_json::Value)| e.0@) == object_order(*m),
        forall|i: int| 0 <= i < r.len() ==> (#[trigger] r[i]).1 == object_fields(*m)[r[i].0@],
{
    m.iter().map(|(k, v)| (k.clone(), v.clone())).collect()
}

/// `Value::as_object`, the object copied.
#[verifier::external_body]
pub(crate) fn value_object(v: &serde_json::Value) -> (r: Option<JsonObject>)
    ensures
        r == as_object(*v),
{
    v.as_object().cloned()
}

/// `Value::as_str`, the string copied.
#[verifier::external_body]
pub(crate) fn value_string(v: &serde_json::Value) -> (r: Option<String>)
    ensures
        r.deep_view() == as_text(*v),
{
    v.as_str().map(|s| s.to_string())
}

/// `Value::as_array`, the items copied.
#[verifier::external_body]
pub(crate) fn value_items(v: &serde_json::Value) -> (r: Option<Vec<serde_json::Value>>)
    ensures
        match r {
            Some(items) => as_items(*v) == Some(items@),
            None => as_items(*v) is None,
        },
{
    v.as_array().cloned()
}

/// `Value::Array` (through `Value::from`) on a list of values.
#[verifier::external_body]
pub(crate) fn value_of_items(items: Vec<serde_json::Value>) -> (r: serde_json::Value)
    ensures
        r == array_value(items@),
        as_items(r) == Some(items@),
{
    serde_json::Value::from(items)
}

/// `Value::Number` (through `Value::from`) on an integer.
#[verifier::external_body]
pub(crate) fn value_of_number(n: i64) -> (r: serde_json::Value)
    ensures
        r == number_value(n),
{
    serde_json::Value::from(n)
}

/// `Value::Number` (through `Value::from`) on a count.
#[verifier::external_body]
pub(crate) fn value_of_index(n: usize) -> (r: serde_json::Value)
    ensures
        r == index_value(n as nat),
{
    serde_json::Value::from(n)
}

/// `serde_json::to_string` on a list of strings.
#[verifier::external_body]
pub(crate) fn encode_strings(l: &Vec<String>) -> (r: Option<String>)
    ensures
        r.deep_view() == strings_text(l.deep_view()),
{
    serde_json::to_string(l).ok()
}

/// `serde_json::from_str` to a list of strings.
#[verifier::external_body]
pub(crate) fn decode_strings(text: &str) -> (r: Option<Vec<String>>)
    ensures
        r.deep_view() == text_strings(text@),
{
    serde_json::from_str::<Vec<String>>(text).ok()
}

} // verus!
