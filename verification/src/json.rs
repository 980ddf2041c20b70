//! JSON values of `serde_json`, by what they hold.

use vstd::prelude::*;

verus! {

/// A JSON value. A number that is not an integer is given by its text.
pub enum Json {
    Null,
    Bool(bool),
    Int(int),
    Real(Seq<char>),
    Text(Seq<char>),
    List(Seq<Json>),
    Object(Map<Seq<char>, Json>),
}

/// A value of `serde_json`.
#[verifier::external_type_specification]
#[verifier::external_body]
pub struct ExJsonValue(serde_json::Value);

/// What a value of `serde_json` holds.
pub uninterp spec fn json_model(v: serde_json::Value) -> Json;

/// The text that `serde_json::to_string` writes for a value; `None` where it
/// fails.
pub uninterp spec fn json_text(v: Json) -> Option<Seq<char>>;

/// What the values of a list hold.
pub open spec fn json_models(v: Seq<serde_json::Value>) -> Seq<Json> {
    v.map_values(|x: serde_json::Value| json_model(x))
}

/// An object of `serde_json`.
#[verifier::external_type_specification]
#[verifier::external_body]
#[verifier::reject_recursive_types(K)]
#[verifier::reject_recursive_types(V)]
pub struct ExJsonMap<K, V>(serde_json::Map<K, V>);

/// What an object of `serde_json` holds: each key with what its value holds.
pub uninterp spec fn object_entries(m: serde_json::Map<String, serde_json::Value>) -> Map<
    Seq<char>,
    Json,
>;

/// An object without entries.
pub open spec fn no_entries() -> Map<Seq<char>, Json> {
    Map::empty()
}

/// `serde_json::Value::clone` gives an equal value.
pub assume_specification[ <serde_json::Value as Clone>::clone ](v: &serde_json::Value) -> (r:
    serde_json::Value)
    ensures
        r == *v,
;

/// `serde_json::Value::Null`: the null value.
#[verifier::external_body]
pub(crate) fn json_null() -> (r: serde_json::Value)
    ensures
        json_model(r) == Json::Null,
{
    serde_json::Value::Null
}

/// `serde_json::Value::from(bool)`: the truth value.
#[verifier::external_body]
pub(crate) fn json_bool(b: bool) -> (r: serde_json::Value)
    ensures
        json_model(r) == Json::Bool(b),
{
    serde_json::Value::from(b)
}

/// `serde_json::Value::from(i64)`: the integer.
#[verifier::external_body]
pub(crate) fn json_i64(n: i64) -> (r: serde_json::Value)
    ensures
        json_model(r) == Json::Int(n as int),
{
    serde_json::Value::from(n)
}

/// `serde_json::Value::from(u64)`: the integer.
#[verifier::external_body]
pub(crate) fn json_u64(n: u64) -> (r: serde_json::Value)
    ensures
        json_model(r) == Json::Int(n as int),
{
    serde_json::Value::from(n)
}

/// `serde_json::Value::from(&str)`: the string.
#[verifier::external_body]
pub(crate) fn json_str(s: &str) -> (r: serde_json::Value)
    ensures
        json_model(r) == Json::Text(s@),
{
    serde_json::Value::from(s)
}

/// `serde_json::Value::from(Vec<Value>)`: the array of the values, in order.
#[verifier::external_body]
pub(crate) fn json_list(items: Vec<serde_json::Value>) -> (r: serde_json::Value)
    ensures
        json_model(r) == Json::List(json_models(items@)),
{
    serde_json::Value::from(items)
}

/// `serde_json::Map::new`: an object without entries.
#[verifier::external_body]
pub(crate) fn object_new() -> (r: serde_json::Map<String, serde_json::Value>)
    ensures
        object_entries(r) == no_entries(),
{
    serde_json::Map::new()
}

/// `serde_json::Map::insert`: the key holds the value from then on, and every
/// other entry stays.
#[verifier::external_body]
pub(crate) fn object_put(
    m: &mut serde_json::Map<String, serde_json::Value>,
    key: String,
    value: serde_json::Value,
)
    ensures
        object_entries(*final(m)) == object_entries(*old(m)).insert(key@, json_model(value)),
{
    m.insert(key, value);
}

/// `serde_json::Value::from(Map)`: the object.
#[verifier::external_body]
pub(crate) fn json_object(m: serde_json::Map<String, serde_json::Value>) -> (r: serde_json::Value)
    ensures
        json_model(r) == Json::Object(object_entries(m)),
{
    serde_json::Value::from(m)
}

/// `serde_json::to_string` on a value, `None` where it fails. The text is a function
/// of what the value holds; its layout is `serde_json`'s own.
#[verifier::external_body]
pub(crate) fn json_to_string(v: &serde_json::Value) -> (r: Option<String>)
    ensures
        r is Some == (json_text(json_model(*v)) is Some),
        r matches Some(s) ==> json_text(json_model(*v)) == Some(s@),
{
    serde_json::to_string(v).ok()
}

} // verus!
