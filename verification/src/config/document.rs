//! TOML documents of the `toml` crate, by what they hold.

use vstd::prelude::*;

use crate::text::{names, text_le};

verus! {

/// A TOML value. A float and a date-time are given by their text.
pub enum Toml {
    Text(Seq<char>),
    Int(i64),
    Real(Seq<char>),
    Bool(bool),
    Time(Seq<char>),
    List(Seq<Toml>),
    Table(Map<Seq<char>, Toml>),
}

/// A value of the `toml` crate.
#[verifier::external_type_specification]
#[verifier::external_body]
pub struct ExTomlValue(toml::Value);

/// A table of the `toml` crate.
#[verifier::external_type_specification]
#[verifier::external_body]
#[verifier::reject_recursive_types(K)]
#[verifier::reject_recursive_types(V)]
pub struct ExTomlMap<K, V>(toml::map::Map<K, V>);

/// What a value of the `toml` crate holds.
pub uninterp spec fn toml_model(v: toml::Value) -> Toml;

/// What a table of the `toml` crate holds: each key with what its value holds.
pub uninterp spec fn table_model(t: toml::map::Map<String, toml::Value>) -> Map<Seq<char>, Toml>;

/// What `toml::from_str` reads from a text: a table, or the message of its error.
pub uninterp spec fn toml_parsed(text: Seq<char>) -> Result<Map<Seq<char>, Toml>, Seq<char>>;

/// What `toml::to_string_pretty` writes for a table: a text, or the message of its
/// error.
pub uninterp spec fn toml_printed(m: Map<Seq<char>, Toml>) -> Result<Seq<char>, Seq<char>>;

/// A table without entries.
pub open spec fn no_keys() -> Map<Seq<char>, Toml> {
    Map::empty()
}

/// What the values of a list hold.
pub open spec fn toml_models(v: Seq<toml::Value>) -> Seq<Toml> {
    v.map_values(|x: toml::Value| toml_model(x))
}

/// `toml::from_str` into a table. What it accepts, and the words of its error, are
/// the crate's own.
#[verifier::external_body]
pub(crate) fn toml_parse(text: &str) -> (r: Result<toml::map::Map<String, toml::Value>, String>)
    ensures
        r is Ok == (toml_parsed(text@) is Ok),
        r matches Ok(t) ==> toml_parsed(text@)->Ok_0 == table_model(t),
        r matches Err(e) ==> toml_parsed(text@)->Err_0 == e@,
{
    toml::from_str(text).map_err(|e: toml::de::Error| e.to_string())
}

/// `toml::to_string_pretty` of a table. The layout, and the words of its error, are
/// the crate's own; that the text reads back as the table is left unsaid.
#[verifier::external_body]
pub(crate) fn toml_print(t: &toml::map::Map<String, toml::Value>) -> (r: Result<String, String>)
    ensures
        r is Ok == (toml_printed(table_model(*t)) is Ok),
        r matches Ok(s) ==> toml_printed(table_model(*t))->Ok_0 == s@,
        r matches Err(e) ==> toml_printed(table_model(*t))->Err_0 == e@,
{
    toml::to_string_pretty(t).map_err(|e| e.to_string())
}

/// `toml::map::Map::new`: a table without entries.
#[verifier::external_body]
pub(crate) fn table_new() -> (r: toml::map::Map<String, toml::Value>)
    ensures
        table_model(r) == no_keys(),
{
    toml::map::Map::new()
}

/// `toml::map::Map::insert`: the key holds the value from then on, and every other
/// entry stays.
#[verifier::external_body]
pub(crate) fn table_put(
    t: &mut toml::map::Map<String, toml::Value>,
    key: String,
    value: toml::Value,
)
    ensures
        table_model(*final(t)) == table_model(*old(t)).insert(key@, toml_model(value)),
{
    t.insert(key, value);
}

/// `toml::map::Map::remove`: the key's value leaves the table, where there is one.
#[verifier::external_body]
pub(crate) fn table_take(t: &mut toml::map::Map<String, toml::Value>, key: &str) -> (r: Option<
    toml::Value,
>)
    ensures
        table_model(*final(t)) == table_model(*old(t)).remove(key@),
        r is Some == table_model(*old(t)).dom().contains(key@),
        r matches Some(v) ==> toml_model(v) == table_model(*old(t))[key@],
{
    t.remove(key)
}

/// `toml::map::Map::is_empty`: no key has a value.
#[verifier::external_body]
pub(crate) fn table_is_empty(t: &toml::map::Map<String, toml::Value>) -> (r: bool)
    ensures
        r == (table_model(*t) == no_keys()),
{
    t.is_empty()
}

/// `toml::map::Map::keys`: the keys, each once, in text order.
#[verifier::external_body]
pub(crate) fn table_keys(t: &toml::map::Map<String, toml::Value>) -> (r: Vec<String>)
    ensures
        forall|i: int| 0 <= i < r@.len() ==> table_model(*t).dom().contains(#[trigger] names(r@)[i]),
        forall|k: Seq<char>| table_model(*t).dom().contains(k) ==> names(r@).contains(k),
        forall|i: int, j: int|
            0 <= i < j < r@.len() ==> #[trigger] names(r@)[i] != #[trigger] names(r@)[j],
        forall|i: int, j: int|
            0 <= i < j < r@.len() ==> text_le(#[trigger] names(r@)[i], #[trigger] names(r@)[j]),
{
    t.keys().cloned().collect()
}

/// The table that a `toml::Value::Table` holds; any other value comes back.
#[verifier::external_body]
pub(crate) fn value_into_table(v: toml::Value) -> (r: Result<
    toml::map::Map<String, toml::Value>,
    toml::Value,
>)
    ensures
        r is Ok == (toml_model(v) is Table),
        r matches Ok(t) ==> toml_model(v) == Toml::Table(table_model(t)),
        r matches Err(w) ==> toml_model(w) == toml_model(v),
{
    match v {
        toml::Value::Table(t) => Ok(t),
        other => Err(other),
    }
}

/// The values that a `toml::Value::Array` holds; any other value comes back.
#[verifier::external_body]
pub(crate) fn value_into_list(v: toml::Value) -> (r: Result<Vec<toml::Value>, toml::Value>)
    ensures
        r is Ok == (toml_model(v) is List),
        r matches Ok(l) ==> toml_model(v) == Toml::List(toml_models(l@)),
        r matches Err(w) ==> toml_model(w) == toml_model(v),
{
    match v {
        toml::Value::Array(l) => Ok(l),
        other => Err(other),
    }
}

/// `toml::Value::as_str`: the text of a string value.
#[verifier::external_body]
pub(crate) fn value_text<'a>(v: &'a toml::Value) -> (r: Option<&'a str>)
    ensures
        r is Some == (toml_model(*v) is Text),
        r matches Some(s) ==> toml_model(*v) == Toml::Text(s@),
{
    v.as_str()
}

/// `toml::Value::is_datetime`: whether a value is a date-time.
#[verifier::external_body]
pub(crate) fn value_is_time(v: &toml::Value) -> (r: bool)
    ensures
        r == (toml_model(*v) is Time),
{
    v.is_datetime()
}

/// `toml::Value::from(&str)`: the string value.
#[verifier::external_body]
pub(crate) fn toml_text(s: &str) -> (r: toml::Value)
    ensures
        toml_model(r) == Toml::Text(s@),
{
    toml::Value::from(s)
}

/// `toml::Value::from(bool)`: the boolean value.
#[verifier::external_body]
pub(crate) fn toml_bool(b: bool) -> (r: toml::Value)
    ensures
        toml_model(r) == Toml::Bool(b),
{
    toml::Value::from(b)
}

/// `toml::Value::Array`: the array of the values, in order.
#[verifier::external_body]
pub(crate) fn toml_list(items: Vec<toml::Value>) -> (r: toml::Value)
    ensures
        toml_model(r) == Toml::List(toml_models(items@)),
{
    toml::Value::Array(items)
}

/// `toml::Value::Table`: the table as a value.
#[verifier::external_body]
pub(crate) fn toml_table(t: toml::map::Map<String, toml::Value>) -> (r: toml::Value)
    ensures
        toml_model(r) == Toml::Table(table_model(t)),
{
    toml::Value::Table(t)
}

} // verus!
