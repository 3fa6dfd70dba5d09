use jsonpath_rust::JsonPathQuery;
use vstd::prelude::*;

use crate::text::opt_view;

verus! {

#[verifier::external_type_specification]
#[verifier::external_body]
pub struct ExValue(serde_json::Value);

#[verifier::external_type_specification]
#[verifier::external_body]
pub struct ExJsonSchema(jsonschema::JSONSchema);

/// Relies on the derived `Clone` of `serde_json::Value`: a deep copy, equal to
/// the original.
pub assume_specification[ <serde_json::Value as Clone>::clone ](v: &serde_json::Value) -> (r:
    serde_json::Value)
    ensures
        r == *v,
;

/// Whether a compiled schema accepts an instance.
pub uninterp spec fn schema_verdict(schema: jsonschema::JSONSchema, instance: serde_json::Value) -> bool;

/// Relies on `jsonschema::JSONSchema::is_valid`: whether the instance conforms
/// to the compiled schema; the result depends on the schema and instance alone.
#[verifier::external_body]
pub fn schema_accepts(schema: &jsonschema::JSONSchema, instance: &serde_json::Value) -> (r: bool)
    ensures
        r == schema_verdict(*schema, *instance),
{
    schema.is_valid(instance)
}

/// The JSON value that a text spells, if any.
pub uninterp spec fn json_parsed(text: Seq<char>) -> Option<serde_json::Value>;

/// The JSON string holding a text.
pub uninterp spec fn json_string(text: Seq<char>) -> serde_json::Value;

/// Relies on `serde_json::from_str`: the JSON value that `text` spells, if any;
/// the result depends on the text alone.
#[verifier::external_body]
pub fn parse_json(text: &str) -> (r: Option<serde_json::Value>)
    ensures
        r == json_parsed(text@),
{
    serde_json::from_str(text).ok()
}

/// Relies on `serde_json::Value::String`: a JSON string holding `text`; the
/// result depends on the text alone.
#[verifier::external_body]
pub fn string_value(text: String) -> (r: serde_json::Value)
    ensures
        r == json_string(text@),
{
    serde_json::Value::String(text)
}

/// The elements of the array under `key` of a JSON object, if there is one.
pub uninterp spec fn json_array_field(v: serde_json::Value, key: Seq<char>) -> Option<
    Seq<serde_json::Value>,
>;

/// The text of a JSON string, if the value is one.
pub uninterp spec fn json_text(v: serde_json::Value) -> Option<Seq<char>>;

/// The values that a JSONPath query selects in a document, if the query parses.
pub uninterp spec fn json_path_found(doc: serde_json::Value, query: Seq<char>) -> Option<
    Seq<serde_json::Value>,
>;

/// The texts of the JSON strings among the first `n` values, in order.
pub open spec fn texts_of(items: Seq<serde_json::Value>, n: int) -> Seq<Seq<char>>
    decreases n,
{
    if n <= 0 {
        Seq::empty()
    } else {
        match json_text(items[n - 1]) {
            Some(t) => texts_of(items, n - 1).push(t),
            None => texts_of(items, n - 1),
        }
    }
}

/// The views of a list of strings.
pub open spec fn views(v: Seq<String>) -> Seq<Seq<char>> {
    v.map_values(|s: String| s@)
}

/// The texts of the JSON strings among `items`, as a vector.
pub fn texts(items: &Vec<serde_json::Value>) -> (r: Vec<String>)
    ensures
        views(r@) == texts_of(items@, items@.len() as int),
{
    let mut r: Vec<String> = Vec::new();
    let mut i: usize = 0;
    while i < items.len()
        invariant
            i <= items@.len(),
            views(r@) == texts_of(items@, i as int),
        decreases items@.len() - i,
    {
        let ghost before = r@;
        match value_as_str(&items[i]) {
            Some(s) => {
                r.push(s);
                assert(views(r@) =~= views(before).push(r@[before.len() as int]@));
            },
            None => {},
        }
        i = i + 1;
    }
    r
}

/// The sequence of an optional vector.
pub open spec fn opt_seq<T>(o: Option<Vec<T>>) -> Option<Seq<T>> {
    match o {
        Some(v) => Some(v@),
        None => None,
    }
}

/// Relies on `serde_json::Value::get` and `as_array`: the elements of the array
/// under `key` of an object; the result depends on the value and key alone.
#[verifier::external_body]
pub fn array_field(v: &serde_json::Value, key: &str) -> (r: Option<Vec<serde_json::Value>>)
    ensures
        opt_seq(r) == json_array_field(*v, key@),
{
    v.get(key).and_then(|a| a.as_array()).cloned()
}

/// Relies on `serde_json::Value::as_str`: the text of a JSON string; the
/// result depends on the value alone.
#[verifier::external_body]
pub fn value_as_str(v: &serde_json::Value) -> (r: Option<String>)
    ensures
        opt_view(r) == json_text(*v),
{
    v.as_str().map(|t| t.to_string())
}

/// The query `$..type`, which finds the channel types a document mentions.
/// Only this query is handed to `json_path`: jsonpath-rust panics on some
/// others, such as a slice with step 0.
pub open spec fn type_query() -> Seq<char> {
    seq!['$', '.', '.', 't', 'y', 'p', 'e']
}

/// Relies on `jsonpath_rust::JsonPathQuery::path`: the values that `query`
/// selects in `doc`; the result depends on the document and query alone.
#[verifier::external_body]
pub fn json_path(doc: &serde_json::Value, query: &str) -> (r: Option<Vec<serde_json::Value>>)
    requires
        query@ == type_query(),
    ensures
        opt_seq(r) == json_path_found(*doc, query@),
{
    doc.clone().path(query).ok().and_then(|found| found.as_array().cloned())
}

/// Relies on `dirs::home_dir`: the current user's home directory, when known.
#[verifier::external_body]
pub fn home_dir() -> (r: Option<String>) {
    dirs::home_dir().map(|h| h.to_string_lossy().to_string())
}

} // verus!
