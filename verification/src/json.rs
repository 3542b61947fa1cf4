//! The crate's only bridge to `serde_json`: parsing the export's documents.
//!
//! A parsed document is carried as an opaque `serde_json::Value`; every
//! decision made on one happens in verified code, through the small accessors
//! below. What a parse returns is a function of the input text alone, so the
//! results that contracts need are given names here.

use vstd::prelude::*;

verus! {

#[verifier::external_type_specification]
#[verifier::external_body]
pub struct ExValue(serde_json::Value);

/// Whether a text parses as a JSON document. `serde_json::from_str` is
/// deterministic: the same text always parses to the same outcome.
pub uninterp spec fn json_doc_ok(text: Seq<char>) -> bool;

/// The length of the array a text parses to, or `None` where the text is not
/// a JSON array. Determined by the text alone.
pub uninterp spec fn json_array_len(text: Seq<char>) -> Option<int>;

/// The flat string-to-string table a text parses to, or `None` where the text
/// is not a JSON object with string values. Determined by the text alone.
pub uninterp spec fn json_table_of(text: Seq<char>) -> Option<Map<Seq<char>, Seq<char>>>;

/// Relies on `serde_json::from_str::<Value>`: parses a text as one JSON
/// document; success depends on the text alone.
#[verifier::external_body]
pub(crate) fn parse_document(text: &str) -> (r: Option<serde_json::Value>)
    ensures
        r is Some <==> json_doc_ok(text@),
{
    serde_json::from_str::<serde_json::Value>(text).ok()
}

/// Relies on `serde_json::from_str::<Vec<Value>>`: parses a text as a JSON
/// array; the elements and their number depend on the text alone.
#[verifier::external_body]
pub(crate) fn parse_array(text: &str) -> (r: Option<Vec<serde_json::Value>>)
    ensures
        r is Some <==> json_array_len(text@) is Some,
        r matches Some(v) ==> json_array_len(text@) == Some(v@.len() as int),
{
    serde_json::from_str::<Vec<serde_json::Value>>(text).ok()
}

/// Relies on `serde_json::from_str::<HashMap<String, String>>`: parses a text
/// as a flat string-to-string object. The keys of the returned pairs are
/// distinct (a map holds each key once); the set of pairs depends on the text
/// alone, though their order here does not.
#[verifier::external_body]
pub(crate) fn parse_table(text: &str) -> (r: Option<Vec<(String, String)>>)
    ensures
        r is Some <==> json_table_of(text@) is Some,
        r matches Some(entries) ==> {
            let m = json_table_of(text@)->Some_0;
            &&& forall|i: int, j: int|
                0 <= i < j < entries@.len() ==> entries@[i].0@ != entries@[j].0@
            &&& forall|i: int|
                0 <= i < entries@.len() ==> #[trigger] m.contains_key(entries@[i].0@)
                    && m[entries@[i].0@] == entries@[i].1@
            &&& forall|k: Seq<char>|
                #[trigger] m.contains_key(k) ==> exists|i: int|
                    0 <= i < entries@.len() && entries@[i].0@ == k
        },
{
    serde_json::from_str::<std::collections::HashMap<String, String>>(text)
        .ok()
        .map(|m| m.into_iter().collect())
}

/// Relies on `serde_json::Value::get`: looks a key up in a JSON object,
/// `None` where the value is not an object or lacks the key.
#[verifier::external_body]
pub(crate) fn get_field<'a>(value: &'a serde_json::Value, key: &str) -> (r: Option<
    &'a serde_json::Value,
>) {
    value.get(key)
}

/// Relies on `serde_json::Value::as_str`: the text of a JSON string value,
/// `None` for every other kind of value.
#[verifier::external_body]
pub(crate) fn get_str(value: &serde_json::Value) -> (r: Option<String>) {
    value.as_str().map(|s| s.to_owned())
}

} // verus!
