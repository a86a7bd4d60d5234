//! The trusted boundary around the JSON decoder (`serde_json`).  Each item
//! here wraps exactly one `serde_json` function and states, over the model
//! in `jsonmodel`, what that function's source shows.  Nothing else in the
//! crate is taken on trust.

use vstd::prelude::*;
use crate::jsonmodel::{spec_keys, spec_lookup, Json};

verus! {

#[verifier::external_type_specification]
#[verifier::external_body]
pub struct ExValue(serde_json::Value);

#[verifier::external_type_specification]
#[verifier::external_body]
#[verifier::reject_recursive_types(K)]
#[verifier::reject_recursive_types(V)]
pub struct ExMap<K, V>(serde_json::Map<K, V>);

#[verifier::external_type_specification]
#[verifier::external_body]
pub struct ExError(serde_json::Error);

/// What `serde_json::from_str::<Value>` decodes a text to: `None` when the
/// text is not a well-formed JSON document, otherwise its model.  The
/// decode is a function of the text alone.
pub uninterp spec fn json_decode(s: Seq<char>) -> Option<Json>;

/// The model of a decoded `serde_json::Value`.
pub uninterp spec fn value_rep(v: serde_json::Value) -> Json;

/// What a `serde_json::Map` holds: its entries, keys paired with the model
/// of their values, in the map's iteration order.
pub uninterp spec fn obj_entries(m: serde_json::Map<String, serde_json::Value>) -> Seq<
    (Seq<char>, Json),
>;

/// Relies on `serde_json::from_str::<Value>`: decodes the text as one JSON
/// document, a result that depends on the characters alone.
#[verifier::external_body]
pub(crate) fn parse_json(s: &str) -> (r: Result<serde_json::Value, serde_json::Error>)
    ensures
        match r {
            Ok(v) => json_decode(s@) == Some(value_rep(v)),
            Err(_) => json_decode(s@) is None,
        },
{
    serde_json::from_str(s)
}

/// Relies on `serde_json::Value::as_object`: `Some` of the inner map
/// exactly when the value is `Value::Object`.
#[verifier::external_body]
pub(crate) fn as_object(v: &serde_json::Value) -> (r: Option<
    &serde_json::Map<String, serde_json::Value>,
>)
    ensures
        match r {
            Some(m) => value_rep(*v) == Json::Object(obj_entries(*m)),
            None => !(value_rep(*v) is Object),
        },
{
    v.as_object()
}

/// Relies on `serde_json::Map::get` (a `BTreeMap` lookup): returns the
/// value stored at `key`; the map never holds a key twice.
#[verifier::external_body]
pub(crate) fn obj_get<'a>(
    m: &'a serde_json::Map<String, serde_json::Value>,
    key: &str,
) -> (r: Option<&'a serde_json::Value>)
    ensures
        match r {
            Some(v) => spec_lookup(obj_entries(*m), key@) == Some(value_rep(*v)),
            None => spec_lookup(obj_entries(*m), key@) is None,
        },
{
    m.get(key)
}

/// Relies on `serde_json::Map::keys`: the map's keys in iteration order.
#[verifier::external_body]
pub(crate) fn obj_keys(m: &serde_json::Map<String, serde_json::Value>) -> (r: Vec<String>)
    ensures
        r@.map_values(|k: String| k@) == spec_keys(obj_entries(*m)),
{
    m.keys().cloned().collect()
}

} // verus!
