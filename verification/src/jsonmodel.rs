//! The mathematical model of a decoded JSON document, as far as this
//! library reads one: an object is a sequence of key/value entries in
//! iteration order; every other JSON value is opaque, since only objects
//! and their keys are ever inspected.

use vstd::prelude::*;

verus! {

/// A decoded JSON value: an object with its entries in iteration order,
/// or any other JSON value (string, number, array, boolean, null).
pub ghost enum Json {
    Object(Seq<(Seq<char>, Json)>),
    Other,
}

/// The value at `key` among `entries`: the first entry whose key matches.
/// Decoded objects never hold a key twice, so the first match is the match.
pub open spec fn spec_lookup(entries: Seq<(Seq<char>, Json)>, key: Seq<char>) -> Option<Json>
    decreases entries.len(),
{
    if entries.len() == 0 {
        None
    } else if entries[0].0 == key {
        Some(entries[0].1)
    } else {
        spec_lookup(entries.drop_first(), key)
    }
}

/// The keys of `entries`, in order.
pub open spec fn spec_keys(entries: Seq<(Seq<char>, Json)>) -> Seq<Seq<char>> {
    entries.map_values(|e: (Seq<char>, Json)| e.0)
}

/// The names of one dependency group: the keys of the object stored under
/// `field`, or the empty sequence when the field is absent or its value is
/// not an object.
pub open spec fn spec_group_names(entries: Seq<(Seq<char>, Json)>, field: Seq<char>) -> Seq<
    Seq<char>,
> {
    match spec_lookup(entries, field) {
        Some(Json::Object(es)) => spec_keys(es),
        _ => Seq::empty(),
    }
}

} // verus!
