//! The dependency manifest: decoding the manifest text into its two
//! dependency groups, the required packages and the development-only ones.

use vstd::prelude::*;
use crate::errors::CompletionError;
use crate::jsonmodel::{spec_group_names, spec_lookup, Json};
use crate::jsontrusted::{as_object, json_decode, obj_get, obj_keys, parse_json, value_rep};

verus! {

/// The name of the mandatory dependency field of a manifest.
pub open spec fn require_field() -> Seq<char> {
    "require"@
}

/// The name of the optional development-dependency field of a manifest.
pub open spec fn require_dev_field() -> Seq<char> {
    "require-dev"@
}

/// The two dependency groups of a decoded manifest: each a sequence of
/// package names in the source object's iteration order.
#[derive(Debug, PartialEq, Eq)]
pub struct DependencyManifest {
    /// Names declared as required dependencies.
    pub require: Vec<String>,
    /// Names declared as development-only dependencies.
    pub require_dev: Vec<String>,
}

impl DependencyManifest {
    /// The required names, as character sequences.
    pub open spec fn require_names(self) -> Seq<Seq<char>> {
        self.require@.map_values(|k: String| k@)
    }

    /// The development-only names, as character sequences.
    pub open spec fn require_dev_names(self) -> Seq<Seq<char>> {
        self.require_dev@.map_values(|k: String| k@)
    }
}

/// Whether the manifest text decodes to a JSON object that holds the
/// mandatory required-dependencies field; on any other text parsing fails.
pub open spec fn spec_manifest_ok(s: Seq<char>) -> bool {
    match json_decode(s) {
        Some(Json::Object(entries)) => spec_lookup(entries, require_field()) is Some,
        _ => false,
    }
}

/// The names of the group stored under `field` in the manifest text: the
/// keys of that field's object, empty when the field is absent or its
/// value is not an object.
pub open spec fn spec_manifest_group(s: Seq<char>, field: Seq<char>) -> Seq<Seq<char>> {
    match json_decode(s) {
        Some(Json::Object(entries)) => spec_group_names(entries, field),
        _ => Seq::empty(),
    }
}

/// Decodes the manifest text into its two dependency groups.
///
/// Succeeds exactly when the text is a JSON object holding the mandatory
/// `require` field; a non-object value for either field degrades to an
/// empty group, and a missing `require-dev` field contributes no names.
pub fn parse_manifest(content: &str) -> (r: Result<DependencyManifest, CompletionError>)
    ensures
        r is Ok <==> spec_manifest_ok(content@),
        match r {
            Ok(m) => m.require_names() == spec_manifest_group(content@, require_field())
                && m.require_dev_names() == spec_manifest_group(content@, require_dev_field()),
            Err(e) => e == CompletionError::ManifestMalformed,
        },
{
    let v = match parse_json(content) {
        Ok(v) => v,
        Err(_) => {
            return Err(CompletionError::ManifestMalformed);
        },
    };
    let obj = match as_object(&v) {
        Some(o) => o,
        None => {
            return Err(CompletionError::ManifestMalformed);
        },
    };
    let req_val = match obj_get(obj, "require") {
        Some(rv) => rv,
        None => {
            return Err(CompletionError::ManifestMalformed);
        },
    };
    let require = match as_object(req_val) {
        Some(ro) => obj_keys(ro),
        None => Vec::new(),
    };
    let require_dev = match obj_get(obj, "require-dev") {
        Some(dv) => match as_object(dv) {
            Some(d) => obj_keys(d),
            None => Vec::new(),
        },
        None => Vec::new(),
    };
    proof {
        assert(Seq::<String>::empty().map_values(|k: String| k@) =~= Seq::<Seq<char>>::empty());
    }
    Ok(DependencyManifest { require, require_dev })
}

} // verus!
