//! The error taxonomy: every failure of an invocation is one of these,
//! and each is terminal for the invocation.

use vstd::prelude::*;

verus! {

/// Why a completion invocation failed.  Every error is fatal: the caller
/// exits non-zero and prints the description, emitting no candidates.
#[derive(Clone, Copy, Debug, PartialEq, Eq, Structural)]
pub enum CompletionError {
    /// The environment inputs (command line, cursor offset) are absent
    /// or the offset is not a non-negative integer.
    InputMissing,
    /// Neither the conventional path nor the fallback scan yields a manifest.
    ManifestNotFound,
    /// A located manifest could not be read.
    ManifestUnreadable,
    /// The manifest is not valid JSON, not an object, or lacks the
    /// mandatory required-dependencies field.
    ManifestMalformed,
}

/// The human-readable message for each error.
pub open spec fn spec_describe(e: CompletionError) -> Seq<char> {
    match e {
        CompletionError::InputMissing => "Could not get arguments"@,
        CompletionError::ManifestNotFound => "Could not find composer file"@,
        CompletionError::ManifestUnreadable => "Could not read composer file"@,
        CompletionError::ManifestMalformed => "Could not parse composer file"@,
    }
}

impl CompletionError {
    /// The message a caller prints when exiting on this error.
    pub fn describe(&self) -> (r: String)
        ensures
            r@ == spec_describe(*self),
    {
        match self {
            CompletionError::InputMissing => String::from_str("Could not get arguments"),
            CompletionError::ManifestNotFound => String::from_str("Could not find composer file"),
            CompletionError::ManifestUnreadable => String::from_str("Could not read composer file"),
            CompletionError::ManifestMalformed => String::from_str("Could not parse composer file"),
        }
    }
}

} // verus!
