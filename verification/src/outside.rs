//! Declarations of the outside types that the crate carries through.

use vstd::prelude::*;

verus! {

/// `serde_json`'s error type, carried through unchanged.
#[verifier::external_type_specification]
#[verifier::external_body]
pub struct ExJsonError(serde_json::Error);

/// std's I/O error type, carried through unchanged.
#[verifier::external_type_specification]
#[verifier::external_body]
pub struct ExIoError(std::io::Error);

/// std's error for a failed integer parse, carried through unchanged.
#[verifier::external_type_specification]
#[verifier::external_body]
pub struct ExParseIntError(std::num::ParseIntError);

/// `serde_json`'s parsed JSON value, converted at once into the library's
/// `Json`.
#[verifier::external_type_specification]
#[verifier::external_body]
pub struct ExJsonValue(serde_json::Value);

} // verus!
