//! Outside types that the library carries through unchanged.
use vstd::prelude::*;

verus! {

/// An I/O failure from the standard library, carried as the source of an
/// error.
#[verifier::external_type_specification]
#[verifier::external_body]
pub struct ExIoError(std::io::Error);

/// A JSON parse failure from `serde_json`, carried as the source of an error.
#[verifier::external_type_specification]
#[verifier::external_body]
pub struct ExJsonError(serde_json::Error);

/// A failure of an HTTP request, from `reqwest`, carried as an error's
/// source.
#[verifier::external_type_specification]
#[verifier::external_body]
pub struct ExHttpError(reqwest::Error);

} // verus!
