//! The failures that end an invocation.

use vstd::prelude::*;

verus! {

/// `uuid::Error`: why a text is no UUID. Carried, never inspected.
#[verifier::external_type_specification]
#[verifier::external_body]
pub struct ExUuidError(uuid::Error);

/// `serde_json::Error`: why a text is no JSON document of the expected
/// shape. Carried, never inspected.
#[verifier::external_type_specification]
#[verifier::external_body]
pub struct ExJsonError(serde_json::Error);

#[derive(Debug)]
pub enum RuntimeError {
    /// A notification names no bucket or no object key, or its key is not
    /// valid percent-encoded UTF-8.
    MalformedS3Event,
    /// A data file is no JSON document, or not of the vendor's schema.
    SerializationError(serde_json::Error),
    /// An identifier taken from an object key is no UUID.
    UuidError(uuid::Error),
}

} // verus!
