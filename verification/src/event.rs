//! The notification that starts an invocation: a bucket and an object key,
//! the key percent-encoded.

use vstd::prelude::*;
use crate::runtime_error::RuntimeError;

verus! {

/// The text that `urlencoding::decode` makes of a percent-encoded text, or
/// `None` where the decoded bytes are no UTF-8.
pub uninterp spec fn percent_decoded(text: Seq<char>) -> Option<Seq<char>>;

/// `urlencoding::decode`, the result as an owned text, `None` for its error.
///
/// Taken on trust: the result depends on the text alone, so that
/// [`percent_decoded`] can name it. What it decodes to is not stated.
#[verifier::external_body]
fn percent_decode(text: &str) -> (r: Option<String>)
    ensures
        r matches Some(decoded) ==> percent_decoded(text@) == Some(decoded@),
        r is None ==> percent_decoded(text@) is None,
{
    match urlencoding::decode(text) {
        Ok(decoded) => Some(decoded.into_owned()),
        Err(_) => None,
    }
}

/// An object in a bucket.
#[derive(Debug)]
pub struct ObjectLocation {
    pub bucket_name: String,
    pub object_key: String,
}

/// The object that a notification names. A notification without a bucket's
/// name or without a key, or with a key that cannot be decoded, is malformed.
pub fn object_location(bucket_name: Option<String>, object_key: Option<String>) -> (r: Result<
    ObjectLocation,
    RuntimeError,
>)
    ensures
        match r {
            Ok(location) => {
                &&& bucket_name matches Some(bucket)
                &&& object_key matches Some(key)
                &&& location.bucket_name == bucket
                &&& percent_decoded(key@) == Some(location.object_key@)
            },
            Err(e) => {
                &&& e is MalformedS3Event
                &&& bucket_name is None || object_key is None || percent_decoded(
                    object_key->Some_0@,
                ) is None
            },
        },
{
    let bucket_name = match bucket_name {
        Some(bucket) => bucket,
        None => { return Err(RuntimeError::MalformedS3Event); },
    };
    let object_key = match object_key {
        Some(key) => key,
        None => { return Err(RuntimeError::MalformedS3Event); },
    };
    match percent_decode(object_key.as_str()) {
        Some(decoded) => Ok(ObjectLocation { bucket_name, object_key: decoded }),
        None => Err(RuntimeError::MalformedS3Event),
    }
}

} // verus!
