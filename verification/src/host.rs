//! Calls into the host's utility crates, each behind a small trusted wrapper.

use vstd::prelude::*;

verus! {

/// What base64's standard-alphabet decoding yields on a given input:
/// `Some` bytes exactly for valid base64, `None` otherwise.
pub uninterp spec fn base64_decoding(s: Seq<char>) -> Option<Seq<u8>>;

/// Relies on base64's `general_purpose::STANDARD` engine (`Engine::decode`):
/// the result depends on the input characters alone, and decoding succeeds
/// exactly when the input is well-formed base64 for that engine.
#[verifier::external_body]
pub(crate) fn base64_decode(data: &str) -> (r: Option<Vec<u8>>)
    ensures
        r is Some <==> base64_decoding(data@) is Some,
        r matches Some(bytes) ==> bytes@ == base64_decoding(data@).unwrap(),
{
    base64::Engine::decode(&base64::engine::general_purpose::STANDARD, data).ok()
}

/// Relies on `uuid::Uuid::new_v4` and `Uuid`'s `Display` impl: a random v4
/// UUID rendered in the hyphenated form, which is always 36 characters.
/// The value is random, so nothing more is assumed of it.
#[verifier::external_body]
pub(crate) fn fresh_uuid() -> (r: String)
    ensures
        r@.len() == 36,
{
    uuid::Uuid::new_v4().to_string()
}

/// Relies on `chrono::Utc::now().to_rfc3339()`: the current instant in
/// RFC 3339 form, a non-empty string. The value depends on the clock,
/// so nothing more is assumed of it.
#[verifier::external_body]
pub(crate) fn now_rfc3339() -> (r: String)
    ensures
        r@.len() > 0,
{
    chrono::Utc::now().to_rfc3339()
}

} // verus!
