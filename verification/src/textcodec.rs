//! Decoding article identifiers.
//!
//! Clients name articles by base64 text; the server works on the decoded
//! UTF-8 string and rejects anything that does not decode.

use vstd::prelude::*;
use vstd::utf8::decode_utf8;
use vstd::utf8::valid_utf8;

verus! {

/// What the standard base64 alphabet (with padding) decodes a text to, if
/// anything.
pub uninterp spec fn base64_decoded(s: Seq<char>) -> Option<Seq<u8>>;

/// Relies on base64's `BASE64_STANDARD.decode`: the result is a function of
/// the input text alone (standard alphabet, padding required).
#[verifier::external_body]
fn b64_decode(input: &str) -> (r: Option<Vec<u8>>)
    ensures
        r is Some <==> base64_decoded(input@) is Some,
        r matches Some(v) ==> Some(v@) == base64_decoded(input@),
{
    match base64::Engine::decode(&base64::prelude::BASE64_STANDARD, input.as_bytes()) {
        Ok(v) => Some(v),
        Err(_) => None,
    }
}

/// Relies on String::from_utf8: it succeeds exactly on valid UTF-8 and
/// returns the decoded characters.
#[verifier::external_body]
fn string_from_utf8(bytes: Vec<u8>) -> (r: Option<String>)
    ensures
        r is Some <==> valid_utf8(bytes@),
        r matches Some(s) ==> s@ == decode_utf8(bytes@),
{
    match String::from_utf8(bytes) {
        Ok(s) => Some(s),
        Err(_) => None,
    }
}

/// What an article identifier decodes to: base64, then UTF-8; `None` if
/// either step fails.
pub open spec fn decoded_article(s: Seq<char>) -> Option<Seq<char>> {
    match base64_decoded(s) {
        None => None,
        Some(b) => if valid_utf8(b) {
            Some(decode_utf8(b))
        } else {
            None
        },
    }
}

/// Decodes an article identifier from its base64 text form.
pub fn base64_decode(input: String) -> (r: Option<String>)
    ensures
        r is Some <==> decoded_article(input@) is Some,
        r matches Some(out) ==> Some(out@) == decoded_article(input@),
{
    match b64_decode(input.as_str()) {
        Some(bytes) => string_from_utf8(bytes),
        None => None,
    }
}

} // verus!
