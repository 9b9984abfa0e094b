//! Trusted boundary to the transport encodings: UTF-8 text decoding
//! (specified against vstd's UTF-8 model) and base64, plus the verified
//! decode step the body extractor uses and its round-trip law.

use vstd::prelude::*;
use vstd::utf8::{valid_utf8, decode_utf8, encode_utf8};
use crate::errors::ExtractionError;

verus! {

/// Relies on `String::from_utf8`: returns the UTF-8 decoding of the bytes,
/// and fails exactly when the bytes are not valid UTF-8.
#[verifier::external_body]
pub(crate) fn bytes_to_string(b: Vec<u8>) -> (r: Option<String>)
    ensures
        r matches Some(s) ==> valid_utf8(b@) && s@ == decode_utf8(b@),
        r is None ==> !valid_utf8(b@),
{
    String::from_utf8(b).ok()
}

/// Relies on `String::push_str`: appends the characters of `t` to `s`.
#[verifier::external_body]
pub(crate) fn push_str(s: &mut String, t: &str)
    ensures
        final(s)@ == old(s)@ + t@,
{
    s.push_str(t);
}

/// What `base64::decode` returns on a given input, or `None` where it fails.
pub uninterp spec fn b64_decode_of(s: Seq<u8>) -> Option<Seq<u8>>;

/// The base64 encoding (standard alphabet, padded) of a byte payload.
pub uninterp spec fn b64_encode_of(b: Seq<u8>) -> Seq<u8>;

/// Relies on `base64::decode` (standard alphabet): success and result are a
/// function of the input bytes alone.
#[verifier::external_body]
fn base64_decode_bytes(input: &[u8]) -> (r: Option<Vec<u8>>)
    ensures
        r matches Some(v) ==> b64_decode_of(input@) == Some(v@),
        r is None ==> b64_decode_of(input@) is None,
{
    base64::decode(input).ok()
}

/// Relies on `base64::encode` (standard alphabet): the encoding is a
/// function of the payload alone, and `base64::decode` inverts it.
#[verifier::external_body]
fn base64_encode_bytes(input: &[u8]) -> (r: String)
    ensures
        encode_utf8(r@) == b64_encode_of(input@)
            && b64_decode_of(encode_utf8(r@)) == Some(input@),
{
    base64::encode(input)
}

/// The extractor's transport-decoding step: reverses a base64
/// content-transfer-encoding, reporting an encoding error exactly on the
/// inputs base64 rejects.
pub fn decode_base64_body(body: &[u8]) -> (r: Result<Vec<u8>, ExtractionError>)
    ensures
        match r {
            Ok(v) => b64_decode_of(body@) == Some(v@),
            Err(e) => b64_decode_of(body@) is None && e is Encoding,
        },
{
    match base64_decode_bytes(body) {
        Some(v) => Ok(v),
        None => Err(ExtractionError::Encoding),
    }
}

/// Encodes a byte payload with base64, as a transport would before handing
/// a part body to the extractor.
pub fn encode_base64_payload(payload: &[u8]) -> (r: String)
    ensures
        encode_utf8(r@) == b64_encode_of(payload@),
        b64_decode_of(encode_utf8(r@)) == Some(payload@),
{
    base64_encode_bytes(payload)
}

/// Law: encoding an arbitrary byte payload with base64 and then decoding it
/// through the extractor's decode step yields the original payload exactly.
pub fn base64_round_trip(payload: &Vec<u8>) -> (r: Vec<u8>)
    ensures
        r@ == payload@,
{
    let enc = encode_base64_payload(payload.as_slice());
    match decode_base64_body(enc.as_str().as_bytes()) {
        Ok(v) => v,
        Err(_) => {
            proof {
                assert(false);
            }
            Vec::new()
        },
    }
}

} // verus!
