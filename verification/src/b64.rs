//! Base64 for the assertion payloads on stdout, through the `base64` crate.

use vstd::prelude::*;

verus! {

/// The standard-alphabet, padded base64 encoding of a byte sequence, as the
/// `base64` crate computes it. The result depends on the input bytes alone.
pub uninterp spec fn b64_of(b: Seq<u8>) -> Seq<u8>;

/// A byte of the standard base64 alphabet or its padding: letters, digits,
/// `+`, `/`, `=`.
pub open spec fn is_b64_byte(b: u8) -> bool {
    (65 <= b <= 90) || (97 <= b <= 122) || (48 <= b <= 57) || b == 43 || b == 47 || b == 61
}

/// Relies on base64's `Engine::encode` with the standard padded alphabet:
/// the output is a function of the input bytes alone and consists of
/// alphabet and padding characters only.
#[verifier::external_body]
pub fn b64_encode(b: &Vec<u8>) -> (r: Vec<u8>)
    ensures
        r@ == b64_of(b@),
        forall|i: int| 0 <= i < r@.len() ==> is_b64_byte(#[trigger] r@[i]),
{
    base64::Engine::encode(&base64::prelude::BASE64_STANDARD, b).into_bytes()
}

/// Relies on base64's `Engine::decode` with the standard padded alphabet:
/// it inverts `encode`, so on any encoding it succeeds and returns exactly
/// the bytes that were encoded.
#[verifier::external_body]
pub fn b64_decode(b: &Vec<u8>) -> (r: Option<Vec<u8>>)
    ensures
        r is Some <== exists|orig: Seq<u8>| b@ == b64_of(orig),
        r matches Some(v) ==> forall|orig: Seq<u8>| b@ == b64_of(orig) ==> v@ == orig,
{
    match base64::Engine::decode(&base64::prelude::BASE64_STANDARD, b) {
        Ok(v) => Some(v),
        Err(_) => None,
    }
}

} // verus!
