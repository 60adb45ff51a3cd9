//! URL-safe, unpadded base64, as identities and digests are rendered in
//! proofs and ids.

use crate::model::CoreError;
use vstd::prelude::*;

verus! {

/// What the URL-safe, unpadded base64 engine returns for a byte string. The
/// encoding is a pure function of its input, so its output may be named
/// without being stated.
pub uninterp spec fn b64_of(bytes: Seq<u8>) -> Seq<char>;

/// The length of an unpadded base64 rendering: four digits per three bytes,
/// plus two or three digits for a trailing one or two bytes.
pub open spec fn b64_len(n: int) -> int {
    (n / 3) * 4 + if n % 3 == 0 {
        0int
    } else {
        n % 3 + 1
    }
}

/// Relies on base64's URL_SAFE_NO_PAD engine: the encoding depends on the
/// input bytes alone, and its length follows the engine's published length
/// formula.
#[verifier::external_body]
pub fn base64_encode(input: &Vec<u8>) -> (r: String)
    ensures
        r@ == b64_of(input@),
        r@.len() == b64_len(input@.len() as int),
{
    base64::Engine::encode(&base64::engine::general_purpose::URL_SAFE_NO_PAD, input.as_slice())
}

#[verifier::external_type_specification]
#[verifier::external_body]
pub struct ExDecodeError(base64::DecodeError);

/// Relies on base64's URL_SAFE_NO_PAD engine: decoding inverts encoding with
/// the same engine, so whatever the engine encoded decodes back exactly.
#[verifier::external_body]
fn b64_decode_raw(input: &str) -> (r: Result<Vec<u8>, base64::DecodeError>)
    ensures
        forall|b: Seq<u8>| input@ == b64_of(b) ==> r is Ok && r->Ok_0@ == b,
{
    base64::Engine::decode(&base64::engine::general_purpose::URL_SAFE_NO_PAD, input)
}

/// Decodes URL-safe unpadded base64. Every encoding decodes back to its
/// input; a string that is no valid encoding is collaborator data that
/// cannot be read, and is rejected as such.
pub fn base64_decode(input: &str) -> (r: Result<Vec<u8>, CoreError>)
    ensures
        forall|b: Seq<u8>| input@ == b64_of(b) ==> r is Ok && r->Ok_0@ == b,
        r is Err ==> r->Err_0 == CoreError::Collaborator,
{
    match b64_decode_raw(input) {
        Ok(v) => Ok(v),
        Err(_) => Err(CoreError::Collaborator),
    }
}

} // verus!
