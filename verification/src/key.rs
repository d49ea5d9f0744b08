//! Decoding of a node's public key into the 32-byte key field of a packet.

use vstd::prelude::*;
use crate::address::CodecError;

verus! {

/// The error of the base64 decoder.
#[verifier::external_type_specification]
#[verifier::external_body]
pub struct ExDecodeError(base64::DecodeError);

/// What URL-safe base64 decoding makes of a text: its bytes, or nothing where
/// the decoder rejects the text.
pub uninterp spec fn url_safe_decoding(text: Seq<char>) -> Option<Seq<u8>>;

/// Calls `base64::decode_config` with the `URL_SAFE` configuration. The
/// contract only names the outcome: the call succeeds exactly when
/// `url_safe_decoding` of the text is some bytes, and then returns them.
#[verifier::external_body]
fn decode_url_safe(encoded: &str) -> (r: Result<Vec<u8>, base64::DecodeError>)
    ensures
        r is Ok <==> url_safe_decoding(encoded@) is Some,
        r is Ok ==> r.unwrap()@ == url_safe_decoding(encoded@).unwrap(),
{
    base64::decode_config(encoded, base64::URL_SAFE)
}

/// The bytes followed by as many zero bytes as bring them to 32.
pub open spec fn zero_padded(bytes: Seq<u8>) -> Seq<u8>
    recommends
        bytes.len() <= 32,
{
    bytes + Seq::new((32 - bytes.len()) as nat, |i: int| 0u8)
}

/// The key field that decoded bytes give.
pub open spec fn key_of_bytes(bytes: Seq<u8>) -> Result<Seq<u8>, CodecError> {
    if bytes.len() > 32 {
        Err(CodecError::KeyLengthError)
    } else {
        Ok(zero_padded(bytes))
    }
}

/// The key field that a key text gives.
pub open spec fn decoded_key(text: Seq<char>) -> Result<Seq<u8>, CodecError> {
    match url_safe_decoding(text) {
        None => Err(CodecError::KeyDecodeError),
        Some(bytes) => key_of_bytes(bytes),
    }
}

/// Brings decoded key bytes to the 32 bytes of the key field.
///
/// Shorter input is filled with zero bytes on the right; input of more than
/// 32 bytes fails with `KeyLengthError`.
pub fn key_from_decoded(decoded: &Vec<u8>) -> (r: Result<[u8; 32], CodecError>)
    ensures
        match key_of_bytes(decoded@) {
            Ok(bytes) => r is Ok && r.unwrap()@ == bytes,
            Err(e) => r == Err::<[u8; 32], CodecError>(e),
        },
{
    let n: usize = decoded.len();
    if n > 32 {
        return Err(CodecError::KeyLengthError);
    }
    let mut out: [u8; 32] = [0u8; 32];
    let mut i: usize = 0;
    while i < n
        invariant
            i <= n <= 32,
            n == decoded@.len(),
            forall|j: int| 0 <= j < i ==> out@[j] == decoded@[j],
            forall|j: int| i <= j < 32 ==> out@[j] == 0,
        decreases n - i,
    {
        out[i] = decoded[i];
        i += 1;
    }
    assert(out@ =~= zero_padded(decoded@));
    Ok(out)
}

/// Decodes a public key written in URL-safe base64.
///
/// Fails with `KeyDecodeError` exactly when the text is not valid base64, and
/// with `KeyLengthError` exactly when it decodes to more than 32 bytes.
/// Otherwise the decoded bytes come back, zero-filled on the right to 32.
pub fn decode_public_key(encoded: &str) -> (r: Result<[u8; 32], CodecError>)
    ensures
        match decoded_key(encoded@) {
            Ok(bytes) => r is Ok && r.unwrap()@ == bytes,
            Err(e) => r == Err::<[u8; 32], CodecError>(e),
        },
{
    match decode_url_safe(encoded) {
        Ok(decoded) => key_from_decoded(&decoded),
        Err(_) => Err(CodecError::KeyDecodeError),
    }
}

} // verus!
