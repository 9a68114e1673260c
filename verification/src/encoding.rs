//! Trusted boundary to the textual encodings: base64, base58, and the
//! UTF-8 conversion between byte vectors and strings.
//!
//! The `uninterp` spec functions name the results of the outside encoders
//! and decoders; the wrappers state how encoding and decoding relate.

use vstd::prelude::*;
use vstd::utf8::*;
use base64::Engine;

verus! {

/// The base64 rendering (standard alphabet, padded) of a byte sequence.
pub uninterp spec fn base64_of(bytes: Seq<u8>) -> Seq<char>;

/// The result of base64 decoding: the bytes, or `None` on malformed input.
pub uninterp spec fn base64_val_of(s: Seq<char>) -> Option<Seq<u8>>;

/// The base58 rendering of a byte sequence.
pub uninterp spec fn base58_of(bytes: Seq<u8>) -> Seq<char>;

/// The result of base58 decoding: the bytes, or `None` on malformed input.
pub uninterp spec fn base58_val_of(s: Seq<char>) -> Option<Seq<u8>>;

/// Relies on base64's `STANDARD` engine (`Engine::encode`): the standard
/// alphabet with padding, a deterministic function of the bytes.
#[verifier::external_body]
pub(crate) fn base64_encode(bytes: &[u8]) -> (r: String)
    ensures
        r@ == base64_of(bytes@),
{
    base64::engine::general_purpose::STANDARD.encode(bytes)
}

/// Relies on base64's `STANDARD` engine (`Engine::decode`), which demands
/// canonical padding and rejects trailing bits: decoding succeeds exactly on
/// canonical encodings and is the inverse of encoding.
#[verifier::external_body]
pub(crate) fn base64_decode(s: &str) -> (r: Result<Vec<u8>, ()>)
    ensures
        r is Ok <==> base64_val_of(s@) is Some,
        r matches Ok(v) ==> base64_val_of(s@) == Some(v@) && s@ == base64_of(v@),
        forall|b: Seq<u8>| s@ == base64_of(b) ==> r is Ok && r->Ok_0@ == b,
{
    base64::engine::general_purpose::STANDARD.decode(s).map_err(|_| ())
}

/// Relies on `bs58::encode` (`EncodeBuilder::into_string`): the Bitcoin
/// alphabet, a deterministic function of the bytes.
#[verifier::external_body]
pub(crate) fn bs58_encode(bytes: &[u8]) -> (r: String)
    ensures
        r@ == base58_of(bytes@),
{
    bs58::encode(bytes).into_string()
}

/// Relies on `bs58::decode` (`DecodeBuilder::into_vec`): decoding succeeds
/// on well-formed base58 text and inverts encoding.
#[verifier::external_body]
pub(crate) fn bs58_decode(s: &str) -> (r: Result<Vec<u8>, ()>)
    ensures
        r is Ok <==> base58_val_of(s@) is Some,
        r matches Ok(v) ==> base58_val_of(s@) == Some(v@),
        forall|b: Seq<u8>| s@ == base58_of(b) ==> r is Ok && r->Ok_0@ == b,
{
    bs58::decode(s).into_vec().map_err(|_| ())
}

/// Relies on `String::from_utf8`: succeeds exactly on valid UTF-8 and
/// returns the decoded characters.
#[verifier::external_body]
pub(crate) fn bytes_to_string(v: Vec<u8>) -> (r: Result<String, ()>)
    ensures
        r is Ok <==> valid_utf8(v@),
        r matches Ok(s) ==> s@ == decode_utf8(v@),
{
    String::from_utf8(v).map_err(|_| ())
}

} // verus!
