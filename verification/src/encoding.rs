//! Base64 text of byte strings, as the `base64` crate produces it.

use base64::Engine;
use vstd::prelude::*;

verus! {

/// The base64 text of `bytes` in the standard alphabet, with padding.
pub uninterp spec fn base64_standard(bytes: Seq<u8>) -> Seq<u8>;

/// The length of the padded base64 text of `length` bytes: four characters
/// for every three bytes or part of three.
pub open spec fn base64_length(length: nat) -> nat {
    4 * ((length + 2) / 3)
}

/// Encodes `bytes` with `Engine::encode` of the `base64` crate, on its
/// `STANDARD` engine.
///
/// Trusted, not proved: the text that comes back is a function of the input
/// alone, named `base64_standard`, and it is as long as `encoded_len` of
/// that crate computes for padded output, which is `base64_length`. The
/// crate panics where a buffer of that length cannot be had; such inputs
/// are excluded.
#[verifier::external_body]
pub(crate) fn encode_standard(bytes: &[u8]) -> (text: Vec<u8>)
    requires
        base64_length(bytes@.len()) <= isize::MAX,
    ensures
        text@ == base64_standard(bytes@),
        text@.len() == base64_length(bytes@.len()),
{
    base64::engine::general_purpose::STANDARD.encode(bytes).into_bytes()
}

} // verus!
