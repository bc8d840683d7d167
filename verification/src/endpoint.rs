//! The endpoint slot: the fixed-width region of the client binary that holds
//! the server endpoint, and what may be written into it.

use crate::substitute::{lemma_unique_first_byte_unbordered, unbordered};
use crate::text::lemma_utf8_of_joined;
use vstd::prelude::*;
use vstd::string::*;
use vstd::utf8::*;

verus! {

/// The endpoint that the unmodified client talks to. Its bytes fill the
/// endpoint slot exactly.
pub const ORIGINAL_ENDPOINT: &'static str = "https://www.boomlings.com/database/";

/// The width of the endpoint slot in bytes.
pub const SLOT_WIDTH: usize = 35;

/// What stands before the server id in a redirected endpoint.
pub const ENDPOINT_PREFIX: &'static str = "https://gdps.rigby.host/";

/// What stands after the server id in a redirected endpoint.
pub const ENDPOINT_SUFFIX: &'static str = "/db////";

/// The bytes of the original endpoint.
pub open spec fn original_endpoint() -> Seq<u8> {
    ORIGINAL_ENDPOINT.spec_bytes()
}

/// The endpoint of the server with the given id, as text.
pub open spec fn endpoint_text(id: Seq<char>) -> Seq<char> {
    ENDPOINT_PREFIX@ + id + ENDPOINT_SUFFIX@
}

/// The UTF-8 bytes of the endpoint of the server with the given id.
pub open spec fn endpoint_bytes(id: Seq<char>) -> Seq<u8> {
    encode_utf8(endpoint_text(id))
}

/// `width - bytes.len()` zero bytes appended to `bytes`.
pub open spec fn zero_padded(bytes: Seq<u8>, width: nat) -> Seq<u8> {
    Seq::new(
        width,
        |i: int|
            if i < bytes.len() {
                bytes[i]
            } else {
                0u8
            },
    )
}

/// An endpoint of `length` bytes can be written into the slot.
pub open spec fn fits_slot(length: nat) -> bool {
    length <= SLOT_WIDTH
}

/// The original endpoint fills the slot exactly, and no two occurrences of
/// it can overlap.
pub proof fn lemma_original_endpoint()
    ensures
        original_endpoint().len() == SLOT_WIDTH,
        unbordered(original_endpoint()),
{
    reveal_strlit("https://www.boomlings.com/database/");
    let text = ORIGINAL_ENDPOINT@;
    assert(is_ascii_chars(text));
    is_ascii_chars_encode_utf8(text);
    let bytes = original_endpoint();
    assert forall|i: int| 0 < i < bytes.len() implies #[trigger] bytes[i] != bytes[0] by {
        assert(bytes[i] == text[i] as u8);
        assert(bytes[0] == text[0] as u8);
    }
    lemma_unique_first_byte_unbordered(bytes);
}

/// The endpoint of a server is 31 bytes longer than the server's id, so it
/// fits the slot exactly when the id has at most four bytes.
pub proof fn lemma_endpoint_length(id: Seq<char>)
    ensures
        encode_utf8(endpoint_text(id)).len() == encode_utf8(id).len() + 31,
        fits_slot(encode_utf8(endpoint_text(id)).len()) <==> encode_utf8(id).len() <= 4,
{
    reveal_strlit("https://gdps.rigby.host/");
    reveal_strlit("/db////");
    assert(is_ascii_chars(ENDPOINT_PREFIX@));
    assert(is_ascii_chars(ENDPOINT_SUFFIX@));
    is_ascii_chars_encode_utf8(ENDPOINT_PREFIX@);
    is_ascii_chars_encode_utf8(ENDPOINT_SUFFIX@);
    lemma_utf8_of_joined(ENDPOINT_PREFIX@ + id, ENDPOINT_SUFFIX@);
    lemma_utf8_of_joined(ENDPOINT_PREFIX@, id);
}

/// Derives the endpoint of a server from its id.
pub fn endpoint_for(id: &str) -> (endpoint: String)
    ensures
        endpoint@ == endpoint_text(id@),
{
    let mut endpoint = String::from_str(ENDPOINT_PREFIX);
    endpoint.append(id);
    endpoint.append(ENDPOINT_SUFFIX);
    endpoint
}

/// Brings an endpoint to the width of the slot by appending zero bytes.
/// `None` means that it is longer than the slot and cannot be written.
pub fn pad_to_slot(endpoint: &[u8]) -> (padded: Option<Vec<u8>>)
    ensures
        padded is Some <==> fits_slot(endpoint@.len()),
        padded matches Some(bytes) ==> bytes@ == zero_padded(endpoint@, SLOT_WIDTH as nat),
{
    if endpoint.len() > SLOT_WIDTH {
        return None;
    }
    let mut bytes: Vec<u8> = Vec::new();
    let mut k: usize = 0;
    while k < SLOT_WIDTH
        invariant
            k <= SLOT_WIDTH,
            endpoint@.len() <= SLOT_WIDTH,
            bytes@.len() == k,
            forall|i: int| 0 <= i < k ==> bytes@[i] == zero_padded(endpoint@, SLOT_WIDTH as nat)[i],
        decreases SLOT_WIDTH - k,
    {
        if k < endpoint.len() {
            bytes.push(endpoint[k]);
        } else {
            bytes.push(0u8);
        }
        k = k + 1;
    }
    assert(bytes@ =~= zero_padded(endpoint@, SLOT_WIDTH as nat));
    Some(bytes)
}

} // verus!
