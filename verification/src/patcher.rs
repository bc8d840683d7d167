//! The patcher: rewrites the endpoint slot of a client binary held in
//! memory, in its raw form and in its base64 form.

use crate::encoding::{base64_length, base64_standard, encode_standard};
use crate::endpoint::{
    endpoint_bytes, fits_slot, lemma_original_endpoint, original_endpoint, pad_to_slot,
    zero_padded, ENDPOINT_PREFIX, ENDPOINT_SUFFIX, ORIGINAL_ENDPOINT, SLOT_WIDTH,
};
use crate::error::PatchError;
use crate::search::{lemma_occurrences, occurrences, occurs_at};
use crate::substitute::{
    all_but_last_replaced, lemma_all_but_last_rule, lemma_length_unchanged,
    lemma_outside_untouched, lemma_unbordered_spaced, replace_all_but_last, rewrites, within_any,
};
use crate::text::lemma_utf8_of_joined;
use vstd::prelude::*;
use vstd::string::*;
use vstd::utf8::*;

verus! {

/// `data` after the all-but-last substitution of the raw form, followed by
/// the all-but-last substitution of the text form on what the first one
/// left.
pub open spec fn both_forms_replaced(
    data: Seq<u8>,
    raw_pattern: Seq<u8>,
    raw_replacement: Seq<u8>,
    text_pattern: Seq<u8>,
    text_replacement: Seq<u8>,
) -> Seq<u8> {
    all_but_last_replaced(
        all_but_last_replaced(data, raw_pattern, raw_replacement),
        text_pattern,
        text_replacement,
    )
}

/// What is written into the slot for `endpoint`: its bytes, zero-padded to
/// the width of the slot.
pub open spec fn slot_payload(endpoint: Seq<u8>) -> Seq<u8> {
    zero_padded(endpoint, SLOT_WIDTH as nat)
}

/// `data` after the raw occurrences of the original endpoint have been
/// redirected to `endpoint`.
pub open spec fn raw_patched(data: Seq<u8>, endpoint: Seq<u8>) -> Seq<u8> {
    all_but_last_replaced(data, original_endpoint(), slot_payload(endpoint))
}

/// `data` after both forms of the original endpoint have been redirected to
/// `endpoint`: first the raw bytes, then their base64 text.
pub open spec fn patched(data: Seq<u8>, endpoint: Seq<u8>) -> Seq<u8> {
    both_forms_replaced(
        data,
        original_endpoint(),
        slot_payload(endpoint),
        base64_standard(original_endpoint()),
        base64_standard(slot_payload(endpoint)),
    )
}

/// The all-but-last rule, read off a buffer: of the occurrences that the
/// original endpoint has in `data`, every one but the last holds `payload`
/// in `after`, the last one holds the original endpoint, and `after` is as
/// long as `data`.
pub open spec fn redirected_but_last(data: Seq<u8>, after: Seq<u8>, payload: Seq<u8>) -> bool {
    &&& after.len() == data.len()
    &&& forall|i: int|
        0 <= i < occurrences(data, original_endpoint()).len() - 1 ==> after.subrange(
            #[trigger] occurrences(data, original_endpoint())[i],
            occurrences(data, original_endpoint())[i] + SLOT_WIDTH,
        ) == payload
    &&& after.subrange(
        occurrences(data, original_endpoint()).last(),
        occurrences(data, original_endpoint()).last() + SLOT_WIDTH,
    ) == original_endpoint()
}

/// What fills a slot cannot lie inside base64 text of the kind described by
/// `plain_text`, nor share an end with it: it has a colon where an endpoint
/// has one, no `=` before that, and a slash or a zero byte at its end.
pub open spec fn clear_of_text(slot: Seq<u8>) -> bool {
    &&& slot.len() == SLOT_WIDTH
    &&& forall|k: int| 0 <= k < 5 ==> #[trigger] slot[k] != 0x3d
    &&& slot[5] == 0x3a
    &&& (slot[34] == 0x2f || slot[34] == 0)
}

/// Base64 text of a full slot that holds no colon, no slash and no zero
/// byte, and ends in `=`.
pub open spec fn plain_text(text: Seq<u8>) -> bool {
    &&& text.len() == base64_length(SLOT_WIDTH as nat)
    &&& forall|k: int|
        0 <= k < text.len() ==> #[trigger] text[k] != 0x3a && text[k] != 0x2f && text[k] != 0
    &&& text.last() == 0x3d
}

/// Applies the all-but-last substitution to the raw form, then to the text
/// form. The second search runs on the buffer as the first substitution left
/// it.
pub fn replace_both_forms(
    data: &mut Vec<u8>,
    raw_pattern: &[u8],
    raw_replacement: &[u8],
    text_pattern: &[u8],
    text_replacement: &[u8],
)
    requires
        raw_pattern@.len() > 0,
        raw_replacement@.len() == raw_pattern@.len(),
        text_pattern@.len() > 0,
        text_replacement@.len() == text_pattern@.len(),
    ensures
        final(data)@ == both_forms_replaced(
            old(data)@,
            raw_pattern@,
            raw_replacement@,
            text_pattern@,
            text_replacement@,
        ),
        final(data)@.len() == old(data)@.len(),
{
    replace_all_but_last(data, raw_pattern, raw_replacement);
    replace_all_but_last(data, text_pattern, text_replacement);
}

/// The base64 texts that a patch for `target_endpoint` searches for and
/// writes: that of the original endpoint, and that of the zero-padded
/// target. Each has the length of the text of a full slot. There are none
/// for an endpoint that is longer than the slot.
pub fn slot_texts(target_endpoint: &str) -> (texts: Option<(Vec<u8>, Vec<u8>)>)
    ensures
        texts is Some <==> fits_slot(target_endpoint.spec_bytes().len()),
        texts matches Some(pair) ==> {
            &&& pair.0@ == base64_standard(original_endpoint())
            &&& pair.1@ == base64_standard(slot_payload(target_endpoint.spec_bytes()))
            &&& pair.0@.len() == base64_length(SLOT_WIDTH as nat)
            &&& pair.1@.len() == base64_length(SLOT_WIDTH as nat)
        },
{
    match pad_to_slot(target_endpoint.as_bytes()) {
        None => None,
        Some(payload) => {
            proof {
                lemma_original_endpoint();
            }
            let original_text = encode_standard(ORIGINAL_ENDPOINT.as_bytes());
            let payload_text = encode_standard(payload.as_slice());
            Some((original_text, payload_text))
        },
    }
}

/// Whether `text` is base64 text of a full slot that holds no colon, no
/// slash and no zero byte, and ends in `=`.
pub fn is_plain_text(text: &[u8]) -> (plain: bool)
    ensures
        plain == plain_text(text@),
{
    if text.len() != 48 {
        return false;
    }
    let mut k: usize = 0;
    while k < 48
        invariant
            k <= 48,
            text@.len() == 48,
            forall|i: int|
                0 <= i < k ==> #[trigger] text@[i] != 0x3a && text@[i] != 0x2f && text@[i] != 0,
        decreases 48 - k,
    {
        if text[k] == 0x3a || text[k] == 0x2f || text[k] == 0 {
            return false;
        }
        k = k + 1;
    }
    text[47] == 0x3d
}

/// Redirects a client binary held in `data` to `target_endpoint`.
///
/// An endpoint longer than the slot is refused with `PayloadTooLarge`, and
/// `data` is not touched. Otherwise every raw occurrence of the original
/// endpoint but the last is overwritten with the zero-padded target, and
/// then every occurrence of the base64 text of the original endpoint but the
/// last with the base64 text of the padded target. The two texts are equally
/// long, so the length of `data` never changes.
pub fn patch_buffer(data: &mut Vec<u8>, target_endpoint: &str) -> (outcome: Result<
    (),
    PatchError,
>)
    ensures
        outcome is Ok <==> fits_slot(target_endpoint.spec_bytes().len()),
        outcome is Ok ==> final(data)@ == patched(old(data)@, target_endpoint.spec_bytes()),
        outcome matches Err(error) ==> error == (PatchError::PayloadTooLarge {
            max: SLOT_WIDTH,
            got: target_endpoint.spec_bytes().len() as usize,
        }) && final(data)@ == old(data)@,
        final(data)@.len() == old(data)@.len(),
        outcome is Ok ==> base64_standard(original_endpoint()).len() == base64_length(
            SLOT_WIDTH as nat,
        ),
        outcome is Ok ==> base64_standard(slot_payload(target_endpoint.spec_bytes())).len()
            == base64_length(SLOT_WIDTH as nat),
{
    let endpoint = target_endpoint.as_bytes();
    match pad_to_slot(endpoint) {
        None => Err(PatchError::PayloadTooLarge { max: SLOT_WIDTH, got: endpoint.len() }),
        Some(payload) => {
            proof {
                lemma_original_endpoint();
            }
            let original = ORIGINAL_ENDPOINT.as_bytes();
            let original_text = encode_standard(original);
            let payload_text = encode_standard(payload.as_slice());
            replace_both_forms(
                data,
                original,
                payload.as_slice(),
                original_text.as_slice(),
                payload_text.as_slice(),
            );
            Ok(())
        },
    }
}

/// Patching never changes the length of the data.
pub proof fn lemma_patched_length(data: Seq<u8>, endpoint: Seq<u8>)
    ensures
        raw_patched(data, endpoint).len() == data.len(),
        patched(data, endpoint).len() == data.len(),
{
    lemma_length_unchanged(data, original_endpoint(), slot_payload(endpoint));
    lemma_length_unchanged(
        raw_patched(data, endpoint),
        base64_standard(original_endpoint()),
        base64_standard(slot_payload(endpoint)),
    );
}

/// The all-but-last rule for the raw form. In data with two or more
/// occurrences of the original endpoint, after the raw substitution every
/// occurrence but the last holds the zero-padded target, the last one still
/// holds the original endpoint, and nothing outside the rewritten
/// occurrences has changed.
pub proof fn lemma_raw_patch_rule(data: Seq<u8>, endpoint: Seq<u8>)
    requires
        fits_slot(endpoint.len()),
        occurrences(data, original_endpoint()).len() >= 2,
    ensures
        redirected_but_last(data, raw_patched(data, endpoint), slot_payload(endpoint)),
        forall|j: int|
            0 <= j < data.len() && !within_any(
                occurrences(data, original_endpoint()).drop_last(),
                SLOT_WIDTH as int,
                j,
            ) ==> #[trigger] raw_patched(data, endpoint)[j] == data[j],
{
    lemma_original_endpoint();
    lemma_unbordered_spaced(data, original_endpoint());
    lemma_all_but_last_rule(data, original_endpoint(), slot_payload(endpoint));
}

/// The all-but-last rule for both forms. Where the substitution of the text
/// form, which comes second, writes to no byte of an occurrence of the
/// original endpoint, what the raw substitution did to those occurrences
/// still stands at the end.
pub proof fn lemma_both_forms_rule(
    data: Seq<u8>,
    payload: Seq<u8>,
    text_pattern: Seq<u8>,
    text_replacement: Seq<u8>,
)
    requires
        payload.len() == SLOT_WIDTH,
        occurrences(data, original_endpoint()).len() >= 2,
        forall|j: int|
            within_any(occurrences(data, original_endpoint()), SLOT_WIDTH as int, j) ==> !rewrites(
                all_but_last_replaced(data, original_endpoint(), payload),
                text_pattern,
                text_replacement,
                j,
            ),
    ensures
        redirected_but_last(
            data,
            both_forms_replaced(
                data,
                original_endpoint(),
                payload,
                text_pattern,
                text_replacement,
            ),
            payload,
        ),
{
    let found = occurrences(data, original_endpoint());
    let raw = all_but_last_replaced(data, original_endpoint(), payload);
    let after = both_forms_replaced(
        data,
        original_endpoint(),
        payload,
        text_pattern,
        text_replacement,
    );
    lemma_original_endpoint();
    lemma_occurrences(data, original_endpoint());
    lemma_unbordered_spaced(data, original_endpoint());
    lemma_all_but_last_rule(data, original_endpoint(), payload);
    lemma_outside_untouched(raw, text_pattern, text_replacement);
    assert forall|i: int| 0 <= i < found.len() implies after.subrange(
        #[trigger] found[i],
        found[i] + SLOT_WIDTH,
    ) == raw.subrange(found[i], found[i] + SLOT_WIDTH) by {
        assert(occurs_at(data, original_endpoint(), found[i]));
        assert forall|j: int| found[i] <= j < found[i] + SLOT_WIDTH implies after[j] == raw[j] by {
            assert(within_any(found, SLOT_WIDTH as int, j));
        }
        assert(after.subrange(found[i], found[i] + SLOT_WIDTH) =~= raw.subrange(
            found[i],
            found[i] + SLOT_WIDTH,
        ));
    }
    assert(found.last() == found[found.len() - 1]);
}

/// The original endpoint is clear of plain text.
pub proof fn lemma_original_is_clear()
    ensures
        clear_of_text(original_endpoint()),
{
    reveal_strlit("https://www.boomlings.com/database/");
    let text = ORIGINAL_ENDPOINT@;
    assert(is_ascii_chars(text));
    is_ascii_chars_encode_utf8(text);
    let bytes = original_endpoint();
    assert forall|k: int| 0 <= k < 5 implies #[trigger] bytes[k] != 0x3d by {
        assert(bytes[k] == text[k] as u8);
    }
    assert(bytes[5] == text[5] as u8);
    assert(bytes[34] == text[34] as u8);
}

/// What is written into the slot for a server is clear of plain text: the
/// endpoint of a server begins like any endpoint and ends in a slash, and
/// the padding after a shorter one is zero bytes.
pub proof fn lemma_server_payload_is_clear(id: Seq<char>)
    requires
        fits_slot(endpoint_bytes(id).len()),
    ensures
        clear_of_text(slot_payload(endpoint_bytes(id))),
{
    reveal_strlit("https://gdps.rigby.host/");
    reveal_strlit("/db////");
    let prefix = ENDPOINT_PREFIX@;
    let suffix = ENDPOINT_SUFFIX@;
    assert(is_ascii_chars(prefix));
    assert(is_ascii_chars(suffix));
    is_ascii_chars_encode_utf8(prefix);
    is_ascii_chars_encode_utf8(suffix);
    lemma_utf8_of_joined(prefix + id, suffix);
    lemma_utf8_of_joined(prefix, id);
    let head = encode_utf8(prefix);
    let tail = encode_utf8(suffix);
    let endpoint = endpoint_bytes(id);
    let payload = slot_payload(endpoint);
    assert(endpoint == head + encode_utf8(id) + tail);
    assert forall|k: int| 0 <= k < 6 implies #[trigger] payload[k] == prefix[k] as u8 by {
        assert(endpoint[k] == head[k]);
    }
    assert(payload[0] == prefix[0] as u8);
    assert(payload[1] == prefix[1] as u8);
    assert(payload[2] == prefix[2] as u8);
    assert(payload[3] == prefix[3] as u8);
    assert(payload[4] == prefix[4] as u8);
    assert(payload[5] == prefix[5] as u8);
    if endpoint.len() == SLOT_WIDTH {
        assert(endpoint[34] == tail[6]);
        assert(tail[6] == suffix[6] as u8);
    }
}

/// An occurrence of plain text shares no byte with a slot whose content is
/// clear of plain text.
proof fn lemma_text_misses_slot(
    buffer: Seq<u8>,
    slot: int,
    text_pattern: Seq<u8>,
    start: int,
    j: int,
)
    requires
        0 <= slot,
        slot + SLOT_WIDTH <= buffer.len(),
        clear_of_text(buffer.subrange(slot, slot + SLOT_WIDTH)),
        plain_text(text_pattern),
        occurs_at(buffer, text_pattern, start),
        slot <= j < slot + SLOT_WIDTH,
    ensures
        !(start <= j < start + text_pattern.len()),
{
    let width = text_pattern.len() as int;
    let content = buffer.subrange(slot, slot + SLOT_WIDTH);
    let window = buffer.subrange(start, start + width);
    if start <= j < start + width {
        if start > slot {
            assert(window[slot + 34 - start] == buffer[slot + 34]);
            assert(content[34] == buffer[slot + 34]);
        } else if start + width > slot + 5 {
            assert(window[slot + 5 - start] == buffer[slot + 5]);
            assert(content[5] == buffer[slot + 5]);
        } else {
            assert(window[width - 1] == buffer[start + width - 1]);
            assert(content[start + width - 1 - slot] == buffer[start + width - 1]);
        }
    }
}

/// After the raw substitution every occurrence that the original endpoint
/// had in the data holds the payload or the original endpoint.
proof fn lemma_slots_stay_clear(data: Seq<u8>, payload: Seq<u8>, i: int)
    requires
        clear_of_text(payload),
        occurrences(data, original_endpoint()).len() >= 2,
        0 <= i < occurrences(data, original_endpoint()).len(),
    ensures
        0 <= occurrences(data, original_endpoint())[i],
        occurrences(data, original_endpoint())[i] + SLOT_WIDTH <= data.len(),
        all_but_last_replaced(data, original_endpoint(), payload).len() == data.len(),
        clear_of_text(
            all_but_last_replaced(data, original_endpoint(), payload).subrange(
                occurrences(data, original_endpoint())[i],
                occurrences(data, original_endpoint())[i] + SLOT_WIDTH,
            ),
        ),
{
    let found = occurrences(data, original_endpoint());
    lemma_original_endpoint();
    lemma_original_is_clear();
    lemma_occurrences(data, original_endpoint());
    lemma_unbordered_spaced(data, original_endpoint());
    lemma_all_but_last_rule(data, original_endpoint(), payload);
    assert(occurs_at(data, original_endpoint(), found[i]));
    if i == found.len() - 1 {
        assert(found.last() == found[i]);
    }
}

/// The all-but-last rule for a whole patch. Where what is written into the
/// slot is clear of plain text, and the text form that is searched for is
/// plain text, the substitution of the text form cannot reach into an
/// occurrence of the original endpoint, rewritten or not. So in data with
/// two or more occurrences of the original endpoint, after both
/// substitutions every occurrence but the last holds the payload, the last
/// one holds the original endpoint, and the length is the same.
pub proof fn lemma_plain_text_spares_slots(
    data: Seq<u8>,
    payload: Seq<u8>,
    text_pattern: Seq<u8>,
    text_replacement: Seq<u8>,
)
    requires
        clear_of_text(payload),
        plain_text(text_pattern),
        text_replacement.len() == text_pattern.len(),
        occurrences(data, original_endpoint()).len() >= 2,
    ensures
        redirected_but_last(
            data,
            both_forms_replaced(
                data,
                original_endpoint(),
                payload,
                text_pattern,
                text_replacement,
            ),
            payload,
        ),
{
    let found = occurrences(data, original_endpoint());
    let raw = all_but_last_replaced(data, original_endpoint(), payload);
    let texts = occurrences(raw, text_pattern);
    let width = text_pattern.len() as int;
    assert forall|j: int| within_any(found, SLOT_WIDTH as int, j) implies !rewrites(
        raw,
        text_pattern,
        text_replacement,
        j,
    ) by {
        if rewrites(raw, text_pattern, text_replacement, j) {
            let i = choose|i: int|
                0 <= i < found.len() && #[trigger] found[i] <= j < found[i] + SLOT_WIDTH;
            let m = choose|m: int|
                0 <= m < texts.drop_last().len() && #[trigger] texts.drop_last()[m] <= j
                    < texts.drop_last()[m] + width;
            assert(texts.drop_last()[m] == texts[m]);
            assert(occurs_at(raw, text_pattern, texts[m])) by {
                lemma_occurrences(raw, text_pattern);
            }
            lemma_slots_stay_clear(data, payload, i);
            lemma_text_misses_slot(raw, found[i], text_pattern, texts[m], j);
        }
    }
    lemma_both_forms_rule(data, payload, text_pattern, text_replacement);
}

/// Data with fewer than two occurrences of the raw form, and fewer than two
/// of the text form, comes out of both substitutions as it went in.
pub proof fn lemma_nothing_to_replace(
    data: Seq<u8>,
    raw_pattern: Seq<u8>,
    raw_replacement: Seq<u8>,
    text_pattern: Seq<u8>,
    text_replacement: Seq<u8>,
)
    requires
        occurrences(data, raw_pattern).len() < 2,
        occurrences(data, text_pattern).len() < 2,
    ensures
        both_forms_replaced(data, raw_pattern, raw_replacement, text_pattern, text_replacement)
            == data,
{
}

/// The two forms are substituted independently: where one form has fewer
/// than two occurrences, the result is that of the all-but-last
/// substitution of the other form alone.
pub proof fn lemma_forms_independent(
    data: Seq<u8>,
    raw_pattern: Seq<u8>,
    raw_replacement: Seq<u8>,
    text_pattern: Seq<u8>,
    text_replacement: Seq<u8>,
)
    ensures
        occurrences(data, raw_pattern).len() < 2 ==> both_forms_replaced(
            data,
            raw_pattern,
            raw_replacement,
            text_pattern,
            text_replacement,
        ) == all_but_last_replaced(data, text_pattern, text_replacement),
        occurrences(all_but_last_replaced(data, raw_pattern, raw_replacement), text_pattern).len()
            < 2 ==> both_forms_replaced(
            data,
            raw_pattern,
            raw_replacement,
            text_pattern,
            text_replacement,
        ) == all_but_last_replaced(data, raw_pattern, raw_replacement),
{
}

} // verus!
