//! In-place substitution of every occurrence of a pattern but the last.
//!
//! The occurrence with the highest offset is deliberately never rewritten:
//! it is a different constant in the layout of the binary, and the client
//! keeps using it for its own purposes.

use crate::search::{find_all_positions, lemma_occurrences, occurrences, occurs_at, offsets};
use vstd::prelude::*;

verus! {

/// `data` with the bytes from offset `at` on overwritten by `replacement`.
/// The length never changes.
pub open spec fn overwritten(data: Seq<u8>, at: int, replacement: Seq<u8>) -> Seq<u8> {
    Seq::new(
        data.len(),
        |j: int|
            if at <= j < at + replacement.len() {
                replacement[j - at]
            } else {
                data[j]
            },
    )
}

/// `data` after `replacement` has been written at each of `places` in turn,
/// first place first. Where two places overlap, the later write stands.
pub open spec fn overwritten_each(data: Seq<u8>, places: Seq<int>, replacement: Seq<u8>) -> Seq<u8>
    decreases places.len(),
{
    if places.len() == 0 {
        data
    } else {
        overwritten(
            overwritten_each(data, places.drop_last(), replacement),
            places.last(),
            replacement,
        )
    }
}

/// `data` after the all-but-last substitution: with two or more occurrences
/// of `pattern`, `replacement` is written over each of them except the one
/// with the highest offset; with fewer, nothing is touched.
pub open spec fn all_but_last_replaced(
    data: Seq<u8>,
    pattern: Seq<u8>,
    replacement: Seq<u8>,
) -> Seq<u8> {
    let found = occurrences(data, pattern);
    if found.len() >= 2 {
        overwritten_each(data, found.drop_last(), replacement)
    } else {
        data
    }
}

/// Any two of `places` are at least `width` apart, so that slots of that
/// width starting there do not overlap.
pub open spec fn spaced(places: Seq<int>, width: int) -> bool {
    forall|i: int, j: int| 0 <= i < j < places.len() ==> places[i] + width <= places[j]
}

/// The slot of `width` bytes that starts at one of `places` holds offset `j`.
pub open spec fn within_any(places: Seq<int>, width: int, j: int) -> bool {
    exists|i: int| 0 <= i < places.len() && #[trigger] places[i] <= j < places[i] + width
}

/// The all-but-last substitution of `pattern` by `replacement` in `data`
/// writes to offset `j`.
pub open spec fn rewrites(data: Seq<u8>, pattern: Seq<u8>, replacement: Seq<u8>, j: int) -> bool {
    occurrences(data, pattern).len() >= 2 && within_any(
        occurrences(data, pattern).drop_last(),
        replacement.len() as int,
        j,
    )
}

/// No shifted copy of `pattern` agrees with it where the two overlap, so two
/// occurrences of it can never overlap.
pub open spec fn unbordered(pattern: Seq<u8>) -> bool {
    forall|shift: int|
        0 < shift < pattern.len() ==> #[trigger] pattern.subrange(shift, pattern.len() as int)
            != pattern.subrange(0, pattern.len() - shift)
}

/// Overwrites the bytes of `data` from offset `at` on with `replacement`.
pub fn overwrite_at(data: &mut Vec<u8>, at: usize, replacement: &[u8])
    requires
        at + replacement@.len() <= old(data)@.len(),
    ensures
        final(data)@ == overwritten(old(data)@, at as int, replacement@),
{
    let width: usize = replacement.len();
    let size: usize = data.len();
    let mut k: usize = 0;
    while k < width
        invariant
            k <= width,
            width == replacement@.len(),
            size == data@.len(),
            size == old(data)@.len(),
            at + width <= size,
            forall|j: int| 0 <= j < data@.len() ==> data@[j] == if at <= j < at + k {
                replacement@[j - at]
            } else {
                old(data)@[j]
            },
        decreases width - k,
    {
        data[at + k] = replacement[k];
        k = k + 1;
    }
    assert(data@ =~= overwritten(old(data)@, at as int, replacement@));
}

/// Rewrites every occurrence of `pattern` in `data` with `replacement`,
/// except the occurrence with the highest offset. With fewer than two
/// occurrences `data` is left as it is. The occurrences are located before
/// the first write, and written smallest offset first.
pub fn replace_all_but_last(data: &mut Vec<u8>, pattern: &[u8], replacement: &[u8])
    requires
        pattern@.len() > 0,
        replacement@.len() == pattern@.len(),
    ensures
        final(data)@ == all_but_last_replaced(old(data)@, pattern@, replacement@),
        final(data)@.len() == old(data)@.len(),
{
    let positions = find_all_positions(data.as_slice(), pattern);
    if positions.len() > 1 {
        let ghost found = occurrences(old(data)@, pattern@);
        let rewritten: usize = positions.len() - 1;
        let mut k: usize = 0;
        proof {
            lemma_occurrences(old(data)@, pattern@);
        }
        while k < rewritten
            invariant
                k <= rewritten,
                rewritten == positions@.len() - 1,
                replacement@.len() == pattern@.len(),
                offsets(positions@) == found,
                forall|i: int| 0 <= i < found.len() ==> occurs_at(old(data)@, pattern@, found[i]),
                data@.len() == old(data)@.len(),
                data@ == overwritten_each(old(data)@, found.subrange(0, k as int), replacement@),
            decreases rewritten - k,
        {
            assert(found[k as int] == positions@[k as int]);
            assert(occurs_at(old(data)@, pattern@, found[k as int]));
            overwrite_at(data, positions[k], replacement);
            assert(found.subrange(0, k + 1).drop_last() =~= found.subrange(0, k as int));
            k = k + 1;
        }
        assert(found.subrange(0, rewritten as int) =~= found.drop_last());
    }
}

/// The substitution never changes the length of the data.
pub proof fn lemma_length_unchanged(data: Seq<u8>, pattern: Seq<u8>, replacement: Seq<u8>)
    ensures
        all_but_last_replaced(data, pattern, replacement).len() == data.len(),
{
    let found = occurrences(data, pattern);
    if found.len() >= 2 {
        lemma_overwritten_each_length(data, found.drop_last(), replacement);
    }
}

/// Writing at any list of places keeps the length.
pub proof fn lemma_overwritten_each_length(data: Seq<u8>, places: Seq<int>, replacement: Seq<u8>)
    ensures
        overwritten_each(data, places, replacement).len() == data.len(),
    decreases places.len(),
{
    if places.len() > 0 {
        lemma_overwritten_each_length(data, places.drop_last(), replacement);
    }
}

/// Writing at any list of places leaves every byte outside their slots as
/// it was.
pub proof fn lemma_overwritten_each_outside(data: Seq<u8>, places: Seq<int>, replacement: Seq<u8>)
    ensures
        overwritten_each(data, places, replacement).len() == data.len(),
        forall|j: int|
            0 <= j < data.len() && !within_any(places, replacement.len() as int, j)
                ==> #[trigger] overwritten_each(data, places, replacement)[j] == data[j],
    decreases places.len(),
{
    let width = replacement.len() as int;
    if places.len() > 0 {
        let earlier = places.drop_last();
        lemma_overwritten_each_outside(data, earlier, replacement);
        assert forall|j: int|
            0 <= j < data.len() && !within_any(places, width, j) implies #[trigger] overwritten_each(
            data,
            places,
            replacement,
        )[j] == data[j] by {
            assert(!(places[places.len() - 1] <= j < places[places.len() - 1] + width));
            if within_any(earlier, width, j) {
                let i = choose|i: int|
                    0 <= i < earlier.len() && #[trigger] earlier[i] <= j < earlier[i] + width;
                assert(places[i] <= j < places[i] + width);
            }
        }
    }
}

/// The substitution changes no byte that it does not write to.
pub proof fn lemma_outside_untouched(data: Seq<u8>, pattern: Seq<u8>, replacement: Seq<u8>)
    ensures
        all_but_last_replaced(data, pattern, replacement).len() == data.len(),
        forall|j: int|
            0 <= j < data.len() && !rewrites(data, pattern, replacement, j)
                ==> #[trigger] all_but_last_replaced(data, pattern, replacement)[j] == data[j],
{
    let found = occurrences(data, pattern);
    if found.len() >= 2 {
        lemma_overwritten_each_outside(data, found.drop_last(), replacement);
    }
}

/// With no occurrence or a single one, the substitution changes nothing.
pub proof fn lemma_fewer_than_two_unchanged(data: Seq<u8>, pattern: Seq<u8>, replacement: Seq<u8>)
    requires
        occurrences(data, pattern).len() < 2,
    ensures
        all_but_last_replaced(data, pattern, replacement) == data,
{
}

/// Writing at places whose slots do not overlap leaves the replacement
/// standing at each place, and every byte outside the slots as it was.
pub proof fn lemma_overwritten_each_spaced(data: Seq<u8>, places: Seq<int>, replacement: Seq<u8>)
    requires
        spaced(places, replacement.len() as int),
        forall|i: int|
            0 <= i < places.len() ==> 0 <= #[trigger] places[i] && places[i] + replacement.len()
                <= data.len(),
    ensures
        overwritten_each(data, places, replacement).len() == data.len(),
        forall|i: int|
            0 <= i < places.len() ==> overwritten_each(data, places, replacement).subrange(
                #[trigger] places[i],
                places[i] + replacement.len(),
            ) == replacement,
        forall|j: int|
            0 <= j < data.len() && !within_any(places, replacement.len() as int, j)
                ==> #[trigger] overwritten_each(data, places, replacement)[j] == data[j],
    decreases places.len(),
{
    let width = replacement.len() as int;
    let after = overwritten_each(data, places, replacement);
    lemma_overwritten_each_outside(data, places, replacement);
    if places.len() > 0 {
        let earlier = places.drop_last();
        let before = overwritten_each(data, earlier, replacement);
        let last = places.last();
        lemma_overwritten_each_spaced(data, earlier, replacement);
        assert forall|i: int| 0 <= i < places.len() implies after.subrange(
            #[trigger] places[i],
            places[i] + width,
        ) == replacement by {
            if i < places.len() - 1 {
                assert(earlier[i] == places[i]);
                assert(places[i] + width <= last);
                assert(after.subrange(places[i], places[i] + width) =~= before.subrange(
                    earlier[i],
                    earlier[i] + width,
                ));
            } else {
                assert(after.subrange(last, last + width) =~= replacement);
            }
        }
    }
}

/// Two occurrences of an unbordered pattern never overlap.
pub proof fn lemma_unbordered_apart(data: Seq<u8>, pattern: Seq<u8>, first: int, second: int)
    requires
        unbordered(pattern),
        occurs_at(data, pattern, first),
        occurs_at(data, pattern, second),
        first < second,
    ensures
        first + pattern.len() <= second,
{
    let width = pattern.len() as int;
    let shift = second - first;
    if shift < width {
        let head = pattern.subrange(0, width - shift);
        let tail = pattern.subrange(shift, width);
        assert(head =~= tail) by {
            assert forall|k: int| 0 <= k < width - shift implies head[k] == tail[k] by {
                assert(data.subrange(first, first + width)[shift + k] == pattern[shift + k]);
                assert(data.subrange(second, second + width)[k] == pattern[k]);
            }
        }
    }
}

/// The occurrences of an unbordered pattern are spaced by its width.
pub proof fn lemma_unbordered_spaced(data: Seq<u8>, pattern: Seq<u8>)
    requires
        pattern.len() > 0,
        unbordered(pattern),
    ensures
        spaced(occurrences(data, pattern), pattern.len() as int),
{
    let found = occurrences(data, pattern);
    lemma_occurrences(data, pattern);
    assert forall|i: int, j: int| 0 <= i < j < found.len() implies found[i] + pattern.len()
        <= found[j] by {
        lemma_unbordered_apart(data, pattern, found[i], found[j]);
    }
}

/// A pattern whose first byte occurs nowhere else in it is unbordered.
pub proof fn lemma_unique_first_byte_unbordered(pattern: Seq<u8>)
    requires
        forall|i: int| 0 < i < pattern.len() ==> #[trigger] pattern[i] != pattern[0],
    ensures
        unbordered(pattern),
{
    assert forall|shift: int| 0 < shift < pattern.len() implies #[trigger] pattern.subrange(
        shift,
        pattern.len() as int,
    ) != pattern.subrange(0, pattern.len() - shift) by {
        assert(pattern.subrange(shift, pattern.len() as int)[0] == pattern[shift]);
        assert(pattern.subrange(0, pattern.len() - shift)[0] == pattern[0]);
    }
}

/// The all-but-last rule, where occurrences do not overlap: of two or more
/// occurrences, every one but the last reads as the replacement afterwards,
/// the last one still reads as the pattern, no byte outside the rewritten
/// occurrences has changed, and the length is the same.
pub proof fn lemma_all_but_last_rule(data: Seq<u8>, pattern: Seq<u8>, replacement: Seq<u8>)
    requires
        pattern.len() > 0,
        replacement.len() == pattern.len(),
        occurrences(data, pattern).len() >= 2,
        spaced(occurrences(data, pattern), pattern.len() as int),
    ensures
        all_but_last_replaced(data, pattern, replacement).len() == data.len(),
        forall|i: int|
            0 <= i < occurrences(data, pattern).len() - 1 ==> all_but_last_replaced(
                data,
                pattern,
                replacement,
            ).subrange(
                #[trigger] occurrences(data, pattern)[i],
                occurrences(data, pattern)[i] + pattern.len(),
            ) == replacement,
        all_but_last_replaced(data, pattern, replacement).subrange(
            occurrences(data, pattern).last(),
            occurrences(data, pattern).last() + pattern.len(),
        ) == pattern,
        forall|j: int|
            0 <= j < data.len() && !within_any(
                occurrences(data, pattern).drop_last(),
                pattern.len() as int,
                j,
            ) ==> #[trigger] all_but_last_replaced(data, pattern, replacement)[j] == data[j],
{
    let width = pattern.len() as int;
    let found = occurrences(data, pattern);
    let places = found.drop_last();
    let after = all_but_last_replaced(data, pattern, replacement);
    let last = found.last();
    lemma_occurrences(data, pattern);
    assert(forall|i: int| 0 <= i < places.len() ==> places[i] == found[i]);
    assert forall|i: int| 0 <= i < places.len() implies 0 <= #[trigger] places[i] && places[i]
        + replacement.len() <= data.len() by {
        assert(occurs_at(data, pattern, found[i]));
    }
    lemma_overwritten_each_spaced(data, places, replacement);
    assert forall|i: int| 0 <= i < found.len() - 1 implies after.subrange(
        #[trigger] found[i],
        found[i] + width,
    ) == replacement by {
        assert(places[i] == found[i]);
    }
    assert(occurs_at(data, pattern, found[found.len() - 1]));
    assert(after.subrange(last, last + width) =~= data.subrange(last, last + width)) by {
        assert forall|j: int| last <= j < last + width implies after[j] == data[j] by {
            if within_any(places, width, j) {
                let i = choose|i: int|
                    0 <= i < places.len() && #[trigger] places[i] <= j < places[i] + width;
                assert(found[i] + width <= found[found.len() - 1]);
            }
        }
    }
}

} // verus!
