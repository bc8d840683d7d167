//! Byte-exact search for every occurrence of a pattern, overlapping ones
//! included.

use vstd::prelude::*;

verus! {

/// `pattern` occurs in `data` starting at offset `at`.
pub open spec fn occurs_at(data: Seq<u8>, pattern: Seq<u8>, at: int) -> bool {
    &&& 0 <= at
    &&& at + pattern.len() <= data.len()
    &&& data.subrange(at, at + pattern.len()) == pattern
}

/// The offsets below `limit` at which `pattern` occurs in `data`, in
/// increasing order.
pub open spec fn occurrences_below(data: Seq<u8>, pattern: Seq<u8>, limit: int) -> Seq<int>
    decreases limit,
{
    if limit <= 0 {
        Seq::empty()
    } else if occurs_at(data, pattern, limit - 1) {
        occurrences_below(data, pattern, limit - 1).push(limit - 1)
    } else {
        occurrences_below(data, pattern, limit - 1)
    }
}

/// Every offset at which `pattern` occurs in `data`, in increasing order.
pub open spec fn occurrences(data: Seq<u8>, pattern: Seq<u8>) -> Seq<int> {
    occurrences_below(data, pattern, data.len() as int)
}

/// A list of offsets read as mathematical integers.
pub open spec fn offsets(positions: Seq<usize>) -> Seq<int> {
    positions.map_values(|p: usize| p as int)
}

/// `occurrences_below` lists exactly the occurrences under its limit, each
/// once, smallest first.
pub proof fn lemma_occurrences_below(data: Seq<u8>, pattern: Seq<u8>, limit: int)
    ensures
        forall|k: int|
            0 <= k < occurrences_below(data, pattern, limit).len() ==> {
                &&& occurs_at(data, pattern, #[trigger] occurrences_below(data, pattern, limit)[k])
                &&& occurrences_below(data, pattern, limit)[k] < limit
            },
        forall|j: int, k: int|
            0 <= j < k < occurrences_below(data, pattern, limit).len() ==> occurrences_below(
                data,
                pattern,
                limit,
            )[j] < occurrences_below(data, pattern, limit)[k],
        forall|at: int|
            occurs_at(data, pattern, at) && at < limit ==> occurrences_below(
                data,
                pattern,
                limit,
            ).contains(at),
    decreases limit,
{
    if limit > 0 {
        lemma_occurrences_below(data, pattern, limit - 1);
        let shorter = occurrences_below(data, pattern, limit - 1);
        let found = occurrences_below(data, pattern, limit);
        assert forall|at: int| occurs_at(data, pattern, at) && at < limit implies found.contains(
            at,
        ) by {
            if at < limit - 1 {
                let k = choose|k: int| 0 <= k < shorter.len() && shorter[k] == at;
                assert(found[k] == at);
            } else {
                assert(found[found.len() - 1] == at);
            }
        }
    }
}

/// The occurrences of a pattern are exactly the offsets at which it occurs,
/// each listed once, in strictly increasing order.
pub proof fn lemma_occurrences(data: Seq<u8>, pattern: Seq<u8>)
    requires
        pattern.len() > 0,
    ensures
        forall|k: int|
            0 <= k < occurrences(data, pattern).len() ==> occurs_at(
                data,
                pattern,
                #[trigger] occurrences(data, pattern)[k],
            ),
        forall|j: int, k: int|
            0 <= j < k < occurrences(data, pattern).len() ==> occurrences(data, pattern)[j]
                < occurrences(data, pattern)[k],
        forall|at: int|
            occurs_at(data, pattern, at) <==> occurrences(data, pattern).contains(at),
{
    lemma_occurrences_below(data, pattern, data.len() as int);
}

/// Whether `pattern` occurs in `data` at offset `at`. At an offset where
/// the pattern would run past the end of the data it does not.
pub fn matches_at(data: &[u8], pattern: &[u8], at: usize) -> (hit: bool)
    ensures
        hit == occurs_at(data@, pattern@, at as int),
{
    let width: usize = pattern.len();
    let size: usize = data.len();
    if width > size || at > size - width {
        return false;
    }
    let mut k: usize = 0;
    while k < width
        invariant
            k <= width,
            width == pattern@.len(),
            size == data@.len(),
            at + width <= size,
            forall|j: int| 0 <= j < k ==> data@[at + j] == pattern@[j],
        decreases width - k,
    {
        if data[at + k] != pattern[k] {
            assert(data@.subrange(at as int, at + pattern@.len())[k as int] != pattern@[k as int]);
            return false;
        }
        k = k + 1;
    }
    assert(data@.subrange(at as int, at + pattern@.len()) =~= pattern@);
    true
}

/// Finds every offset at which `pattern` occurs in `data`, overlapping
/// occurrences included, smallest offset first.
pub fn find_all_positions(data: &[u8], pattern: &[u8]) -> (positions: Vec<usize>)
    requires
        pattern@.len() > 0,
    ensures
        offsets(positions@) == occurrences(data@, pattern@),
{
    let mut positions: Vec<usize> = Vec::new();
    if pattern.len() > data.len() {
        proof {
            lemma_occurrences(data@, pattern@);
            if occurrences(data@, pattern@).len() > 0 {
                assert(occurs_at(data@, pattern@, occurrences(data@, pattern@)[0]));
            }
            assert(offsets(positions@) =~= occurrences(data@, pattern@));
        }
        return positions;
    }
    let windows: usize = data.len() - pattern.len() + 1;
    let mut at: usize = 0;
    while at < windows
        invariant
            at <= windows,
            windows == data@.len() - pattern@.len() + 1,
            pattern@.len() > 0,
            offsets(positions@) == occurrences_below(data@, pattern@, at as int),
        decreases windows - at,
    {
        let ghost before = positions@;
        if matches_at(data, pattern, at) {
            positions.push(at);
            assert(offsets(positions@) =~= offsets(before).push(at as int));
        }
        at = at + 1;
    }
    proof {
        lemma_occurrences_tail(data@, pattern@, windows as int, data@.len() as int);
    }
    positions
}

/// No occurrence starts so late that the pattern would run past the end of
/// the data, so raising the limit beyond that point finds nothing new.
proof fn lemma_occurrences_tail(data: Seq<u8>, pattern: Seq<u8>, from: int, limit: int)
    requires
        pattern.len() > 0,
        from == data.len() - pattern.len() + 1,
        from <= limit,
    ensures
        occurrences_below(data, pattern, limit) == occurrences_below(data, pattern, from),
    decreases limit - from,
{
    if from < limit {
        lemma_occurrences_tail(data, pattern, from, limit - 1);
    }
}

} // verus!
