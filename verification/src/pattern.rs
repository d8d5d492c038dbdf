//! The canonical value pattern: offset `i` of every value holds `i mod 256`.

use vstd::prelude::*;

verus! {

/// Longest value that is ever written, and the length of the full pattern.
pub const MAX_VAL_SIZE: usize = 4096;

/// The byte that the pattern holds at `offset`.
pub open spec fn pattern_byte(offset: int) -> u8 {
    (offset % 256) as u8
}

/// The pattern cut to `len` bytes.
pub open spec fn canonical(len: nat) -> Seq<u8> {
    Seq::new(len, |i: int| pattern_byte(i))
}

/// Whether `value` departs from the pattern at `offset`: the byte there is
/// wrong, or lies beyond the end of the full pattern.
pub open spec fn departs_at(value: Seq<u8>, offset: int) -> bool {
    offset >= MAX_VAL_SIZE || value[offset] != pattern_byte(offset)
}

/// Whether `value` is the pattern cut to the value's own length, which is
/// no more than the length of the full pattern.
pub open spec fn is_canonical(value: Seq<u8>) -> bool {
    value.len() <= MAX_VAL_SIZE && value == canonical(value.len())
}

/// The least offset from `from` on at which `value` departs from the pattern.
pub open spec fn departure_from(value: Seq<u8>, from: int) -> Option<int>
    decreases value.len() - from,
{
    if from < 0 || from >= value.len() {
        None
    } else if departs_at(value, from) {
        Some(from)
    } else {
        departure_from(value, from + 1)
    }
}

/// The least offset at which `value` departs from the pattern, if any.
pub open spec fn first_departure(value: Seq<u8>) -> Option<int> {
    departure_from(value, 0)
}

/// Builds the pattern cut to `len` bytes.
pub fn initialize_value(len: usize) -> (value: Vec<u8>)
    ensures
        value@.len() == len,
        forall|i: int| 0 <= i < len ==> value@[i] == i % 256,
        value@ == canonical(len as nat),
{
    let mut value: Vec<u8> = Vec::new();
    let mut i: usize = 0;
    while i < len
        invariant
            i <= len,
            value@ == canonical(i as nat),
        decreases len - i,
    {
        value.push((i % 256) as u8);
        i += 1;
    }
    value
}

/// Looks for the first byte of `value` that is not the pattern's. There is
/// none exactly where `value` is canonical.
pub fn find_departure(value: &[u8]) -> (found: Option<usize>)
    ensures
        found is None <==> is_canonical(value@),
        match found {
            Some(offset) => first_departure(value@) == Some(offset as int),
            None => first_departure(value@) is None,
        },
{
    let mut i: usize = 0;
    while i < value.len()
        invariant
            i <= value.len(),
            first_departure(value@) == departure_from(value@, i as int),
        decreases value.len() - i,
    {
        if i >= MAX_VAL_SIZE || value[i] != (i % 256) as u8 {
            return Some(i);
        }
        i += 1;
    }
    proof {
        lemma_first_departure(value@);
    }
    None
}

/// What `first_departure` finds: nothing exactly for canonical values, and
/// otherwise the least offset at which the value departs.
pub proof fn lemma_first_departure(value: Seq<u8>)
    ensures
        first_departure(value) is None <==> is_canonical(value),
        first_departure(value) matches Some(offset) ==> {
            &&& 0 <= offset < value.len()
            &&& departs_at(value, offset)
            &&& forall|i: int| 0 <= i < offset ==> !departs_at(value, i)
        },
{
    lemma_departure_from(value, 0);
    if first_departure(value) is None {
        if value.len() > MAX_VAL_SIZE {
            assert(!departs_at(value, MAX_VAL_SIZE as int));
        }
        assert forall|i: int| 0 <= i < value.len() implies value[i] == canonical(
            value.len(),
        )[i] by {
            assert(!departs_at(value, i));
        }
        assert(value =~= canonical(value.len()));
    }
}

proof fn lemma_departure_from(value: Seq<u8>, from: int)
    requires
        0 <= from,
    ensures
        departure_from(value, from) is None <==> forall|i: int|
            from <= i < value.len() ==> !departs_at(value, i),
        departure_from(value, from) matches Some(offset) ==> {
            &&& from <= offset < value.len()
            &&& departs_at(value, offset)
            &&& forall|i: int| from <= i < offset ==> !departs_at(value, i)
        },
    decreases value.len() - from,
{
    if from < value.len() && !departs_at(value, from) {
        lemma_departure_from(value, from + 1);
    }
}

} // verus!
