use vstd::arithmetic::div_mod::{
    lemma_div_pos_is_pos, lemma_fundamental_div_mod, lemma_fundamental_div_mod_converse,
    lemma_mod_bound,
};
use vstd::arithmetic::mul::{lemma_mul_inequality, lemma_mul_is_commutative};
use vstd::prelude::*;

verus! {

/// The position of slot `offset` of subarray number `subarray`, where every subarray has
/// `size` slots: positions count the slots of all subarrays in one row.
pub open spec fn position(subarray: int, offset: int, size: int) -> int {
    subarray * size + offset
}

/// The number of the subarray that position `pos` lies in.
pub open spec fn subarray_of(pos: int, size: int) -> int {
    pos / size
}

/// The slot of its subarray that position `pos` names.
pub open spec fn offset_of(pos: int, size: int) -> int {
    pos % size
}

/// A position is the slot `offset_of` of the subarray `subarray_of`.
pub proof fn lemma_position_split(pos: int, size: int)
    requires
        size > 0,
        pos >= 0,
    ensures
        pos == position(subarray_of(pos, size), offset_of(pos, size), size),
        0 <= offset_of(pos, size) < size,
        0 <= subarray_of(pos, size),
{
    lemma_fundamental_div_mod(pos, size);
    lemma_mod_bound(pos, size);
    lemma_div_pos_is_pos(pos, size);
    lemma_mul_is_commutative(size, pos / size);
}

/// The subarray and the slot of a position are the ones it was made from.
pub proof fn lemma_position_join(subarray: int, offset: int, size: int)
    requires
        size > 0,
        0 <= offset < size,
    ensures
        subarray_of(position(subarray, offset, size), size) == subarray,
        offset_of(position(subarray, offset, size), size) == offset,
{
    lemma_fundamental_div_mod_converse(subarray * size + offset, size, subarray, offset);
}

/// A position between the first slot of subarray `first` and the last slot of subarray
/// `last` lies in one of the subarrays from `first` to `last`.
pub proof fn lemma_position_within(pos: int, first: int, last: int, size: int)
    requires
        size > 0,
        0 <= first,
        position(first, 0, size) <= pos < position(last, size, size),
    ensures
        first <= subarray_of(pos, size) <= last,
{
    lemma_position_split(pos, size);
    let q = subarray_of(pos, size);
    if q < first {
        lemma_mul_inequality(q + 1, first, size);
        assert((q + 1) * size == q * size + size) by (nonlinear_arith);
    }
    if q > last {
        lemma_mul_inequality(last + 1, q, size);
        assert((last + 1) * size == last * size + size) by (nonlinear_arith);
    }
}

/// The first slot of the next subarray comes right after the last slot of this one, and
/// the subarrays below number `count` end at or before `count * size`.
pub proof fn lemma_position_step(subarray: int, count: int, size: int)
    requires
        size > 0,
        0 <= subarray < count,
    ensures
        position(subarray + 1, 0, size) == position(subarray, size, size),
        position(subarray, size, size) <= count * size,
        0 <= position(subarray, 0, size),
{
    assert((subarray + 1) * size == subarray * size + size) by (nonlinear_arith);
    lemma_mul_inequality(subarray + 1, count, size);
    lemma_mul_inequality(0, subarray, size);
}

/// Subarrays lie in the order of their numbers, one right after the other.
pub proof fn lemma_position_order(a: int, b: int, size: int)
    requires
        size > 0,
        a <= b,
    ensures
        position(a, 0, size) <= position(b, 0, size),
        position(a, size, size) <= position(b, size, size),
        position(a, size, size) == position(a + 1, 0, size),
        position(b, size, size) == position(b + 1, 0, size),
{
    lemma_mul_inequality(a, b, size);
    assert((a + 1) * size == a * size + size) by (nonlinear_arith);
    assert((b + 1) * size == b * size + size) by (nonlinear_arith);
}

/// The position `delta` subarrays further on has the same slot, `delta` subarrays further on.
pub proof fn lemma_position_shift(pos: int, delta: int, size: int)
    requires
        size > 0,
        pos >= 0,
    ensures
        subarray_of(pos + delta * size, size) == subarray_of(pos, size) + delta,
        offset_of(pos + delta * size, size) == offset_of(pos, size),
{
    lemma_position_split(pos, size);
    let q = subarray_of(pos, size);
    let r = offset_of(pos, size);
    assert((q + delta) * size == q * size + delta * size) by (nonlinear_arith);
    lemma_position_join(q + delta, r, size);
}

} // verus!
