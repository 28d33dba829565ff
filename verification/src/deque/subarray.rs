use crate::deque::position::{
    lemma_position_join, lemma_position_order, lemma_position_shift, lemma_position_split,
    lemma_position_within, offset_of, position, subarray_of,
};
use vstd::prelude::*;

verus! {

/// A block of slots; a slot is `None` until an element is written to it.
pub type Subarray<T> = Vec<Option<T>>;

/// The number of slots in each subarray of a deque whose elements take `elem_size` bytes.
pub open spec fn subarray_size_of(elem_size: nat) -> usize {
    if elem_size <= 4 {
        64
    } else if elem_size <= 8 {
        32
    } else if elem_size <= 16 {
        16
    } else if elem_size <= 32 {
        8
    } else {
        4
    }
}

/// What the slot at position `pos` holds.
pub open spec fn cell<T>(ptrs: Seq<Option<Subarray<T>>>, pos: int, size: int) -> Option<T> {
    ptrs[subarray_of(pos, size)].unwrap()@[offset_of(pos, size)]
}

/// The subarrays from `first` to `last` are there, each with `size` slots.
pub open spec fn allocated<T>(
    ptrs: Seq<Option<Subarray<T>>>,
    first: int,
    last: int,
    size: int,
) -> bool {
    forall|i: int|
        first <= i <= last ==> (#[trigger] ptrs[i]).is_some() && ptrs[i].unwrap()@.len() == size
}

/// The slots at the positions from `from` up to `to` hold an element each.
pub open spec fn occupied<T>(ptrs: Seq<Option<Subarray<T>>>, from: int, to: int, size: int) -> bool {
    forall|pos: int| from <= pos < to ==> (#[trigger] cell(ptrs, pos, size)).is_some()
}

/// The elements at the positions from `from` up to `to`, in that order.
pub open spec fn elements<T>(ptrs: Seq<Option<Subarray<T>>>, from: int, to: int, size: int) -> Seq<T> {
    Seq::new((to - from) as nat, |k: int| cell(ptrs, from + k, size).unwrap())
}

/// `after` is `before` with `value` in slot `offset` of subarray `subarray`.
pub open spec fn exchanged<T>(
    before: Seq<Option<Subarray<T>>>,
    after: Seq<Option<Subarray<T>>>,
    subarray: int,
    offset: int,
    value: Option<T>,
) -> bool {
    &&& after.len() == before.len()
    &&& forall|i: int| 0 <= i < before.len() && i != subarray ==> after[i] == before[i]
    &&& after[subarray].is_some()
    &&& after[subarray].unwrap()@ == before[subarray].unwrap()@.update(offset, value)
}

/// Puts `value` into slot `offset` of subarray `subarray` and hands out what the slot held.
pub fn exchange<T>(
    ptrs: &mut Vec<Option<Subarray<T>>>,
    subarray: usize,
    offset: usize,
    value: Option<T>,
) -> (prev: Option<T>)
    requires
        subarray < old(ptrs)@.len(),
        old(ptrs)@[subarray as int].is_some(),
        offset < old(ptrs)@[subarray as int].unwrap()@.len(),
    ensures
        exchanged(old(ptrs)@, final(ptrs)@, subarray as int, offset as int, value),
        prev == old(ptrs)@[subarray as int].unwrap()@[offset as int],
{
    let mut value = value;
    match &mut ptrs[subarray] {
        Some(cells) => {
            core::mem::swap(&mut cells[offset], &mut value);
        },
        None => {},
    }
    value
}

/// A look at slot `offset` of subarray `subarray`.
pub fn peek<T>(ptrs: &Vec<Option<Subarray<T>>>, subarray: usize, offset: usize) -> (elem: Option<&T>)
    requires
        subarray < ptrs@.len(),
        ptrs@[subarray as int].is_some(),
        offset < ptrs@[subarray as int].unwrap()@.len(),
    ensures
        elem == match ptrs@[subarray as int].unwrap()@[offset as int] {
            Some(value) => Some(&value),
            None => None,
        },
{
    match &ptrs[subarray] {
        Some(cells) => cells[offset].as_ref(),
        None => None,
    }
}

/// A mutable look at slot `offset` of subarray `subarray`.
pub fn peek_mut<T>(
    ptrs: &mut Vec<Option<Subarray<T>>>,
    subarray: usize,
    offset: usize,
) -> (elem: Option<&mut T>)
    requires
        subarray < old(ptrs)@.len(),
        old(ptrs)@[subarray as int].is_some(),
        offset < old(ptrs)@[subarray as int].unwrap()@.len(),
    ensures
        elem.is_some() == old(ptrs)@[subarray as int].unwrap()@[offset as int].is_some(),
        elem.is_some() ==> old(ptrs)@[subarray as int].unwrap()@[offset as int] == Some(
            *elem.unwrap(),
        ),
        exchanged(
            old(ptrs)@,
            final(ptrs)@,
            subarray as int,
            offset as int,
            match elem {
                Some(value) => Some(*final(value)),
                None => None,
            },
        ),
{
    match &mut ptrs[subarray] {
        Some(cells) => cells[offset].as_mut(),
        None => None,
    }
}

/// After an exchange the slot at the exchanged position holds the new value, and every other
/// slot holds what it held.
pub proof fn lemma_exchanged_cells<T>(
    before: Seq<Option<Subarray<T>>>,
    after: Seq<Option<Subarray<T>>>,
    subarray: int,
    offset: int,
    value: Option<T>,
    size: int,
)
    requires
        size > 0,
        0 <= subarray < before.len(),
        0 <= offset < size,
        before[subarray].is_some(),
        before[subarray].unwrap()@.len() == size,
        exchanged(before, after, subarray, offset, value),
    ensures
        cell(after, position(subarray, offset, size), size) == value,
        forall|pos: int|
            0 <= pos && pos != position(subarray, offset, size) && subarray_of(pos, size)
                < before.len() ==> #[trigger] cell(after, pos, size) == cell(before, pos, size),
        forall|i: int|
            0 <= i < before.len() && before[i].is_some() ==> (#[trigger] after[i]).is_some()
                && after[i].unwrap()@.len() == before[i].unwrap()@.len(),
        forall|i: int| 0 <= i < before.len() && before[i].is_none() ==> (#[trigger] after[i]).is_none(),
{
    lemma_position_join(subarray, offset, size);
    assert forall|pos: int|
        0 <= pos && pos != position(subarray, offset, size) && subarray_of(pos, size)
            < before.len() implies #[trigger] cell(after, pos, size) == cell(before, pos, size) by {
        lemma_position_split(pos, size);
    }
}

} // verus!

verus! {

/// The slots at the positions from `from` up to `to` hold nothing.
pub open spec fn vacant<T>(ptrs: Seq<Option<Subarray<T>>>, from: int, to: int, size: int) -> bool {
    forall|pos: int| from <= pos < to ==> (#[trigger] cell(ptrs, pos, size)).is_none()
}

/// The array of subarrays holds exactly the subarrays from `first` to `last`, and of their
/// slots exactly those at the positions from `lo` up to `hi` hold an element.
pub open spec fn holds<T>(
    ptrs: Seq<Option<Subarray<T>>>,
    first: int,
    last: int,
    lo: int,
    hi: int,
    size: int,
) -> bool {
    &&& size > 0
    &&& 0 <= first <= last < ptrs.len()
    &&& allocated(ptrs, first, last, size)
    &&& forall|i: int| 0 <= i < ptrs.len() && !(first <= i <= last) ==> (#[trigger] ptrs[i]).is_none()
    &&& position(first, 0, size) <= lo <= hi <= position(last, size, size)
    &&& occupied(ptrs, lo, hi, size)
    &&& vacant(ptrs, position(first, 0, size), lo, size)
    &&& vacant(ptrs, hi, position(last, size, size), size)
}

/// The slots of a subarray of `size` slots that hold nothing.
pub open spec fn vacated<T>(size: int) -> Seq<Option<T>> {
    Seq::new(size as nat, |j: int| None)
}

/// Where no slot holds an element, every subarray is a row of slots that hold nothing.
pub proof fn lemma_all_vacant<T>(
    ptrs: Seq<Option<Subarray<T>>>,
    first: int,
    last: int,
    at: int,
    size: int,
)
    requires
        holds(ptrs, first, last, at, at, size),
    ensures
        forall|i: int| first <= i <= last ==> (#[trigger] ptrs[i]).unwrap()@ == vacated::<T>(size),
{
    assert forall|i: int| first <= i <= last implies (#[trigger] ptrs[i]).unwrap()@ == vacated::<T>(
        size,
    ) by {
        assert(ptrs[i].is_some() && ptrs[i].unwrap()@.len() == size);
        assert forall|j: int| 0 <= j < size implies (#[trigger] ptrs[i].unwrap()@[j]).is_none() by {
            lemma_position_join(i, j, size);
            lemma_position_order(first, i, size);
            lemma_position_order(i, last, size);
            assert(cell(ptrs, position(i, j, size), size).is_none());
        }
        assert(ptrs[i].unwrap()@ =~= vacated::<T>(size));
    }
}

/// The bounds `lo2` and `hi2` are the bounds `lo` and `hi` moved by one slot at one end, the
/// slot at position `p`.
pub open spec fn steps(lo: int, hi: int, lo2: int, hi2: int, p: int) -> bool {
    ||| lo2 == lo && hi2 == hi + 1 && p == hi
    ||| lo2 == lo && hi2 == hi - 1 && p == hi2
    ||| lo2 == lo - 1 && hi2 == hi && p == lo2
    ||| lo2 == lo + 1 && hi2 == hi && p == lo
}

/// An exchange at position `p` that fits the new bounds `lo2` and `hi2` keeps the array in
/// order, and changes no slot but the one at `p`.
pub proof fn lemma_exchange_holds<T>(
    before: Seq<Option<Subarray<T>>>,
    after: Seq<Option<Subarray<T>>>,
    first: int,
    last: int,
    lo: int,
    hi: int,
    lo2: int,
    hi2: int,
    p: int,
    value: Option<T>,
    size: int,
)
    requires
        holds(before, first, last, lo, hi, size),
        position(first, 0, size) <= p < position(last, size, size),
        exchanged(before, after, subarray_of(p, size), offset_of(p, size), value),
        position(first, 0, size) <= lo2 <= hi2 <= position(last, size, size),
        steps(lo, hi, lo2, hi2, p),
        value.is_some() <==> lo2 <= p < hi2,
    ensures
        holds(after, first, last, lo2, hi2, size),
        cell(after, p, size) == value,
        forall|pos: int|
            position(first, 0, size) <= pos < position(last, size, size) && pos != p
                ==> #[trigger] cell(after, pos, size) == cell(before, pos, size),
{
    lemma_position_order(0, first, size);
    lemma_position_split(p, size);
    lemma_position_within(p, first, last, size);
    lemma_exchanged_cells(before, after, subarray_of(p, size), offset_of(p, size), value, size);
    assert forall|pos: int|
        position(first, 0, size) <= pos < position(last, size, size) && pos
            != p implies #[trigger] cell(after, pos, size) == cell(before, pos, size) by {
        lemma_position_within(pos, first, last, size);
    }
    assert forall|i: int| first <= i <= last implies (#[trigger] after[i]).is_some()
        && after[i].unwrap()@.len() == size by {
        assert(before[i].is_some());
    }
    assert forall|i: int| 0 <= i < after.len() && !(first <= i <= last) implies (
    #[trigger] after[i]).is_none() by {
        assert(before[i].is_none());
    }
    assert forall|pos: int| lo2 <= pos < hi2 implies (#[trigger] cell(
        after,
        pos,
        size,
    )).is_some() by {
        if pos != p {
            assert(cell(before, pos, size).is_some());
        }
    }
    assert forall|pos: int| position(first, 0, size) <= pos < lo2 implies (#[trigger] cell(
        after,
        pos,
        size,
    )).is_none() by {
        if pos != p {
            assert(cell(before, pos, size).is_none());
        }
    }
    assert forall|pos: int| hi2 <= pos < position(last, size, size) implies (#[trigger] cell(
        after,
        pos,
        size,
    )).is_none() by {
        if pos != p {
            assert(cell(before, pos, size).is_none());
        }
    }
}

/// The subarrays from `first2` to `last2` are those from `first` to `last` with subarray `i`
/// added or taken away at one end.
pub open spec fn extends(first: int, last: int, first2: int, last2: int, i: int) -> bool {
    ||| first2 == first && last2 == last + 1 && i == last2
    ||| first2 == first - 1 && last2 == last && i == first2
    ||| first2 == first && last2 == last - 1 && i == last
    ||| first2 == first + 1 && last2 == last && i == first
}

/// Putting a fresh subarray next to the held ones, or taking away an empty one at either
/// end, keeps the array in order and changes no slot of the other subarrays.
pub proof fn lemma_entry_holds<T>(
    before: Seq<Option<Subarray<T>>>,
    after: Seq<Option<Subarray<T>>>,
    first: int,
    last: int,
    first2: int,
    last2: int,
    lo: int,
    hi: int,
    i: int,
    size: int,
)
    requires
        holds(before, first, last, lo, hi, size),
        0 <= i < before.len(),
        after.len() == before.len(),
        forall|j: int| 0 <= j < before.len() && j != i ==> after[j] == before[j],
        0 <= first2 <= last2 < before.len(),
        extends(first, last, first2, last2, i),
        after[i].is_some() <==> first2 <= i <= last2,
        after[i].is_some() ==> after[i].unwrap()@.len() == size && forall|k: int|
            0 <= k < size ==> (#[trigger] after[i].unwrap()@[k]).is_none(),
        position(first2, 0, size) <= lo,
        hi <= position(last2, size, size),
    ensures
        holds(after, first2, last2, lo, hi, size),
        forall|pos: int|
            0 <= pos && 0 <= subarray_of(pos, size) < before.len() && subarray_of(pos, size) != i
                ==> #[trigger] cell(after, pos, size) == cell(before, pos, size),
{
    lemma_position_order(first, last, size);
    lemma_position_order(first2, last2, size);
    if first <= first2 {
        lemma_position_order(first, first2, size);
    } else {
        lemma_position_order(first2, first, size);
    }
    if last <= last2 {
        lemma_position_order(last, last2, size);
    } else {
        lemma_position_order(last2, last, size);
    }
    lemma_position_order(0, first, size);
    lemma_position_order(0, first2, size);
    assert forall|j: int| first2 <= j <= last2 implies (#[trigger] after[j]).is_some()
        && after[j].unwrap()@.len() == size by {
        if j != i {
            assert(before[j].is_some());
        }
    }
    assert forall|j: int| 0 <= j < after.len() && !(first2 <= j <= last2) implies (
    #[trigger] after[j]).is_none() by {
        if j != i {
            assert(before[j].is_none());
        }
    }
    assert forall|pos: int| lo <= pos < hi implies (#[trigger] cell(after, pos, size)).is_some() by {
        lemma_position_within(pos, first2, last2, size);
        lemma_position_within(pos, first, last, size);
        assert(cell(before, pos, size).is_some());
    }
    assert forall|pos: int|
        position(first2, 0, size) <= pos < position(last2, size, size) && !(lo <= pos < hi) implies (
    #[trigger] cell(after, pos, size)).is_none() by {
        lemma_position_split(pos, size);
        lemma_position_within(pos, first2, last2, size);
        let q = subarray_of(pos, size);
        if q == i {
            assert(after[i].unwrap()@[offset_of(pos, size)].is_none());
        } else {
            lemma_position_order(first, q, size);
            lemma_position_order(q, last, size);
            assert(cell(before, pos, size).is_none());
        }
    }
}

/// `after` holds, `delta` places further on, the subarrays that `before` holds from `first`
/// to `last`, and nothing else.
pub open spec fn moved<T>(
    before: Seq<Option<Subarray<T>>>,
    after: Seq<Option<Subarray<T>>>,
    first: int,
    last: int,
    delta: int,
) -> bool {
    forall|i: int|
        0 <= i < after.len() ==> #[trigger] after[i] == if first + delta <= i <= last + delta {
            before[i - delta]
        } else {
            None
        }
}

/// Moving the held subarrays by `delta` places moves every element by `delta` subarrays, and
/// keeps the elements and their order.
pub proof fn lemma_moved_holds<T>(
    before: Seq<Option<Subarray<T>>>,
    after: Seq<Option<Subarray<T>>>,
    first: int,
    last: int,
    lo: int,
    hi: int,
    delta: int,
    size: int,
)
    requires
        holds(before, first, last, lo, hi, size),
        moved(before, after, first, last, delta),
        0 <= first + delta,
        last + delta < after.len(),
    ensures
        holds(after, first + delta, last + delta, lo + delta * size, hi + delta * size, size),
        elements(after, lo + delta * size, hi + delta * size, size) == elements(
            before,
            lo,
            hi,
            size,
        ),
        position(first + delta, 0, size) == position(first, 0, size) + delta * size,
        position(last + delta, 0, size) == position(last, 0, size) + delta * size,
{
    let shift = delta * size;
    lemma_position_order(0, first, size);
    assert((first + delta) * size == first * size + delta * size) by (nonlinear_arith);
    assert((last + delta) * size == last * size + delta * size) by (nonlinear_arith);
    assert forall|pos: int|
        position(first, 0, size) <= pos < position(last, size, size) implies #[trigger] cell(
        after,
        pos + shift,
        size,
    ) == cell(before, pos, size) by {
        lemma_position_within(pos, first, last, size);
        lemma_position_shift(pos, delta, size);
        assert(after[subarray_of(pos, size) + delta] == before[subarray_of(pos, size)]);
    }
    assert forall|i: int| first + delta <= i <= last + delta implies (#[trigger] after[i]).is_some()
        && after[i].unwrap()@.len() == size by {
        assert(before[i - delta].is_some());
    }
    assert forall|pos: int| lo + shift <= pos < hi + shift implies (#[trigger] cell(
        after,
        pos,
        size,
    )).is_some() by {
        assert(cell(after, (pos - shift) + shift, size) == cell(before, pos - shift, size));
        assert(cell(before, pos - shift, size).is_some());
    }
    assert forall|pos: int|
        position(first + delta, 0, size) <= pos < position(last + delta, size, size) && !(lo
            + shift <= pos < hi + shift) implies (#[trigger] cell(after, pos, size)).is_none() by {
        assert(cell(after, (pos - shift) + shift, size) == cell(before, pos - shift, size));
        assert(cell(before, pos - shift, size).is_none());
    }
    assert forall|k: int| 0 <= k < hi - lo implies elements(
        after,
        lo + shift,
        hi + shift,
        size,
    )[k] == elements(before, lo, hi, size)[k] by {
        assert(cell(after, (lo + k) + shift, size) == cell(before, lo + k, size));
    }
    assert(elements(after, lo + shift, hi + shift, size) =~= elements(before, lo, hi, size));
}

/// Exchanging the elements of two slots in three steps, through an empty slot, keeps the
/// array in order: afterwards each of the two slots holds what the other held, and every
/// other slot holds what it held.
pub proof fn lemma_swap_holds<T>(
    before: Seq<Option<Subarray<T>>>,
    lifted: Seq<Option<Subarray<T>>>,
    placed: Seq<Option<Subarray<T>>>,
    after: Seq<Option<Subarray<T>>>,
    first: int,
    last: int,
    lo: int,
    hi: int,
    a: int,
    b: int,
    size: int,
)
    requires
        holds(before, first, last, lo, hi, size),
        lo <= a < hi,
        lo <= b < hi,
        a != b,
        exchanged(before, lifted, subarray_of(a, size), offset_of(a, size), None),
        exchanged(lifted, placed, subarray_of(b, size), offset_of(b, size), cell(before, a, size)),
        exchanged(placed, after, subarray_of(a, size), offset_of(a, size), cell(before, b, size)),
    ensures
        holds(after, first, last, lo, hi, size),
        after.len() == before.len(),
        cell(after, a, size) == cell(before, b, size),
        cell(after, b, size) == cell(before, a, size),
        forall|pos: int|
            lo <= pos < hi && pos != a && pos != b ==> #[trigger] cell(after, pos, size) == cell(
                before,
                pos,
                size,
            ),
{
    lemma_position_order(0, first, size);
    lemma_position_split(a, size);
    lemma_position_split(b, size);
    lemma_position_within(a, first, last, size);
    lemma_position_within(b, first, last, size);
    assert(before[subarray_of(a, size)].is_some());
    assert(before[subarray_of(b, size)].is_some());
    lemma_exchanged_cells(before, lifted, subarray_of(a, size), offset_of(a, size), None, size);
    assert(lifted[subarray_of(b, size)].is_some());
    lemma_exchanged_cells(
        lifted,
        placed,
        subarray_of(b, size),
        offset_of(b, size),
        cell(before, a, size),
        size,
    );
    assert(placed[subarray_of(a, size)].is_some());
    lemma_exchanged_cells(
        placed,
        after,
        subarray_of(a, size),
        offset_of(a, size),
        cell(before, b, size),
        size,
    );
    assert forall|pos: int|
        position(first, 0, size) <= pos < position(last, size, size) && pos != a && pos
            != b implies #[trigger] cell(after, pos, size) == cell(before, pos, size) by {
        lemma_position_within(pos, first, last, size);
        assert(cell(lifted, pos, size) == cell(before, pos, size));
        assert(cell(placed, pos, size) == cell(lifted, pos, size));
    }
    assert(cell(before, a, size).is_some());
    assert(cell(before, b, size).is_some());
    assert(cell(placed, b, size) == cell(before, a, size));
    assert forall|i: int| first <= i <= last implies (#[trigger] after[i]).is_some()
        && after[i].unwrap()@.len() == size by {
        assert(before[i].is_some());
        assert(lifted[i].is_some());
        assert(placed[i].is_some());
    }
    assert forall|i: int| 0 <= i < after.len() && !(first <= i <= last) implies (
    #[trigger] after[i]).is_none() by {
        assert(before[i].is_none());
        assert(lifted[i].is_none());
        assert(placed[i].is_none());
    }
    assert forall|pos: int| lo <= pos < hi implies (#[trigger] cell(after, pos, size)).is_some() by {
        if pos != a && pos != b {
            assert(cell(before, pos, size).is_some());
        }
    }
    assert forall|pos: int| position(first, 0, size) <= pos < lo implies (#[trigger] cell(
        after,
        pos,
        size,
    )).is_none() by {
        assert(cell(before, pos, size).is_none());
    }
    assert forall|pos: int| hi <= pos < position(last, size, size) implies (#[trigger] cell(
        after,
        pos,
        size,
    )).is_none() by {
        assert(cell(before, pos, size).is_none());
    }
}

/// Putting another element in the place of one keeps the array in order, and changes no slot
/// but that one.
pub proof fn lemma_replace_holds<T>(
    before: Seq<Option<Subarray<T>>>,
    after: Seq<Option<Subarray<T>>>,
    first: int,
    last: int,
    lo: int,
    hi: int,
    p: int,
    value: Option<T>,
    size: int,
)
    requires
        holds(before, first, last, lo, hi, size),
        lo <= p < hi,
        value.is_some(),
        exchanged(before, after, subarray_of(p, size), offset_of(p, size), value),
    ensures
        holds(after, first, last, lo, hi, size),
        after.len() == before.len(),
        cell(after, p, size) == value,
        forall|pos: int|
            lo <= pos < hi && pos != p ==> #[trigger] cell(after, pos, size) == cell(
                before,
                pos,
                size,
            ),
        elements(after, lo, hi, size) == elements(before, lo, hi, size).update(
            p - lo,
            value.unwrap(),
        ),
{
    lemma_position_order(0, first, size);
    lemma_position_split(p, size);
    lemma_position_within(p, first, last, size);
    assert(before[subarray_of(p, size)].is_some());
    lemma_exchanged_cells(before, after, subarray_of(p, size), offset_of(p, size), value, size);
    assert forall|pos: int|
        position(first, 0, size) <= pos < position(last, size, size) && pos
            != p implies #[trigger] cell(after, pos, size) == cell(before, pos, size) by {
        lemma_position_within(pos, first, last, size);
    }
    assert forall|i: int| first <= i <= last implies (#[trigger] after[i]).is_some()
        && after[i].unwrap()@.len() == size by {
        assert(before[i].is_some());
    }
    assert forall|i: int| 0 <= i < after.len() && !(first <= i <= last) implies (
    #[trigger] after[i]).is_none() by {
        assert(before[i].is_none());
    }
    assert forall|pos: int| lo <= pos < hi implies (#[trigger] cell(after, pos, size)).is_some() by {
        if pos != p {
            assert(cell(before, pos, size).is_some());
        }
    }
    assert forall|pos: int| position(first, 0, size) <= pos < lo implies (#[trigger] cell(
        after,
        pos,
        size,
    )).is_none() by {
        assert(cell(before, pos, size).is_none());
    }
    assert forall|pos: int| hi <= pos < position(last, size, size) implies (#[trigger] cell(
        after,
        pos,
        size,
    )).is_none() by {
        assert(cell(before, pos, size).is_none());
    }
    assert forall|k: int| 0 <= k < hi - lo implies elements(after, lo, hi, size)[k] == elements(
        before,
        lo,
        hi,
        size,
    ).update(p - lo, value.unwrap())[k] by {
        if lo + k != p {
            assert(cell(after, lo + k, size) == cell(before, lo + k, size));
        }
    }
    assert(elements(after, lo, hi, size) =~= elements(before, lo, hi, size).update(
        p - lo,
        value.unwrap(),
    ));
}

} // verus!
