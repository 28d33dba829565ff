use crate::allocator::Allocator;
use crate::deque::position::{
    lemma_position_join, lemma_position_step, lemma_position_within, position,
};
use crate::deque::subarray::{allocated, cell, elements, occupied, peek, Subarray};
use crate::deque::Deque;
use vstd::prelude::*;

verus! {

/// A cursor into a deque as a plain value: a position, the bounds of the subarray that the
/// position lies in, and the number of that subarray in the array of subarrays.
#[derive(Clone, Copy, Debug)]
pub struct CompatIter {
    /// The position that the cursor stands at.
    pub current: usize,
    /// The position of the first slot of the cursor's subarray.
    pub begin: usize,
    /// The position one past the last slot of the cursor's subarray.
    pub end: usize,
    /// The number of the cursor's subarray.
    pub current_array: usize,
}

/// A cursor like [`CompatIter`], of a deque that is open to change.
#[derive(Clone, Copy, Debug)]
pub struct CompatIterMut {
    /// The position that the cursor stands at.
    pub current: usize,
    /// The position of the first slot of the cursor's subarray.
    pub begin: usize,
    /// The position one past the last slot of the cursor's subarray.
    pub end: usize,
    /// The number of the cursor's subarray.
    pub current_array: usize,
}

impl CompatIter {
    /// The number of slots in the cursor's subarray.
    pub open spec fn subarray_size(&self) -> int {
        self.end - self.begin
    }

    /// The cursor stands inside its subarray, and the subarray's bounds fit its number.
    pub open spec fn wf(&self) -> bool {
        &&& self.subarray_size() > 0
        &&& self.begin == position(self.current_array as int, 0, self.subarray_size())
        &&& self.begin <= self.current < self.end
    }
}

impl CompatIterMut {
    /// The number of slots in the cursor's subarray.
    pub open spec fn subarray_size(&self) -> int {
        self.end - self.begin
    }

    /// The cursor stands inside its subarray, and the subarray's bounds fit its number.
    pub open spec fn wf(&self) -> bool {
        &&& self.subarray_size() > 0
        &&& self.begin == position(self.current_array as int, 0, self.subarray_size())
        &&& self.begin <= self.current < self.end
    }

    /// The same cursor, of a deque that is not open to change.
    pub open spec fn spec_freeze(&self) -> CompatIter {
        CompatIter {
            current: self.current,
            begin: self.begin,
            end: self.end,
            current_array: self.current_array,
        }
    }

    /// The same cursor, of a deque that is not open to change.
    #[verifier::when_used_as_spec(spec_freeze)]
    pub fn freeze(&self) -> (iter: CompatIter)
        ensures
            iter == self.spec_freeze(),
    {
        CompatIter {
            current: self.current,
            begin: self.begin,
            end: self.end,
            current_array: self.current_array,
        }
    }

    /// Moves the cursor's bounds to the subarray with number `subarray`. The position stays
    /// as it is: the caller sets it.
    pub fn set_subarray(&mut self, subarray: usize, subarray_size: usize)
        requires
            position(subarray as int, subarray_size as int, subarray_size as int) <= usize::MAX,
        ensures
            final(self).current_array == subarray,
            final(self).begin == position(subarray as int, 0, subarray_size as int),
            final(self).end == position(subarray as int, subarray_size as int, subarray_size as int),
            final(self).current == old(self).current,
    {
        proof {
            assert(0 <= subarray * subarray_size <= subarray * subarray_size + subarray_size)
                by (nonlinear_arith)
                requires
                    subarray >= 0,
                    subarray_size >= 0,
            ;
        }
        self.current_array = subarray;
        self.begin = subarray * subarray_size;
        self.end = self.begin + subarray_size;
    }
}

impl From<CompatIterMut> for CompatIter {
    fn from(iter_mut: CompatIterMut) -> (iter: Self) {
        iter_mut.freeze()
    }
}

impl vstd::std_specs::convert::FromSpecImpl<CompatIterMut> for CompatIter {
    open spec fn obeys_from_spec() -> bool {
        true
    }

    open spec fn from_spec(iter_mut: CompatIterMut) -> Self {
        iter_mut.spec_freeze()
    }
}

impl From<&CompatIterMut> for CompatIter {
    fn from(iter_mut: &CompatIterMut) -> (iter: Self) {
        iter_mut.freeze()
    }
}

impl vstd::std_specs::convert::FromSpecImpl<&CompatIterMut> for CompatIter {
    open spec fn obeys_from_spec() -> bool {
        true
    }

    open spec fn from_spec(iter_mut: &CompatIterMut) -> Self {
        iter_mut.spec_freeze()
    }
}

impl Default for CompatIterMut {
    fn default() -> (iter: Self)
        ensures
            iter.current == 0,
            iter.begin == 0,
            iter.end == 0,
            iter.current_array == 0,
    {
        Self { current: 0, begin: 0, end: 0, current_array: 0 }
    }
}

/// A pair of cursors that walk towards each other over the positions between them, across
/// the borders of the subarrays.
pub struct RawIter {
    current: usize,
    current_arr: usize,
    last: usize,
    last_arr: usize,
    subarray_size: usize,
}

impl RawIter {
    /// Both cursors stand inside their subarrays, the front one at or before the back one.
    pub closed spec fn wf(&self) -> bool {
        let size = self.subarray_size as int;
        &&& size > 0
        &&& self.current_arr <= self.last_arr
        &&& position(self.current_arr as int, 0, size) <= self.current < position(
            self.current_arr as int,
            size,
            size,
        )
        &&& position(self.last_arr as int, 0, size) <= self.last < position(
            self.last_arr as int,
            size,
            size,
        )
        &&& self.current <= self.last
        &&& position(self.last_arr as int, size, size) <= usize::MAX
    }

    /// The position of the next slot from the front.
    pub closed spec fn front(&self) -> int {
        self.current as int
    }

    /// The position one past the next slot from the back.
    pub closed spec fn back(&self) -> int {
        self.last as int
    }

    /// The number of slots in each subarray.
    pub closed spec fn size(&self) -> int {
        self.subarray_size as int
    }

    /// The number of the subarray that the front cursor stands in.
    pub closed spec fn front_subarray(&self) -> int {
        self.current_arr as int
    }

    /// The number of the subarray that the back cursor stands in.
    pub closed spec fn back_subarray(&self) -> int {
        self.last_arr as int
    }

    /// The cursors of a well-formed pair bound each other.
    pub proof fn lemma_bounds(&self)
        requires
            self.wf(),
        ensures
            self.size() > 0,
            0 <= self.front() <= self.back(),
            self.front_subarray() <= self.back_subarray(),
            position(self.front_subarray(), 0, self.size()) <= self.front() < position(
                self.front_subarray(),
                self.size(),
                self.size(),
            ),
            position(self.back_subarray(), 0, self.size()) <= self.back() < position(
                self.back_subarray(),
                self.size(),
                self.size(),
            ),
            position(self.back_subarray(), self.size(), self.size()) <= usize::MAX,
    {
    }

    /// Steps the front cursor over one slot and returns the subarray and the offset of that
    /// slot, or `None` if the cursors have met.
    pub fn next(&mut self) -> (slot: Option<(usize, usize)>)
        requires
            old(self).wf(),
        ensures
            final(self).wf(),
            final(self).back() == old(self).back(),
            final(self).back_subarray() == old(self).back_subarray(),
            final(self).front_subarray() >= old(self).front_subarray(),
            final(self).size() == old(self).size(),
            match slot {
                None => old(self).front() == old(self).back() && *final(self) == *old(self),
                Some((subarray, offset)) => {
                    &&& old(self).front() < old(self).back()
                    &&& subarray == old(self).front_subarray()
                    &&& offset < old(self).size()
                    &&& position(subarray as int, offset as int, old(self).size()) == old(
                        self,
                    ).front()
                    &&& final(self).front() == old(self).front() + 1
                },
            },
    {
        if self.current == self.last {
            None
        } else {
            let subarray = self.current_arr;
            proof {
                lemma_position_step(
                    self.current_arr as int,
                    self.last_arr as int + 1,
                    self.subarray_size as int,
                );
                lemma_position_step(
                    self.last_arr as int,
                    self.last_arr as int + 1,
                    self.subarray_size as int,
                );
            }
            let begin = self.current_arr * self.subarray_size;
            let offset = self.current - begin;
            if self.current == begin + (self.subarray_size - 1) {
                // we reached the end of the current subarray. advance 1
                proof {
                    lemma_position_within(
                        self.last as int,
                        self.current_arr as int + 1,
                        self.last_arr as int,
                        self.subarray_size as int,
                    );
                    lemma_position_within(
                        self.last as int,
                        self.last_arr as int,
                        self.last_arr as int,
                        self.subarray_size as int,
                    );
                    lemma_position_step(
                        self.current_arr as int + 1,
                        self.last_arr as int + 1,
                        self.subarray_size as int,
                    );
                }
                self.current_arr = self.current_arr + 1;
                self.current = self.current_arr * self.subarray_size;
            } else {
                self.current = self.current + 1;
            }
            Some((subarray, offset))
        }
    }

    /// Steps the back cursor over one slot and returns the subarray and the offset of that
    /// slot, or `None` if the cursors have met.
    pub fn next_back(&mut self) -> (slot: Option<(usize, usize)>)
        requires
            old(self).wf(),
        ensures
            final(self).wf(),
            final(self).front() == old(self).front(),
            final(self).front_subarray() == old(self).front_subarray(),
            final(self).back_subarray() <= old(self).back_subarray(),
            final(self).size() == old(self).size(),
            match slot {
                None => old(self).front() == old(self).back() && *final(self) == *old(self),
                Some((subarray, offset)) => {
                    &&& old(self).front() < old(self).back()
                    &&& subarray == final(self).back_subarray()
                    &&& offset < old(self).size()
                    &&& position(subarray as int, offset as int, old(self).size()) == old(
                        self,
                    ).back() - 1
                    &&& final(self).back() == old(self).back() - 1
                },
            },
    {
        if self.last == self.current {
            None
        } else {
            proof {
                lemma_position_step(
                    self.last_arr as int,
                    self.last_arr as int + 1,
                    self.subarray_size as int,
                );
            }
            // first, we need to go back a subarray
            if self.last == self.last_arr * self.subarray_size {
                // we reached the beginning of the current subarray. go back 1
                proof {
                    lemma_position_step(
                        self.last_arr as int - 1,
                        self.last_arr as int + 1,
                        self.subarray_size as int,
                    );
                    lemma_position_within(
                        self.current as int,
                        self.current_arr as int,
                        self.last_arr as int - 1,
                        self.subarray_size as int,
                    );
                    lemma_position_within(
                        self.current as int,
                        self.current_arr as int,
                        self.current_arr as int,
                        self.subarray_size as int,
                    );
                }
                self.last_arr = self.last_arr - 1;
                self.last = self.last_arr * self.subarray_size + (self.subarray_size - 1);
            } else {
                self.last = self.last - 1;
            }
            let offset = self.last - self.last_arr * self.subarray_size;
            Some((self.last_arr, offset))
        }
    }

    /// Steps the front cursor over `n` slots.
    pub fn skip(&mut self, n: usize)
        requires
            old(self).wf(),
            n <= old(self).back() - old(self).front(),
        ensures
            final(self).wf(),
            final(self).front() == old(self).front() + n,
            final(self).back() == old(self).back(),
            final(self).back_subarray() == old(self).back_subarray(),
            final(self).size() == old(self).size(),
    {
        let mut i: usize = 0;
        while i < n
            invariant
                i <= n,
                self.wf(),
                self.front() == old(self).front() + i,
                self.back() == old(self).back(),
                self.back_subarray() == old(self).back_subarray(),
                self.size() == old(self).size(),
                n <= old(self).back() - old(self).front(),
            decreases n - i,
        {
            let _ = self.next();
            i = i + 1;
        }
    }

    /// Steps the back cursor over `n` slots.
    pub fn skip_back(&mut self, n: usize)
        requires
            old(self).wf(),
            n <= old(self).back() - old(self).front(),
        ensures
            final(self).wf(),
            final(self).back() == old(self).back() - n,
            final(self).front() == old(self).front(),
            final(self).front_subarray() == old(self).front_subarray(),
            final(self).size() == old(self).size(),
    {
        let mut i: usize = 0;
        while i < n
            invariant
                i <= n,
                self.wf(),
                self.back() == old(self).back() - i,
                self.front() == old(self).front(),
                self.front_subarray() == old(self).front_subarray(),
                self.size() == old(self).size(),
                n <= old(self).back() - old(self).front(),
            decreases n - i,
        {
            let _ = self.next_back();
            i = i + 1;
        }
    }

    /// The number of slots between the cursors.
    pub fn len(&self) -> (len: usize)
        requires
            self.wf(),
        ensures
            len == self.back() - self.front(),
    {
        self.last - self.current
    }

    /// Takes the pair apart into its two cursors.
    pub fn into_compat(self) -> (pair: (CompatIter, CompatIter))
        requires
            self.wf(),
        ensures
            pair.0.wf(),
            pair.1.wf(),
            pair.0.subarray_size() == self.size(),
            pair.1.subarray_size() == self.size(),
            pair.0.current == self.front(),
            pair.0.current_array == self.front_subarray(),
            pair.1.current == self.back(),
            pair.1.current_array == self.back_subarray(),
    {
        proof {
            lemma_position_step(
                self.current_arr as int,
                self.last_arr as int + 1,
                self.subarray_size as int,
            );
            lemma_position_step(
                self.last_arr as int,
                self.last_arr as int + 1,
                self.subarray_size as int,
            );
        }
        let current_begin = self.current_arr * self.subarray_size;
        let last_begin = self.last_arr * self.subarray_size;
        (
            CompatIter {
                current: self.current,
                begin: current_begin,
                end: current_begin + self.subarray_size,
                current_array: self.current_arr,
            },
            CompatIter {
                current: self.last,
                begin: last_begin,
                end: last_begin + self.subarray_size,
                current_array: self.last_arr,
            },
        )
    }

    /// Takes the pair apart into its two cursors, of a deque that is open to change.
    pub fn into_compat_mut(self) -> (pair: (CompatIterMut, CompatIterMut))
        requires
            self.wf(),
        ensures
            pair.0.wf(),
            pair.1.wf(),
            pair.0.subarray_size() == self.size(),
            pair.1.subarray_size() == self.size(),
            pair.0.current == self.front(),
            pair.0.current_array == self.front_subarray(),
            pair.1.current == self.back(),
            pair.1.current_array == self.back_subarray(),
    {
        proof {
            lemma_position_step(
                self.current_arr as int,
                self.last_arr as int + 1,
                self.subarray_size as int,
            );
            lemma_position_step(
                self.last_arr as int,
                self.last_arr as int + 1,
                self.subarray_size as int,
            );
        }
        let current_begin = self.current_arr * self.subarray_size;
        let last_begin = self.last_arr * self.subarray_size;
        (
            CompatIterMut {
                current: self.current,
                begin: current_begin,
                end: current_begin + self.subarray_size,
                current_array: self.current_arr,
            },
            CompatIterMut {
                current: self.last,
                begin: last_begin,
                end: last_begin + self.subarray_size,
                current_array: self.last_arr,
            },
        )
    }

    /// Two cursors make a pair when they stand inside subarrays of one size, the first at or
    /// before the second.
    pub open spec fn pairs(begin: CompatIter, end: CompatIter) -> bool {
        &&& begin.wf()
        &&& end.wf()
        &&& begin.subarray_size() == end.subarray_size()
        &&& begin.current <= end.current
    }

    /// Makes a pair from its two cursors.
    pub fn from_compat(begin: CompatIter, end: CompatIter) -> (iter: Self)
        requires
            Self::pairs(begin, end),
        ensures
            iter.wf(),
            iter.size() == begin.subarray_size(),
            iter.front() == begin.current,
            iter.front_subarray() == begin.current_array,
            iter.back() == end.current,
            iter.back_subarray() == end.current_array,
    {
        proof {
            let size = begin.subarray_size();
            lemma_position_within(
                begin.current as int,
                begin.current_array as int,
                begin.current_array as int,
                size,
            );
            lemma_position_within(
                end.current as int,
                end.current_array as int,
                end.current_array as int,
                size,
            );
            lemma_position_step(end.current_array as int, end.current_array as int + 1, size);
            lemma_position_step(begin.current_array as int, begin.current_array as int + 1, size);
            if begin.current_array > end.current_array {
                lemma_position_within(
                    begin.current as int,
                    0,
                    end.current_array as int,
                    size,
                );
            }
        }
        Self {
            current: begin.current,
            current_arr: begin.current_array,
            last: end.current,
            last_arr: end.current_array,
            subarray_size: begin.end - begin.begin,
        }
    }

    /// Makes a pair from its two cursors, of a deque that is open to change.
    pub fn from_compat_mut(begin: CompatIterMut, end: CompatIterMut) -> (iter: Self)
        requires
            Self::pairs(begin.spec_freeze(), end.spec_freeze()),
        ensures
            iter.wf(),
            iter.size() == begin.subarray_size(),
            iter.front() == begin.current,
            iter.front_subarray() == begin.current_array,
            iter.back() == end.current,
            iter.back_subarray() == end.current_array,
    {
        Self::from_compat(begin.freeze(), end.freeze())
    }
}

/// An iterator of a deque: it hands out the elements between its two cursors, from either
/// end.
pub struct Iter<'a, T> {
    raw: RawIter,
    ptrs: &'a Vec<Option<Subarray<T>>>,
}

impl<'a, T> View for Iter<'a, T> {
    type V = Seq<T>;

    /// The elements that are still to come, from the front to the back.
    closed spec fn view(&self) -> Seq<T> {
        elements(self.ptrs@, self.raw.front(), self.raw.back(), self.raw.size())
    }
}

impl<'a, T> Iter<'a, T> {
    /// The subarrays that the cursors stand in and those between them are there, and every
    /// slot between the cursors holds an element.
    pub closed spec fn wf(&self) -> bool {
        Self::spans(self.ptrs@, self.raw)
    }

    /// The cursors `raw` stand in `ptrs`, with an element in every slot between them.
    pub open spec fn spans(ptrs: Seq<Option<Subarray<T>>>, raw: RawIter) -> bool {
        &&& raw.wf()
        &&& 0 <= raw.front_subarray()
        &&& raw.back_subarray() < ptrs.len()
        &&& allocated(ptrs, raw.front_subarray(), raw.back_subarray(), raw.size())
        &&& occupied(ptrs, raw.front(), raw.back(), raw.size())
    }

    /// The cursors of the iterator.
    pub closed spec fn cursors(&self) -> RawIter {
        self.raw
    }

    /// Makes the iterator over the elements of `ptrs` between the cursors `raw`.
    pub(crate) fn new(ptrs: &'a Vec<Option<Subarray<T>>>, raw: RawIter) -> (iter: Self)
        requires
            Self::spans(ptrs@, raw),
        ensures
            iter.wf(),
            iter.cursors() == raw,
            iter@ == elements(ptrs@, raw.front(), raw.back(), raw.size()),
    {
        Self { raw, ptrs }
    }

    /// Hands out the next element from the front, or `None` when none is left.
    pub fn next(&mut self) -> (elem: Option<&'a T>)
        requires
            old(self).wf(),
        ensures
            final(self).wf(),
            old(self)@.len() == 0 ==> elem.is_none() && final(self)@ == old(self)@,
            old(self)@.len() > 0 ==> elem == Some(&old(self)@.first()) && final(self)@ == old(
                self)@.drop_first(),
    {
        let ghost size = self.raw.size();
        match self.raw.next() {
            None => None,
            Some((subarray, offset)) => {
                proof {
                    lemma_position_join(subarray as int, offset as int, size);
                    assert(self.ptrs@[subarray as int].is_some());
                    assert(cell(self.ptrs@, old(self).raw.front(), size).is_some());
                    assert(self@ =~= old(self)@.drop_first());
                }
                peek(self.ptrs, subarray, offset)
            },
        }
    }

    /// Hands out the next element from the back, or `None` when none is left.
    pub fn next_back(&mut self) -> (elem: Option<&'a T>)
        requires
            old(self).wf(),
        ensures
            final(self).wf(),
            old(self)@.len() == 0 ==> elem.is_none() && final(self)@ == old(self)@,
            old(self)@.len() > 0 ==> elem == Some(&old(self)@.last()) && final(self)@ == old(
                self)@.drop_last(),
    {
        let ghost size = self.raw.size();
        match self.raw.next_back() {
            None => None,
            Some((subarray, offset)) => {
                proof {
                    lemma_position_join(subarray as int, offset as int, size);
                    assert(self.ptrs@[subarray as int].is_some());
                    assert(cell(self.ptrs@, old(self).raw.back() - 1, size).is_some());
                    assert(self@ =~= old(self)@.drop_last());
                }
                peek(self.ptrs, subarray, offset)
            },
        }
    }

    /// The number of elements that are still to come.
    pub fn len(&self) -> (len: usize)
        requires
            self.wf(),
        ensures
            len == self@.len(),
    {
        self.raw.len()
    }

    /// Converts the iterator into its pair of cursors.
    pub fn into_compat(self) -> (pair: (CompatIter, CompatIter))
        requires
            self.wf(),
        ensures
            RawIter::pairs(pair.0, pair.1),
            pair.0.subarray_size() == self.cursors().size(),
            pair.0.current == self.cursors().front(),
            pair.0.current_array == self.cursors().front_subarray(),
            pair.1.current == self.cursors().back(),
            pair.1.current_array == self.cursors().back_subarray(),
            pair.1.current - pair.0.current == self@.len(),
    {
        self.raw.into_compat()
    }

    /// Makes the iterator over the elements of `deque` between two cursors, or `None` if
    /// the cursors are no pair or reach beyond the elements of the deque.
    pub fn from_compat<A: Allocator>(deque: &'a Deque<T, A>, begin: CompatIter, end: CompatIter) -> (iter:
        Option<Self>)
        requires
            deque.wf(),
        ensures
            iter.is_some() <==> Deque::<T, A>::spans(deque.spec_begin(), deque.spec_end(), begin, end),
            iter.is_some() ==> iter.unwrap().wf() && iter.unwrap()@ == deque@.subrange(
                begin.current - deque.spec_begin().current,
                end.current - deque.spec_begin().current,
            ),
    {
        deque.iter_from_compat(begin, end)
    }
}

/// An iterator of a deque that hands out its elements open to change.
///
/// The iterator holds the deque until it is let go. What was written through it is then in
/// the deque.
pub struct IterMut<'a, T, A: Allocator> {
    /// The deque that the iterator walks over.
    pub deque: &'a mut Deque<T, A>,
    /// The cursors between which the elements are still to come.
    pub raw: RawIter,
}

impl<'a, T, A: Allocator> View for IterMut<'a, T, A> {
    type V = Seq<T>;

    /// The elements that are still to come, from the front to the back.
    open spec fn view(&self) -> Seq<T> {
        self.deque@.subrange(
            self.raw.front() - self.deque.spec_begin().current,
            self.raw.back() - self.deque.spec_begin().current,
        )
    }
}

impl<'a, T, A: Allocator> IterMut<'a, T, A> {
    /// The deque is in order, and the cursors stand between its first and its last element.
    pub open spec fn wf(&self) -> bool {
        &&& self.deque.wf()
        &&& self.raw.wf()
        &&& self.raw.size() == Deque::<T, A>::spec_subarray_size()
        &&& self.deque.spec_begin().current <= self.raw.front()
        &&& self.raw.back() <= self.deque.spec_end().current
    }

    /// The place in the deque of the next element from the front.
    pub open spec fn front_index(&self) -> int {
        self.raw.front() - self.deque.spec_begin().current
    }

    /// The place in the deque after the next element from the back.
    pub open spec fn back_index(&self) -> int {
        self.raw.back() - self.deque.spec_begin().current
    }

    /// Hands out the next element from the front, or `None` when none is left.
    pub fn next(&mut self) -> (elem: Option<&mut T>)
        requires
            old(self).wf(),
        ensures
            final(self).wf(),
            *final(final(self).deque) == *final(old(self).deque),
            final(self).deque.spec_begin() == old(self).deque.spec_begin(),
            final(self).deque.spec_end() == old(self).deque.spec_end(),
            final(self).deque.map_capacity() == old(self).deque.map_capacity(),
            final(self).raw.back() == old(self).raw.back(),
            match elem {
                None => {
                    &&& old(self)@.len() == 0
                    &&& final(self).raw.front() == old(self).raw.front()
                    &&& final(self).deque@ == old(self).deque@
                },
                Some(value) => {
                    &&& old(self)@.len() > 0
                    &&& *value == old(self)@.first()
                    &&& final(self).raw.front() == old(self).raw.front() + 1
                    &&& final(self).deque@ == old(self).deque@.update(
                        old(self).front_index(),
                        *final(value),
                    )
                },
            },
    {
        proof {
            self.deque.lemma_cursors();
            self.raw.lemma_bounds();
        }
        let ghost index = self.front_index();
        match self.raw.next() {
            None => None,
            Some((subarray, offset)) => self.deque.slot_mut(subarray, offset, Ghost(index)),
        }
    }

    /// Hands out the next element from the back, or `None` when none is left.
    pub fn next_back(&mut self) -> (elem: Option<&mut T>)
        requires
            old(self).wf(),
        ensures
            final(self).wf(),
            *final(final(self).deque) == *final(old(self).deque),
            final(self).deque.spec_begin() == old(self).deque.spec_begin(),
            final(self).deque.spec_end() == old(self).deque.spec_end(),
            final(self).deque.map_capacity() == old(self).deque.map_capacity(),
            final(self).raw.front() == old(self).raw.front(),
            match elem {
                None => {
                    &&& old(self)@.len() == 0
                    &&& final(self).raw.back() == old(self).raw.back()
                    &&& final(self).deque@ == old(self).deque@
                },
                Some(value) => {
                    &&& old(self)@.len() > 0
                    &&& *value == old(self)@.last()
                    &&& final(self).raw.back() == old(self).raw.back() - 1
                    &&& final(self).deque@ == old(self).deque@.update(
                        old(self).back_index() - 1,
                        *final(value),
                    )
                },
            },
    {
        proof {
            self.deque.lemma_cursors();
            self.raw.lemma_bounds();
        }
        let ghost index = self.back_index() - 1;
        match self.raw.next_back() {
            None => None,
            Some((subarray, offset)) => self.deque.slot_mut(subarray, offset, Ghost(index)),
        }
    }

    /// Converts the iterator into its pair of cursors.
    pub fn into_compat(self) -> (pair: (CompatIter, CompatIter))
        requires
            self.wf(),
        ensures
            RawIter::pairs(pair.0, pair.1),
            pair.0.subarray_size() == self.raw.size(),
            pair.0.current == self.raw.front(),
            pair.0.current_array == self.raw.front_subarray(),
            pair.1.current == self.raw.back(),
            pair.1.current_array == self.raw.back_subarray(),
    {
        self.raw.into_compat()
    }

    /// Converts the iterator into its pair of cursors, of a deque that is open to change.
    pub fn into_compat_mut(self) -> (pair: (CompatIterMut, CompatIterMut))
        requires
            self.wf(),
        ensures
            RawIter::pairs(pair.0.spec_freeze(), pair.1.spec_freeze()),
            pair.0.subarray_size() == self.raw.size(),
            pair.0.current == self.raw.front(),
            pair.0.current_array == self.raw.front_subarray(),
            pair.1.current == self.raw.back(),
            pair.1.current_array == self.raw.back_subarray(),
    {
        self.raw.into_compat_mut()
    }
}

/// A consuming iterator: it takes the elements out of the deque, from either end.
pub struct IntoIter<T, A: Allocator> {
    deque: Deque<T, A>,
}

impl<T, A: Allocator> View for IntoIter<T, A> {
    type V = Seq<T>;

    /// The elements that are still to come, from the front to the back.
    closed spec fn view(&self) -> Seq<T> {
        self.deque@
    }
}

impl<T, A: Allocator> IntoIter<T, A> {
    /// The deque that the iterator takes the elements from is in order.
    pub closed spec fn wf(&self) -> bool {
        self.deque.wf()
    }

    /// Makes the iterator that takes the elements out of `deque`.
    pub(crate) fn new(deque: Deque<T, A>) -> (iter: Self)
        requires
            deque.wf(),
        ensures
            iter.wf(),
            iter@ == deque@,
    {
        Self { deque }
    }

    /// Takes out the next element from the front, or returns `None` when none is left.
    pub fn next(&mut self) -> (elem: Option<T>)
        requires
            old(self).wf(),
        ensures
            final(self).wf(),
            old(self)@.len() == 0 ==> elem.is_none() && final(self)@ == old(self)@,
            old(self)@.len() > 0 ==> elem == Some(old(self)@.first()) && final(self)@ == old(
                self)@.drop_first(),
    {
        self.deque.pop_front()
    }

    /// Takes out the next element from the back, or returns `None` when none is left.
    pub fn next_back(&mut self) -> (elem: Option<T>)
        requires
            old(self).wf(),
        ensures
            final(self).wf(),
            old(self)@.len() == 0 ==> elem.is_none() && final(self)@ == old(self)@,
            old(self)@.len() > 0 ==> elem == Some(old(self)@.last()) && final(self)@ == old(
                self)@.drop_last(),
    {
        self.deque.pop_back()
    }

    /// The number of elements that are still to come.
    pub fn len(&self) -> (len: usize)
        requires
            self.wf(),
        ensures
            len == self@.len(),
    {
        self.deque.len()
    }
}

} // verus!
