use crate::allocator::{Allocator, DefaultAllocator};
use crate::deque::iter::{CompatIter, CompatIterMut, IntoIter, Iter, IterMut, RawIter};
use crate::deque::position::{
    lemma_position_join, lemma_position_order, lemma_position_split, lemma_position_step,
    lemma_position_within, position,
};
use crate::deque::trace::{step, Op};
use crate::deque::subarray::{
    allocated, cell, elements, exchange, exchanged, holds, lemma_all_vacant, lemma_entry_holds,
    lemma_exchange_holds, lemma_moved_holds, lemma_replace_holds, lemma_swap_holds, moved,
    peek_mut, steps, subarray_size_of, vacated, Subarray,
};
use vstd::prelude::*;

pub mod iter;
pub mod position;
pub mod subarray;
pub mod trace;

verus! {

/// Deque with the default allocator.
pub type DefaultDeque<V> = Deque<V, DefaultAllocator>;

/// The number of places in the array of subarrays of a new deque.
pub const INITIAL_PTR_ARRAY_SIZE: u32 = 8;

/// A double-ended queue implemented with multiple arrays.
///
/// The elements lie in subarrays of a fixed size. An array of subarrays holds those that are
/// in use side by side, and two cursors mark the first element and the place after the last.
pub struct Deque<T, A: Allocator> {
    ptr_array: Vec<Option<Subarray<T>>>,
    ptr_array_size: u32,
    begin_it: CompatIterMut,
    end_it: CompatIterMut,
    allocator: A,
}

impl<T, A: Allocator> View for Deque<T, A> {
    type V = Seq<T>;

    /// The elements from the front to the back.
    closed spec fn view(&self) -> Seq<T> {
        elements(
            self.ptr_array@,
            self.begin_it.current as int,
            self.end_it.current as int,
            Self::spec_subarray_size() as int,
        )
    }
}

impl<T, A: Allocator + Default> Deque<T, A> {
    /// Creates a new deque in the default allocator. It is empty, and both cursors stand at
    /// the first slot of its one subarray, in the middle of the array of subarrays.
    pub fn new() -> (deque: Self)
        ensures
            deque.wf(),
            deque@ == Seq::<T>::empty(),
            deque.map_capacity() == INITIAL_PTR_ARRAY_SIZE,
            deque.spec_has_room(),
            deque.spec_begin() == Self::first_of(3),
            deque.spec_end() == Self::first_of(3),
    {
        Self::new_in(A::default())
    }
}

impl<T, A: Allocator + Default> Default for Deque<T, A> {
    fn default() -> (deque: Self)
        ensures
            deque.wf(),
            deque@ == Seq::<T>::empty(),
            deque.map_capacity() == INITIAL_PTR_ARRAY_SIZE,
            deque.spec_has_room(),
            deque.spec_begin() == Self::first_of(3),
            deque.spec_end() == Self::first_of(3),
    {
        Self::new()
    }
}

impl<T, A: Allocator> Deque<T, A> {
    /// The number of slots in each subarray: it goes by the size of an element.
    pub open spec fn spec_subarray_size() -> usize {
        subarray_size_of(vstd::layout::size_of::<T>())
    }

    /// The number of places in the array of subarrays.
    pub closed spec fn map_capacity(&self) -> nat {
        self.ptr_array_size as nat
    }

    /// An array of `slots` subarrays can be counted and its positions can be numbered.
    pub open spec fn fits(slots: int) -> bool {
        slots <= u32::MAX && slots * Self::spec_subarray_size() <= usize::MAX
    }

    /// The array of subarrays could be made anew for more subarrays.
    pub open spec fn spec_has_room(&self) -> bool {
        Self::fits(2 * self.map_capacity() as int + 2)
    }

    /// A push at the back makes the array of subarrays anew: the back cursor stands at the
    /// last slot of the subarray at the last place, and no place is left before the first
    /// subarray.
    pub open spec fn grows_at_back(&self) -> bool {
        &&& self.spec_end().current + 1 == self.spec_end().end
        &&& self.spec_end().current_array + 1 == self.map_capacity()
        &&& self.spec_begin().current_array == 0
    }

    /// A push at the front makes the array of subarrays anew: the front cursor stands at the
    /// first slot of the subarray at the first place, and no place is left behind the last
    /// subarray.
    pub open spec fn grows_at_front(&self) -> bool {
        &&& self.spec_begin().current == self.spec_begin().begin
        &&& self.spec_begin().current_array == 0
        &&& self.spec_end().current_array + 1 == self.map_capacity()
    }

    /// The cursors and the array of subarrays fit each other: the subarrays between the two
    /// cursors are there and no others, and of their slots exactly those between the cursors
    /// hold an element.
    pub closed spec fn wf(&self) -> bool {
        let size = Self::spec_subarray_size() as int;
        &&& self.ptr_array@.len() == self.ptr_array_size
        &&& Self::fits(self.ptr_array_size as int)
        &&& self.begin_it.wf()
        &&& self.begin_it.subarray_size() == size
        &&& self.end_it.wf()
        &&& self.end_it.subarray_size() == size
        &&& holds(
            self.ptr_array@,
            self.begin_it.current_array as int,
            self.end_it.current_array as int,
            self.begin_it.current as int,
            self.end_it.current as int,
            size,
        )
    }

    /// Returns true if the array of subarrays could be made anew for more subarrays: a push
    /// asks for that.
    #[verifier::when_used_as_spec(spec_has_room)]
    pub fn has_room(&self) -> (room: bool)
        ensures
            room == self.spec_has_room(),
    {
        let size = Self::calculate_subarray_size() as u64;
        let slots: u64 = 2 * (self.ptr_array_size as u64) + 2;
        slots <= u32::MAX as u64 && slots * size <= usize::MAX as u64
    }

    /// Returns true if an element can be pushed at the back: the array of subarrays stays as
    /// it is, or could be made anew.
    pub fn can_push_back(&self) -> (can: bool)
        requires
            self.wf(),
        ensures
            can == (self.grows_at_back() ==> self.spec_has_room()),
    {
        !(self.end_it.current + 1 == self.end_it.end && self.end_it.current_array + 1
            == self.ptr_array_size as usize && self.begin_it.current_array == 0)
            || self.has_room()
    }

    /// Returns true if an element can be pushed at the front: the array of subarrays stays as
    /// it is, or could be made anew.
    pub fn can_push_front(&self) -> (can: bool)
        requires
            self.wf(),
        ensures
            can == (self.grows_at_front() ==> self.spec_has_room()),
    {
        !(self.begin_it.current == self.begin_it.begin && self.begin_it.current_array == 0
            && self.end_it.current_array + 1 == self.ptr_array_size as usize) || self.has_room()
    }

    /// Returns the number of places in the array of subarrays.
    pub fn ptr_array_size(&self) -> (size: u32)
        ensures
            size == self.map_capacity(),
    {
        self.ptr_array_size
    }

    /// Returns the front cursor.
    pub fn begin(&self) -> (iter: CompatIterMut)
        ensures
            iter == self.spec_begin(),
    {
        self.begin_it
    }

    /// Returns the back cursor.
    pub fn end(&self) -> (iter: CompatIterMut)
        ensures
            iter == self.spec_end(),
    {
        self.end_it
    }

    /// The front cursor.
    pub closed spec fn spec_begin(&self) -> CompatIterMut {
        self.begin_it
    }

    /// The back cursor.
    pub closed spec fn spec_end(&self) -> CompatIterMut {
        self.end_it
    }

    /// The cursors of a deque stand in subarrays of the deque's size, the front one at or
    /// before the back one, and the elements are the slots between them.
    pub proof fn lemma_cursors(&self)
        requires
            self.wf(),
        ensures
            self.spec_begin().wf(),
            self.spec_end().wf(),
            self.spec_begin().subarray_size() == Self::spec_subarray_size(),
            self.spec_end().subarray_size() == Self::spec_subarray_size(),
            self.spec_begin().current_array <= self.spec_end().current_array < self.map_capacity(),
            self.spec_begin().current <= self.spec_end().current,
            self@.len() == self.spec_end().current - self.spec_begin().current,
    {
    }

    /// Provides a reference to the back element, or `None` if the deque is empty.
    pub fn back(&self) -> (elem: Option<&T>)
        requires
            self.wf(),
        ensures
            self@.len() == 0 ==> elem.is_none(),
            self@.len() > 0 ==> elem == Some(&self@.last()),
    {
        self.iter().next_back()
    }

    /// Provides a mutable reference to the back element, or `None` if the deque is empty.
    pub fn back_mut(&mut self) -> (elem: Option<&mut T>)
        requires
            old(self).wf(),
        ensures
            final(self).wf(),
            final(self).map_capacity() == old(self).map_capacity(),
            match elem {
                None => old(self)@.len() == 0 && final(self)@ == old(self)@,
                Some(value) => {
                    &&& old(self)@.len() > 0
                    &&& *value == old(self)@.last()
                    &&& final(self)@ == old(self)@.update(old(self)@.len() - 1, *final(value))
                },
            },
    {
        let mut raw = self.iter_mut_unchecked();
        let ghost index = self@.len() - 1;
        match raw.next_back() {
            None => None,
            Some((subarray, offset)) => self.slot_mut(subarray, offset, Ghost(index)),
        }
    }

    /// Provides a reference to the front element, or `None` if the deque is empty.
    pub fn front(&self) -> (elem: Option<&T>)
        requires
            self.wf(),
        ensures
            self@.len() == 0 ==> elem.is_none(),
            self@.len() > 0 ==> elem == Some(&self@.first()),
    {
        self.iter().next()
    }

    /// Provides a mutable reference to the front element, or `None` if the deque is empty.
    pub fn front_mut(&mut self) -> (elem: Option<&mut T>)
        requires
            old(self).wf(),
        ensures
            final(self).wf(),
            final(self).map_capacity() == old(self).map_capacity(),
            match elem {
                None => old(self)@.len() == 0 && final(self)@ == old(self)@,
                Some(value) => {
                    &&& old(self)@.len() > 0
                    &&& *value == old(self)@.first()
                    &&& final(self)@ == old(self)@.update(0, *final(value))
                },
            },
    {
        let mut raw = self.iter_mut_unchecked();
        match raw.next() {
            None => None,
            Some((subarray, offset)) => self.slot_mut(subarray, offset, Ghost(0)),
        }
    }

    /// Returns an iterator over the deque.
    pub fn iter(&self) -> (iter: Iter<'_, T>)
        requires
            self.wf(),
        ensures
            iter.wf(),
            iter@ == self@,
    {
        let raw = RawIter::from_compat(self.begin_it.freeze(), self.end_it.freeze());
        proof {
            raw.lemma_bounds();
        }
        Iter::new(&self.ptr_array, raw)
    }

    /// Returns a mutable iterator over the deque.
    pub fn iter_mut(&mut self) -> (iter: IterMut<'_, T, A>)
        requires
            old(self).wf(),
        ensures
            iter.wf(),
            iter@ == old(self)@,
            iter.front_index() == 0,
            iter.back_index() == old(self)@.len(),
            *iter.deque == *old(self),
            *final(self) == *final(iter.deque),
    {
        let raw = self.iter_mut_unchecked();
        assert(self@.subrange(0, self@.len() as int) =~= self@);
        IterMut { deque: self, raw }
    }

    /// Turns the deque into an iterator that takes its elements out.
    pub fn into_iter(self) -> (iter: IntoIter<T, A>)
        requires
            self.wf(),
        ensures
            iter.wf(),
            iter@ == self@,
    {
        IntoIter::new(self)
    }

    /// The cursors `begin` and `end` are a pair that stands between the cursors `first` and
    /// `last` of a deque, in subarrays of the deque's size.
    pub open spec fn spans(
        first: CompatIterMut,
        last: CompatIterMut,
        begin: CompatIter,
        end: CompatIter,
    ) -> bool {
        &&& RawIter::pairs(begin, end)
        &&& begin.subarray_size() == Self::spec_subarray_size()
        &&& first.current <= begin.current
        &&& end.current <= last.current
    }

    /// Returns the iterator over the elements between two cursors, or `None` if the cursors
    /// are no pair or reach beyond the elements of the deque.
    pub fn iter_from_compat(&self, begin: CompatIter, end: CompatIter) -> (iter: Option<
        Iter<'_, T>,
    >)
        requires
            self.wf(),
        ensures
            iter.is_some() <==> Self::spans(self.spec_begin(), self.spec_end(), begin, end),
            iter.is_some() ==> iter.unwrap().wf() && iter.unwrap()@ == self@.subrange(
                begin.current - self.spec_begin().current,
                end.current - self.spec_begin().current,
            ),
    {
        match self.raw_from_compat(begin, end) {
            Some(raw) => Some(Iter::new(&self.ptr_array, raw)),
            None => None,
        }
    }

    /// Returns the mutable iterator over the elements between two cursors, or `None` if the
    /// cursors are no pair or reach beyond the elements of the deque.
    pub fn iter_mut_from_compat(&mut self, begin: CompatIterMut, end: CompatIterMut) -> (iter:
        Option<IterMut<'_, T, A>>)
        requires
            old(self).wf(),
        ensures
            iter.is_some() <==> Self::spans(
                old(self).spec_begin(),
                old(self).spec_end(),
                begin.spec_freeze(),
                end.spec_freeze(),
            ),
            match iter {
                Some(iter) => {
                    &&& iter.wf()
                    &&& iter.front_index() == begin.current - old(self).spec_begin().current
                    &&& iter.back_index() == end.current - old(self).spec_begin().current
                    &&& *iter.deque == *old(self)
                    &&& *final(self) == *final(iter.deque)
                },
                None => *final(self) == *old(self),
            },
    {
        match self.raw_from_compat(begin.freeze(), end.freeze()) {
            Some(raw) => Some(IterMut { deque: self, raw }),
            None => None,
        }
    }

    /// Returns the pair of the cursors `begin` and `end`, or `None` if the cursors are no
    /// pair or reach beyond the elements of the deque.
    fn raw_from_compat(&self, begin: CompatIter, end: CompatIter) -> (raw: Option<RawIter>)
        requires
            self.wf(),
        ensures
            raw.is_some() <==> Self::spans(self.spec_begin(), self.spec_end(), begin, end),
            raw.is_some() ==> {
                &&& Iter::<T>::spans(self.ptr_array@, raw.unwrap())
                &&& raw.unwrap().size() == Self::spec_subarray_size()
                &&& raw.unwrap().front() == begin.current
                &&& raw.unwrap().back() == end.current
                &&& elements(
                    self.ptr_array@,
                    begin.current as int,
                    end.current as int,
                    Self::spec_subarray_size() as int,
                ) == self@.subrange(
                    begin.current - self.begin_it.current,
                    end.current - self.begin_it.current,
                )
            },
    {
        let size = Self::calculate_subarray_size();
        let ghost count = self.ptr_array_size as int;
        if begin.begin > begin.end || begin.end - begin.begin != size || end.begin > end.end
            || end.end - end.begin != size {
            return None;
        }
        if !(begin.begin <= begin.current && begin.current < begin.end && end.begin <= end.current
            && end.current < end.end) {
            return None;
        }
        if !(self.begin_it.current <= begin.current && begin.current <= end.current && end.current
            <= self.end_it.current) {
            return None;
        }
        proof {
            let first = self.begin_it.current_array as int;
            let last = self.end_it.current_array as int;
            lemma_position_step(last, count, size as int);
            lemma_position_order(0, first, size as int);
        }
        if begin.current_array >= self.ptr_array_size as usize || end.current_array
            >= self.ptr_array_size as usize {
            return None;
        }
        proof {
            lemma_position_step(begin.current_array as int, count, size as int);
            lemma_position_step(end.current_array as int, count, size as int);
        }
        if begin.begin != begin.current_array * size || end.begin != end.current_array * size {
            return None;
        }
        let raw = RawIter::from_compat(begin, end);
        proof {
            let first = self.begin_it.current_array as int;
            let last = self.end_it.current_array as int;
            let lo = self.begin_it.current as int;
            raw.lemma_bounds();
            lemma_position_within(begin.current as int, first, last, size as int);
            lemma_position_within(
                begin.current as int,
                begin.current_array as int,
                begin.current_array as int,
                size as int,
            );
            lemma_position_within(end.current as int, first, last, size as int);
            lemma_position_within(
                end.current as int,
                end.current_array as int,
                end.current_array as int,
                size as int,
            );
            assert(elements(
                self.ptr_array@,
                begin.current as int,
                end.current as int,
                size as int,
            ) =~= self@.subrange(begin.current - lo, end.current - lo));
        }
        Some(raw)
    }

    /// The allocator that the deque takes its subarrays and its array of subarrays from.
    pub closed spec fn spec_allocator(&self) -> A {
        self.allocator
    }

    /// The number of subarrays that the deque holds.
    pub open spec fn spec_subarrays(&self) -> int {
        self.spec_end().current_array - self.spec_begin().current_array + 1
    }

    /// Drops every element from the front to the back, frees every subarray and then the
    /// array of subarrays, and hands back the allocator.
    ///
    /// The allocator that comes back is the allocator of the deque after it has taken back,
    /// one after the other, as many subarrays as the deque holds, each with no element left
    /// in it, and then the array of subarrays, with no subarray left in it: `states` are the
    /// allocator before and after each subarray.
    pub fn into_allocator(self) -> (allocator: A)
        requires
            self.wf(),
        ensures
            (exists|states: Seq<A>, blocks: Seq<Subarray<T>>, map: Vec<Option<Subarray<T>>>|
                #![trigger states.len(), blocks.len(), map@]
                {
                    &&& states.len() == self.spec_subarrays() + 1
                    &&& blocks.len() == self.spec_subarrays()
                    &&& states[0] == self.spec_allocator()
                    &&& forall|k: int|
                        0 <= k < self.spec_subarrays() ==> (#[trigger] blocks[k])@ == vacated::<T>(
                            Self::spec_subarray_size() as int,
                        ) && exists|taker: &mut A|
                            *taker == states[k] && *final(taker) == states[k + 1]
                                && #[trigger] call_ensures(
                                A::deallocate::<Option<T>>,
                                (taker, blocks[k]),
                                (),
                            )
                    &&& map@.len() == self.map_capacity()
                    &&& forall|i: int| 0 <= i < map@.len() ==> (#[trigger] map@[i]).is_none()
                    &&& exists|taker: &mut A|
                        *taker == states[self.spec_subarrays()] && *final(taker) == allocator
                            && #[trigger] call_ensures(
                            A::deallocate::<Option<Subarray<T>>>,
                            (taker, map),
                            (),
                        )
                }),
    {
        let mut this = self;
        // drop all elements
        let mut elems = this.iter_mut_unchecked();
        loop
            invariant
                elems.wf(),
                this.ptr_array@.len() == this.ptr_array_size,
                elems.back_subarray() < this.ptr_array@.len(),
                elems.size() == Self::spec_subarray_size(),
                allocated(
                    this.ptr_array@,
                    elems.front_subarray(),
                    elems.back_subarray(),
                    elems.size(),
                ),
                this.begin_it == self.begin_it,
                this.end_it == self.end_it,
                this.allocator == self.allocator,
                this.ptr_array_size == self.ptr_array_size,
                self.begin_it.current_array <= elems.front_subarray(),
                elems.back_subarray() == self.end_it.current_array,
                forall|i: int|
                    self.begin_it.current_array <= i <= self.end_it.current_array ==> (
                    #[trigger] this.ptr_array@[i]).is_some() && this.ptr_array@[i].unwrap()@.len()
                        == Self::spec_subarray_size(),
                elems.back() == self.end_it.current,
                holds(
                    this.ptr_array@,
                    self.begin_it.current_array as int,
                    self.end_it.current_array as int,
                    elems.front(),
                    self.end_it.current as int,
                    Self::spec_subarray_size() as int,
                ),
            ensures
                elems.front() == elems.back(),
            decreases elems.back() - elems.front(),
        {
            proof {
                elems.lemma_bounds();
            }
            let ghost front = elems.front();
            match elems.next() {
                None => {
                    break ;
                },
                Some((subarray, offset)) => {
                    let ghost before = this.ptr_array@;
                    let _ = exchange(&mut this.ptr_array, subarray, offset, None);
                    proof {
                        lemma_position_join(
                            subarray as int,
                            offset as int,
                            Self::spec_subarray_size() as int,
                        );
                        lemma_exchange_holds(
                            before,
                            this.ptr_array@,
                            self.begin_it.current_array as int,
                            self.end_it.current_array as int,
                            front,
                            self.end_it.current as int,
                            front + 1,
                            self.end_it.current as int,
                            front,
                            None,
                            Self::spec_subarray_size() as int,
                        );
                        assert forall|i: int|
                            elems.front_subarray() <= i <= elems.back_subarray() implies (
                        #[trigger] this.ptr_array@[i]).is_some() && this.ptr_array@[i].unwrap()@.len()
                            == elems.size() by {
                            assert(before[i].is_some());
                        }
                        assert forall|i: int|
                            self.begin_it.current_array <= i
                                <= self.end_it.current_array implies (
                        #[trigger] this.ptr_array@[i]).is_some() && this.ptr_array@[i].unwrap()@.len()
                            == Self::spec_subarray_size() by {
                            assert(before[i].is_some());
                        }
                    }
                },
            }
        }

        // free the sub-arrays
        let count = this.ptr_array.len();
        let mut current_array = this.begin_it.current_array;
        let ghost mut states = seq![this.allocator];
        let ghost mut blocks = Seq::<Subarray<T>>::empty();
        proof {
            lemma_all_vacant(
                this.ptr_array@,
                self.begin_it.current_array as int,
                self.end_it.current_array as int,
                self.end_it.current as int,
                Self::spec_subarray_size() as int,
            );
        }
        while current_array <= this.end_it.current_array
            invariant
                this.end_it.current_array < this.ptr_array@.len() == count,
                this.begin_it.current_array <= current_array <= this.end_it.current_array + 1,
                count == self.ptr_array_size,
                this.begin_it == self.begin_it,
                this.end_it == self.end_it,
                forall|i: int|
                    current_array <= i <= this.end_it.current_array ==> (
                    #[trigger] this.ptr_array@[i]).is_some() && this.ptr_array@[i].unwrap()@
                        == vacated::<T>(Self::spec_subarray_size() as int),
                forall|i: int|
                    0 <= i < count && !(current_array <= i <= this.end_it.current_array) ==> (
                    #[trigger] this.ptr_array@[i]).is_none(),
                states.len() == current_array - this.begin_it.current_array + 1,
                blocks.len() == current_array - this.begin_it.current_array,
                states[0] == self.allocator,
                states.last() == this.allocator,
                forall|k: int|
                    0 <= k < blocks.len() ==> (#[trigger] blocks[k])@ == vacated::<T>(
                        Self::spec_subarray_size() as int,
                    ) && exists|taker: &mut A|
                        *taker == states[k] && *final(taker) == states[k + 1]
                            && #[trigger] call_ensures(
                            A::deallocate::<Option<T>>,
                            (taker, blocks[k]),
                            (),
                        ),
            decreases this.end_it.current_array + 1 - current_array,
        {
            let ghost held = this.ptr_array@;
            let ghost gone = blocks;
            let ghost seen = states;
            assert(held[current_array as int].is_some());
            let subarray = this.ptr_array[current_array].take();
            if let Some(subarray) = subarray {
                Self::free_subarray(&mut this.allocator, subarray);
                proof {
                    states = states.push(this.allocator);
                    blocks = blocks.push(subarray);
                    assert forall|k: int| 0 <= k < blocks.len() implies (#[trigger] blocks[k])@
                        == vacated::<T>(Self::spec_subarray_size() as int)
                        && (exists|taker: &mut A|
                        *taker == states[k] && *final(taker) == states[k + 1]
                            && #[trigger] call_ensures(
                            A::deallocate::<Option<T>>,
                            (taker, blocks[k]),
                            (),
                        )) by {
                        if k < gone.len() {
                            assert(blocks[k] == gone[k]);
                            assert(states[k] == seen[k]);
                            assert(states[k + 1] == seen[k + 1]);
                        } else {
                            assert(blocks[k] == subarray);
                            assert(states[k] == seen.last());
                        }
                    }
                }
            }
            proof {
                assert forall|i: int|
                    current_array + 1 <= i <= this.end_it.current_array implies (
                #[trigger] this.ptr_array@[i]).is_some() && this.ptr_array@[i].unwrap()@
                    == vacated::<T>(Self::spec_subarray_size() as int) by {
                    assert(held[i].is_some());
                }
                assert forall|i: int|
                    0 <= i < count && !(current_array + 1 <= i
                        <= this.end_it.current_array) implies (#[trigger] this.ptr_array@[i]).is_none() by {
                    if i != current_array {
                        assert(held[i].is_none());
                    }
                }
            }
            current_array = current_array + 1;
        }

        let Deque { ptr_array, ptr_array_size: _, begin_it: _, end_it: _, allocator } = this;
        let mut allocator = allocator;
        let ghost map = ptr_array;
        Self::free_ptr_array(&mut allocator, ptr_array);
        proof {
            assert(states.len() == self.spec_subarrays() + 1);
            assert(blocks.len() == self.spec_subarrays());
            assert(map@.len() == self.map_capacity());
        }
        allocator
    }

    /// A mutable look at element `index`, which lies in slot `offset` of subarray `subarray`.
    pub(crate) fn slot_mut(&mut self, subarray: usize, offset: usize, Ghost(index): Ghost<int>) -> (elem:
        Option<&mut T>)
        requires
            old(self).wf(),
            0 <= index < old(self)@.len(),
            offset < Self::spec_subarray_size(),
            position(subarray as int, offset as int, Self::spec_subarray_size() as int) == old(
                self).spec_begin().current + index,
        ensures
            final(self).wf(),
            final(self).spec_begin() == old(self).spec_begin(),
            final(self).spec_end() == old(self).spec_end(),
            final(self).map_capacity() == old(self).map_capacity(),
            elem.is_some(),
            *elem.unwrap() == old(self)@[index],
            final(self)@ == old(self)@.update(index, *final(elem.unwrap())),
    {
        let ghost size = Self::spec_subarray_size() as int;
        let ghost first = self.begin_it.current_array as int;
        let ghost last = self.end_it.current_array as int;
        let ghost lo = self.begin_it.current as int;
        let ghost hi = self.end_it.current as int;
        let ghost before = self.ptr_array@;
        proof {
            lemma_position_join(subarray as int, offset as int, size);
            lemma_position_within(lo + index, first, last, size);
            assert(cell(before, lo + index, size).is_some());
            assert forall|after: Seq<Option<Subarray<T>>>, value: Option<T>|
                value.is_some() && #[trigger] exchanged(
                    before,
                    after,
                    subarray as int,
                    offset as int,
                    value,
                ) implies holds(after, first, last, lo, hi, size) && after.len() == before.len()
                && elements(after, lo, hi, size) == elements(before, lo, hi, size).update(
                index,
                value.unwrap(),
            ) by {
                lemma_replace_holds(before, after, first, last, lo, hi, lo + index, value, size);
            }
        }
        peek_mut(&mut self.ptr_array, subarray, offset)
    }

    /// Returns true if the deque contains no elements.
    pub fn is_empty(&self) -> (empty: bool)
        requires
            self.wf(),
        ensures
            empty == (self@.len() == 0),
    {
        self.begin_it.current == self.end_it.current
    }

    /// Returns the number of elements in the deque.
    pub fn len(&self) -> (len: usize)
        requires
            self.wf(),
        ensures
            len == self@.len(),
    {
        if self.begin_it.current_array == self.end_it.current_array {
            // super simple calculation
            self.end_it.current - self.begin_it.current
        } else {
            // not so simple...
            let size = Self::calculate_subarray_size();
            proof {
                let first = self.begin_it.current_array as int;
                let last = self.end_it.current_array as int;
                lemma_position_order(last, self.ptr_array_size as int - 1, size as int);
                lemma_position_order(0, first, size as int);
                assert((last - first) * size == last * size - first * size) by (nonlinear_arith);
                assert(self.ptr_array_size * size == (self.ptr_array_size - 1) * size + size)
                    by (nonlinear_arith);
            }
            let full_subarray_diff = (self.end_it.current_array - self.begin_it.current_array)
                * size;
            let begin_subarray_offset = self.begin_it.current - self.begin_it.begin;
            let end_subarray_offset = self.end_it.current - self.end_it.begin;
            full_subarray_diff + end_subarray_offset - begin_subarray_offset
        }
    }

    /// Creates a new deque inside an allocator. It is empty, and both cursors stand at the
    /// first slot of its one subarray, in the middle of the array of subarrays.
    pub fn new_in(allocator: A) -> (deque: Self)
        ensures
            deque.wf(),
            deque@ == Seq::<T>::empty(),
            deque.map_capacity() == INITIAL_PTR_ARRAY_SIZE,
            deque.spec_has_room(),
            deque.spec_begin() == Self::first_of(3),
            deque.spec_end() == Self::first_of(3),
    {
        let mut allocator = allocator;
        let (ptr_array, cursor) = Self::init(&mut allocator);
        let deque = Deque {
            ptr_array,
            ptr_array_size: INITIAL_PTR_ARRAY_SIZE,
            begin_it: cursor,
            end_it: cursor,
            allocator,
        };
        assert(deque@ =~= Seq::<T>::empty());
        assert(Self::spec_subarray_size() <= 64);
        deque
    }

    /// The place that the subarrays start at, and the number of places in the array of
    /// subarrays, after room was made for `additional` more subarrays at one end of `used`
    /// subarrays that start at place `start` of `capacity` places.
    ///
    /// Where the other end has that many places to spare, the subarrays slide towards it, by
    /// half of the spare places if that is more. Else the array is made anew with more than
    /// twice the places, and the subarrays keep their place or, where the room is wanted at
    /// the front, stand that much further on.
    pub open spec fn spec_move_ptrs(
        start: int,
        used: int,
        capacity: int,
        additional: int,
        front: bool,
    ) -> (int, int) {
        let unused_front = start;
        let unused_back = capacity - start - used;
        if !front && additional <= unused_front {
            let claimed = if additional < (unused_front + 1) / 2 {
                (unused_front + 1) / 2
            } else {
                additional
            };
            (unused_front - claimed, capacity)
        } else if front && additional <= unused_back {
            let claimed = if additional < unused_back / 2 {
                unused_back / 2
            } else {
                additional
            };
            (start + claimed, capacity)
        } else {
            (
                if front {
                    unused_front + additional
                } else {
                    unused_front
                },
                capacity + (if capacity > additional {
                    capacity
                } else {
                    additional
                }) + 2,
            )
        }
    }

    /// The cursor `cursor` at the same slot of the subarray with number `subarray`.
    pub open spec fn at_subarray(cursor: CompatIterMut, subarray: int) -> CompatIterMut {
        let size = Self::spec_subarray_size() as int;
        CompatIterMut {
            current: (position(subarray, 0, size) + (cursor.current - cursor.begin)) as usize,
            begin: position(subarray, 0, size) as usize,
            end: position(subarray, size, size) as usize,
            current_array: subarray as usize,
        }
    }

    /// The cursor at the first slot of the subarray with number `subarray`.
    pub open spec fn first_of(subarray: int) -> CompatIterMut {
        let size = Self::spec_subarray_size() as int;
        CompatIterMut {
            current: position(subarray, 0, size) as usize,
            begin: position(subarray, 0, size) as usize,
            end: position(subarray, size, size) as usize,
            current_array: subarray as usize,
        }
    }

    /// The cursor at the last slot of the subarray with number `subarray`.
    pub open spec fn last_of(subarray: int) -> CompatIterMut {
        let size = Self::spec_subarray_size() as int;
        CompatIterMut {
            current: (position(subarray, size, size) - 1) as usize,
            begin: position(subarray, 0, size) as usize,
            end: position(subarray, size, size) as usize,
            current_array: subarray as usize,
        }
    }

    /// The cursors and the number of places in the array of subarrays after room was made
    /// for one more subarray at one end.
    pub open spec fn spec_made_room(
        begin: CompatIterMut,
        end: CompatIterMut,
        capacity: int,
        front: bool,
    ) -> (CompatIterMut, CompatIterMut, int) {
        let used = end.current_array - begin.current_array + 1;
        let moved = Self::spec_move_ptrs(begin.current_array as int, used, capacity, 1, front);
        (
            Self::at_subarray(begin, moved.0),
            Self::at_subarray(end, moved.0 + used - 1),
            moved.1,
        )
    }

    /// The cursors and the number of places in the array of subarrays after a push at the
    /// back. The back cursor steps on in its subarray; from the last slot of it, it steps to
    /// the first slot of a new subarray, for which room is made if the subarray was at the
    /// last place.
    pub open spec fn spec_push_back_cursors(
        begin: CompatIterMut,
        end: CompatIterMut,
        capacity: int,
    ) -> (CompatIterMut, CompatIterMut, int) {
        if end.current + 1 != end.end {
            (
                begin,
                CompatIterMut {
                    current: (end.current + 1) as usize,
                    begin: end.begin,
                    end: end.end,
                    current_array: end.current_array,
                },
                capacity,
            )
        } else {
            let room = if end.current_array == capacity - 1 {
                Self::spec_made_room(begin, end, capacity, false)
            } else {
                (begin, end, capacity)
            };
            (room.0, Self::first_of(room.1.current_array + 1), room.2)
        }
    }

    /// The cursors and the number of places in the array of subarrays after a push at the
    /// front. The front cursor steps back in its subarray; from the first slot of it, it
    /// steps to the last slot of a new subarray, for which room is made if the subarray was
    /// at the first place.
    pub open spec fn spec_push_front_cursors(
        begin: CompatIterMut,
        end: CompatIterMut,
        capacity: int,
    ) -> (CompatIterMut, CompatIterMut, int) {
        if begin.current != begin.begin {
            (
                CompatIterMut {
                    current: (begin.current - 1) as usize,
                    begin: begin.begin,
                    end: begin.end,
                    current_array: begin.current_array,
                },
                end,
                capacity,
            )
        } else {
            let room = if begin.current_array == 0 {
                Self::spec_made_room(begin, end, capacity, true)
            } else {
                (begin, end, capacity)
            };
            (Self::last_of(room.0.current_array - 1), room.1, room.2)
        }
    }

    /// The cursors after a pop at the back. The back cursor steps back in its subarray; from
    /// the first slot of it, the subarray goes, and the cursor steps to the last slot of the
    /// subarray before.
    pub open spec fn spec_pop_back_cursors(begin: CompatIterMut, end: CompatIterMut) -> (
        CompatIterMut,
        CompatIterMut,
    ) {
        if begin.current == end.current {
            (begin, end)
        } else if end.current != end.begin {
            (
                begin,
                CompatIterMut {
                    current: (end.current - 1) as usize,
                    begin: end.begin,
                    end: end.end,
                    current_array: end.current_array,
                },
            )
        } else {
            (begin, Self::last_of(end.current_array - 1))
        }
    }

    /// The cursors after a pop at the front. The front cursor steps on in its subarray; from
    /// the last slot of it, the subarray goes, and the cursor steps to the first slot of the
    /// subarray behind.
    pub open spec fn spec_pop_front_cursors(begin: CompatIterMut, end: CompatIterMut) -> (
        CompatIterMut,
        CompatIterMut,
    ) {
        if begin.current == end.current {
            (begin, end)
        } else if begin.current + 1 != begin.end {
            (
                CompatIterMut {
                    current: (begin.current + 1) as usize,
                    begin: begin.begin,
                    end: begin.end,
                    current_array: begin.current_array,
                },
                end,
            )
        } else {
            (Self::first_of(begin.current_array + 1), end)
        }
    }

    /// Removes the last element from the deque and returns it, or `None` if it is empty.
    pub fn pop_back(&mut self) -> (elem: Option<T>)
        requires
            old(self).wf(),
        ensures
            final(self).wf(),
            final(self).map_capacity() == old(self).map_capacity(),
            old(self)@.len() == 0 ==> elem.is_none() && final(self)@ == old(self)@,
            old(self)@.len() > 0 ==> elem == Some(old(self)@.last()) && final(self)@ == old(self)@.drop_last(),
            step(old(self)@, Op::PopBack) == (final(self)@, elem),
            (final(self).spec_begin(), final(self).spec_end()) == Self::spec_pop_back_cursors(
                old(self).spec_begin(),
                old(self).spec_end(),
            ),
    {
        let size = Self::calculate_subarray_size();
        let ghost first = self.begin_it.current_array as int;
        let ghost last = self.end_it.current_array as int;
        let ghost lo = self.begin_it.current as int;
        let ghost hi = self.end_it.current as int;
        if self.is_empty() {
            None
        } else if self.end_it.current != self.end_it.begin {
            // no de-allocation necessary!
            self.end_it.current = self.end_it.current - 1;

            let offset = self.end_it.current - self.end_it.begin;
            let elem = Self::fetch(
                &mut self.ptr_array,
                self.end_it.current_array,
                offset,
                Ghost((first, last, lo, hi, lo, hi - 1)),
            );
            assert(self@ =~= old(self)@.drop_last());
            elem
        } else {
            // we need to de-allocate the current array pointer
            proof {
                lemma_position_within(lo, first, last - 1, size as int);
                lemma_position_within(lo, first, first, size as int);
                lemma_position_order(last - 1, last, size as int);
            }
            let ghost before = self.ptr_array@;
            let subarray = self.ptr_array[self.end_it.current_array].take();
            if let Some(subarray) = subarray {
                Self::free_subarray(&mut self.allocator, subarray);
            }
            proof {
                lemma_entry_holds(
                    before,
                    self.ptr_array@,
                    first,
                    last,
                    first,
                    last - 1,
                    lo,
                    hi,
                    last,
                    size as int,
                );
            }

            // setup the end iterator again
            self.end_it.set_subarray(self.end_it.current_array - 1, size);
            self.end_it.current = self.end_it.end - 1;

            // simply read the last value in the subarray
            let elem = Self::fetch(
                &mut self.ptr_array,
                self.end_it.current_array,
                size - 1,
                Ghost((first, last - 1, lo, hi, lo, hi - 1)),
            );
            proof {
                assert forall|k: int| 0 <= k < hi - lo - 1 implies self@[k] == old(self)@[k] by {
                    lemma_position_within(lo + k, first, last - 1, size as int);
                    assert(cell(self.ptr_array@, lo + k, size as int) == cell(
                        before,
                        lo + k,
                        size as int,
                    ));
                }
                lemma_position_within(hi - 1, first, last - 1, size as int);
                assert(self@ =~= old(self)@.drop_last());
            }
            elem
        }
    }

    /// Removes the first element from the deque and returns it, or `None` if it is empty.
    pub fn pop_front(&mut self) -> (elem: Option<T>)
        requires
            old(self).wf(),
        ensures
            final(self).wf(),
            final(self).map_capacity() == old(self).map_capacity(),
            old(self)@.len() == 0 ==> elem.is_none() && final(self)@ == old(self)@,
            old(self)@.len() > 0 ==> elem == Some(old(self)@.first()) && final(self)@ == old(self)@.drop_first(),
            step(old(self)@, Op::PopFront) == (final(self)@, elem),
            (final(self).spec_begin(), final(self).spec_end()) == Self::spec_pop_front_cursors(
                old(self).spec_begin(),
                old(self).spec_end(),
            ),
    {
        let size = Self::calculate_subarray_size();
        let ghost first = self.begin_it.current_array as int;
        let ghost last = self.end_it.current_array as int;
        let ghost lo = self.begin_it.current as int;
        let ghost hi = self.end_it.current as int;
        if self.is_empty() {
            None
        } else if self.begin_it.current != self.begin_it.end - 1 {
            // no de-allocation necessary!
            let offset = self.begin_it.current - self.begin_it.begin;
            let elem = Self::fetch(
                &mut self.ptr_array,
                self.begin_it.current_array,
                offset,
                Ghost((first, last, lo, hi, lo + 1, hi)),
            );
            self.begin_it.current = self.begin_it.current + 1;

            assert(self@ =~= old(self)@.drop_first());
            elem
        } else {
            // read the element before deallocation
            let elem = Self::fetch(
                &mut self.ptr_array,
                self.begin_it.current_array,
                size - 1,
                Ghost((first, last, lo, hi, lo + 1, hi)),
            );

            // we need to de-allocate the current array pointer
            proof {
                lemma_position_within(hi, first + 1, last, size as int);
                lemma_position_within(hi, last, last, size as int);
                lemma_position_order(first, first + 1, size as int);
                lemma_position_order(first + 1, last, size as int);
            }
            let ghost before = self.ptr_array@;
            let subarray = self.ptr_array[self.begin_it.current_array].take();
            if let Some(subarray) = subarray {
                Self::free_subarray(&mut self.allocator, subarray);
            }
            proof {
                lemma_entry_holds(
                    before,
                    self.ptr_array@,
                    first,
                    last,
                    first + 1,
                    last,
                    lo + 1,
                    hi,
                    first,
                    size as int,
                );
            }

            // setup the begin iterator again
            self.begin_it.set_subarray(self.begin_it.current_array + 1, size);
            self.begin_it.current = self.begin_it.begin;

            proof {
                assert forall|k: int| 0 <= k < hi - lo - 1 implies self@[k] == old(self)@[k + 1] by {
                    lemma_position_within(lo + 1 + k, first + 1, last, size as int);
                    assert(cell(self.ptr_array@, lo + 1 + k, size as int) == cell(
                        before,
                        lo + 1 + k,
                        size as int,
                    ));
                }
                assert(self@ =~= old(self)@.drop_first());
            }
            elem
        }
    }

    /// Pushes an element to the back of the deque.
    pub fn push_back(&mut self, elem: T)
        requires
            old(self).wf(),
            old(self).grows_at_back() ==> old(self).has_room(),
        ensures
            final(self).wf(),
            final(self)@ == old(self)@.push(elem),
            final(self).map_capacity() == old(self).map_capacity() || final(self).map_capacity()
                == 2 * old(self).map_capacity() + 2,
            step(old(self)@, Op::PushBack(elem)) == (final(self)@, None::<T>),
            (final(self).spec_begin(), final(self).spec_end(), final(self).map_capacity() as int)
                == Self::spec_push_back_cursors(
                old(self).spec_begin(),
                old(self).spec_end(),
                old(self).map_capacity() as int,
            ),
    {
        let size = Self::calculate_subarray_size();
        if self.end_it.current != self.end_it.end - 1 {
            // simply add the element to the back of the current subarray
            let ghost first = self.begin_it.current_array as int;
            let ghost last = self.end_it.current_array as int;
            let ghost lo = self.begin_it.current as int;
            let ghost hi = self.end_it.current as int;
            let offset = self.end_it.current - self.end_it.begin;
            Self::store(
                &mut self.ptr_array,
                self.end_it.current_array,
                offset,
                elem,
                Ghost((first, last, lo, hi, lo, hi + 1)),
            );
            self.end_it.current = self.end_it.current + 1;
            assert(self@ =~= old(self)@.push(elem));
        } else {
            self.push_back_at_border(elem);
        }
    }

    /// Pushes an element to the back of the deque where the back cursor stands at the border of
    /// its subarray: a new subarray comes in.
    fn push_back_at_border(&mut self, elem: T)
        requires
            old(self).wf(),
            old(self).grows_at_back() ==> old(self).has_room(),
            old(self).end_it.current + 1 == old(self).end_it.end,
        ensures
            final(self).wf(),
            final(self)@ == old(self)@.push(elem),
            final(self).map_capacity() == old(self).map_capacity() || final(self).map_capacity()
                == 2 * old(self).map_capacity() + 2,
            step(old(self)@, Op::PushBack(elem)) == (final(self)@, None::<T>),
            (final(self).spec_begin(), final(self).spec_end(), final(self).map_capacity() as int)
                == Self::spec_push_back_cursors(
                old(self).spec_begin(),
                old(self).spec_end(),
                old(self).map_capacity() as int,
            ),
    {
        // see if we need to allocate more pointers
        if self.end_it.current_array == self.ptr_array_size as usize - 1 {
            self.realloc_ptr_array(1, false);
        }
        self.append_subarray(elem);
    }

    /// Writes an element to the last slot of the last subarray, and puts a new subarray
    /// behind it, to whose first slot the back cursor steps.
    fn append_subarray(&mut self, elem: T)
        requires
            old(self).wf(),
            old(self).end_it.current + 1 == old(self).end_it.end,
            old(self).end_it.current_array + 1 < old(self).ptr_array_size,
        ensures
            final(self).wf(),
            final(self)@ == old(self)@.push(elem),
            final(self).ptr_array_size == old(self).ptr_array_size,
            final(self).begin_it == old(self).begin_it,
            final(self).end_it == Self::first_of(old(self).end_it.current_array + 1),
    {
        let size = Self::calculate_subarray_size();
        let ghost first = self.begin_it.current_array as int;
        let ghost last = self.end_it.current_array as int;
        let ghost lo = self.begin_it.current as int;
        let ghost hi = self.end_it.current as int;
        let ghost view = self@;
        proof {
            lemma_position_order(last, last + 1, size as int);
            lemma_position_order(last + 1, self.ptr_array_size as int - 1, size as int);
            assert(self.ptr_array_size * size == (self.ptr_array_size - 1) * size + size)
                by (nonlinear_arith);
        }
        // write our element to the last position in the subarray
        Self::store(
            &mut self.ptr_array,
            self.end_it.current_array,
            size - 1,
            elem,
            Ghost((first, last, lo, hi, lo, hi + 1)),
        );
        assert(elements(self.ptr_array@, lo, hi + 1, size as int) =~= view.push(elem));
        // allocate a new subarray
        let ghost before = self.ptr_array@;
        let subarray = Self::allocate_subarray(&mut self.allocator);
        self.ptr_array[self.end_it.current_array + 1] = Some(subarray);
        proof {
            lemma_entry_holds(
                before,
                self.ptr_array@,
                first,
                last,
                first,
                last + 1,
                lo,
                hi + 1,
                last + 1,
                size as int,
            );
        }
        self.end_it.set_subarray(self.end_it.current_array + 1, size);
        self.end_it.current = self.end_it.begin;
        proof {
            assert forall|k: int| 0 <= k < hi + 1 - lo implies self@[k] == elements(
                before,
                lo,
                hi + 1,
                size as int,
            )[k] by {
                lemma_position_within(lo + k, first, last, size as int);
                assert(cell(self.ptr_array@, lo + k, size as int) == cell(
                    before,
                    lo + k,
                    size as int,
                ));
            }
            assert(self@ =~= view.push(elem));
        }
    }

    /// Pushes an element to the front of the deque.
    pub fn push_front(&mut self, elem: T)
        requires
            old(self).wf(),
            old(self).grows_at_front() ==> old(self).has_room(),
        ensures
            final(self).wf(),
            final(self)@ == seq![elem] + old(self)@,
            final(self).map_capacity() == old(self).map_capacity() || final(self).map_capacity()
                == 2 * old(self).map_capacity() + 2,
            step(old(self)@, Op::PushFront(elem)) == (final(self)@, None::<T>),
            (final(self).spec_begin(), final(self).spec_end(), final(self).map_capacity() as int)
                == Self::spec_push_front_cursors(
                old(self).spec_begin(),
                old(self).spec_end(),
                old(self).map_capacity() as int,
            ),
    {
        let size = Self::calculate_subarray_size();
        if self.begin_it.current != self.begin_it.begin {
            // simply add the element to the front of the current occupied subarray
            let ghost first = self.begin_it.current_array as int;
            let ghost last = self.end_it.current_array as int;
            let ghost lo = self.begin_it.current as int;
            let ghost hi = self.end_it.current as int;
            self.begin_it.current = self.begin_it.current - 1;

            // write the element
            let ghost before = self.ptr_array@;
            let offset = self.begin_it.current - self.begin_it.begin;
            Self::store(
                &mut self.ptr_array,
                self.begin_it.current_array,
                offset,
                elem,
                Ghost((first, last, lo, hi, lo - 1, hi)),
            );
            proof {
                assert forall|k: int| 0 <= k < hi - lo + 1 implies self@[k] == (seq![elem] + old(
                    self)@)[k] by {
                    if k > 0 {
                        assert(cell(self.ptr_array@, lo + (k - 1), size as int) == cell(
                            before,
                            lo + (k - 1),
                            size as int,
                        ));
                    }
                }
                assert(self@ =~= seq![elem] + old(self)@);
            }
        } else {
            self.push_front_at_border(elem);
        }
    }

    /// Pushes an element to the front of the deque where the front cursor stands at the border of
    /// its subarray: a new subarray comes in.
    fn push_front_at_border(&mut self, elem: T)
        requires
            old(self).wf(),
            old(self).grows_at_front() ==> old(self).has_room(),
            old(self).begin_it.current == old(self).begin_it.begin,
        ensures
            final(self).wf(),
            final(self)@ == seq![elem] + old(self)@,
            final(self).map_capacity() == old(self).map_capacity() || final(self).map_capacity()
                == 2 * old(self).map_capacity() + 2,
            step(old(self)@, Op::PushFront(elem)) == (final(self)@, None::<T>),
            (final(self).spec_begin(), final(self).spec_end(), final(self).map_capacity() as int)
                == Self::spec_push_front_cursors(
                old(self).spec_begin(),
                old(self).spec_end(),
                old(self).map_capacity() as int,
            ),
    {
        // see if we need to allocate more pointers
        if self.begin_it.current_array == 0 {
            self.realloc_ptr_array(1, true);
        }
        self.prepend_subarray(elem);
    }

    /// Puts a new subarray before the first one, and writes an element to its last slot, to
    /// which the front cursor steps.
    fn prepend_subarray(&mut self, elem: T)
        requires
            old(self).wf(),
            old(self).begin_it.current == old(self).begin_it.begin,
            old(self).begin_it.current_array >= 1,
        ensures
            final(self).wf(),
            final(self)@ == seq![elem] + old(self)@,
            final(self).ptr_array_size == old(self).ptr_array_size,
            final(self).end_it == old(self).end_it,
            final(self).begin_it == Self::last_of(old(self).begin_it.current_array - 1),
    {
        let size = Self::calculate_subarray_size();
        let ghost first = self.begin_it.current_array as int;
        let ghost last = self.end_it.current_array as int;
        let ghost lo = self.begin_it.current as int;
        let ghost hi = self.end_it.current as int;
        let ghost view = self@;
        proof {
            lemma_position_order(first - 1, first, size as int);
            lemma_position_order(0, first - 1, size as int);
            lemma_position_order(first, last, size as int);
        }

        // allocate a new subarray
        let ghost before = self.ptr_array@;
        let subarray = Self::allocate_subarray(&mut self.allocator);
        self.ptr_array[self.begin_it.current_array - 1] = Some(subarray);
        proof {
            lemma_entry_holds(
                before,
                self.ptr_array@,
                first,
                last,
                first - 1,
                last,
                lo,
                hi,
                first - 1,
                size as int,
            );
            assert forall|k: int| 0 <= k < hi - lo implies elements(
                self.ptr_array@,
                lo,
                hi,
                size as int,
            )[k] == view[k] by {
                lemma_position_within(lo + k, first, last, size as int);
                assert(cell(self.ptr_array@, lo + k, size as int) == cell(
                    before,
                    lo + k,
                    size as int,
                ));
            }
            assert(elements(self.ptr_array@, lo, hi, size as int) =~= view);
        }
        self.begin_it.set_subarray(self.begin_it.current_array - 1, size);
        self.begin_it.current = self.begin_it.end - 1;

        // write the element
        let ghost installed = self.ptr_array@;
        Self::store(
            &mut self.ptr_array,
            self.begin_it.current_array,
            size - 1,
            elem,
            Ghost((first - 1, last, lo, hi, lo - 1, hi)),
        );
        proof {
            assert forall|k: int| 0 <= k < hi - lo + 1 implies self@[k] == (seq![elem]
                + view)[k] by {
                if k > 0 {
                    assert(cell(self.ptr_array@, lo + (k - 1), size as int) == cell(
                        installed,
                        lo + (k - 1),
                        size as int,
                    ));
                    assert(elements(installed, lo, hi, size as int)[k - 1] == view[k - 1]);
                }
            }
            assert(self@ =~= seq![elem] + view);
        }
    }

    /// Removes and returns the element at `index` from the deque.
    /// Whichever end is closer to the removal point will be moved to make
    /// room, and all the affected elements will be moved to new positions.
    /// Returns `None` if `index` is out of bounds.
    ///
    /// Element at index 0 is the front of the queue.
    pub fn remove(&mut self, index: usize) -> (elem: Option<T>)
        requires
            old(self).wf(),
        ensures
            final(self).wf(),
            final(self).map_capacity() == old(self).map_capacity(),
            index >= old(self)@.len() ==> elem.is_none() && final(self)@ == old(self)@,
            index < old(self)@.len() ==> elem == Some(old(self)@[index as int]) && final(self)@
                == old(self)@.remove(index as int),
            step(old(self)@, Op::Remove(index)) == (final(self)@, elem),
            (final(self).spec_begin(), final(self).spec_end()) == if index >= old(self)@.len() {
                (old(self).spec_begin(), old(self).spec_end())
            } else if index < old(self)@.len() / 2 {
                Self::spec_pop_front_cursors(old(self).spec_begin(), old(self).spec_end())
            } else {
                Self::spec_pop_back_cursors(old(self).spec_begin(), old(self).spec_end())
            },
    {
        let len = self.len();
        if index >= len {
            return None;
        }
        if index < (len / 2) {
            // we want to copy elements forward
            let mut elem_it = self.iter_mut_unchecked();
            elem_it.skip_back(len - index - 1);
            let mut next_it = self.iter_mut_unchecked();
            next_it.skip_back(len - index);
            self.rotate_back(elem_it, next_it, Ghost(index as int));
            proof {
                old(self)@.remove_ensures(index as int);
                assert(self@.drop_first() =~= old(self)@.remove(index as int));
            }
            self.pop_front()
        } else {
            // we want to copy elements backward
            let mut elem_it = self.iter_mut_unchecked();
            elem_it.skip(index);
            let mut next_it = self.iter_mut_unchecked();
            next_it.skip(index + 1);
            self.rotate(elem_it, next_it, Ghost(index as int));
            proof {
                old(self)@.remove_ensures(index as int);
                assert(self@.drop_last() =~= old(self)@.remove(index as int));
            }
            self.pop_back()
        }
    }

    /// The sequence `s` after its element `index` was carried to place `to`, past the
    /// elements between, each of which moved one place the other way.
    pub open spec fn carried(s: Seq<T>, index: int, to: int) -> Seq<T> {
        Seq::new(
            s.len(),
            |k: int|
                if k == to {
                    s[index]
                } else if index <= k < to {
                    s[k + 1]
                } else if to < k <= index {
                    s[k - 1]
                } else {
                    s[k]
                },
        )
    }

    /// Rotates the pair of cursors towards the back: the element that `current` starts at
    /// changes places with the one after it, again and again, until it is the last.
    fn rotate(&mut self, current: RawIter, next: RawIter, Ghost(index): Ghost<int>)
        requires
            old(self).wf(),
            current.wf(),
            next.wf(),
            0 <= index < old(self)@.len(),
            current.size() == Self::spec_subarray_size(),
            next.size() == Self::spec_subarray_size(),
            current.front() == old(self).begin_it.current + index,
            next.front() == current.front() + 1,
            current.back() == old(self).end_it.current,
            next.back() == old(self).end_it.current,
        ensures
            final(self).wf(),
            final(self).map_capacity() == old(self).map_capacity(),
            final(self).begin_it == old(self).begin_it,
            final(self).end_it == old(self).end_it,
            final(self)@ == Self::carried(old(self)@, index, old(self)@.len() - 1),
    {
        let mut current = current;
        let mut next = next;
        let ghost mut to = index;
        assert(self@ =~= Self::carried(old(self)@, index, to));
        loop
            invariant_except_break
                current.wf(),
                next.wf(),
                current.size() == Self::spec_subarray_size(),
                next.size() == Self::spec_subarray_size(),
                current.front() == self.begin_it.current + to,
                next.front() == current.front() + 1,
                current.back() == self.end_it.current,
                next.back() == self.end_it.current,
            invariant
                self.wf(),
                self.ptr_array_size == old(self).ptr_array_size,
                self.begin_it == old(self).begin_it,
                self.end_it == old(self).end_it,
                0 <= index <= to < old(self)@.len(),
                self@ == Self::carried(old(self)@, index, to),
            ensures
                to == old(self)@.len() - 1,
            decreases old(self)@.len() - to,
        {
            let from = current.next();
            let onto = next.next();
            if from.is_none() || onto.is_none() {
                break ;
            }
            let from = from.unwrap();
            let onto = onto.unwrap();
            self.swap_slots(from, onto, Ghost(to), Ghost(to + 1));
            proof {
                assert(self@ =~= Self::carried(old(self)@, index, to + 1));
                to = to + 1;
            }
        }
    }

    /// Rotates the pair of cursors towards the front: the element that `current` ends at
    /// changes places with the one before it, again and again, until it is the first.
    fn rotate_back(&mut self, current: RawIter, next: RawIter, Ghost(index): Ghost<int>)
        requires
            old(self).wf(),
            current.wf(),
            next.wf(),
            0 <= index < old(self)@.len(),
            current.size() == Self::spec_subarray_size(),
            next.size() == Self::spec_subarray_size(),
            current.back() == old(self).begin_it.current + index + 1,
            next.back() == current.back() - 1,
            current.front() == old(self).begin_it.current,
            next.front() == old(self).begin_it.current,
        ensures
            final(self).wf(),
            final(self).map_capacity() == old(self).map_capacity(),
            final(self).begin_it == old(self).begin_it,
            final(self).end_it == old(self).end_it,
            final(self)@ == Self::carried(old(self)@, index, 0),
    {
        let mut current = current;
        let mut next = next;
        let ghost mut to = index;
        assert(self@ =~= Self::carried(old(self)@, index, to));
        loop
            invariant_except_break
                current.wf(),
                next.wf(),
                current.size() == Self::spec_subarray_size(),
                next.size() == Self::spec_subarray_size(),
                current.back() == self.begin_it.current + to + 1,
                next.back() == current.back() - 1,
                current.front() == self.begin_it.current,
                next.front() == self.begin_it.current,
            invariant
                self.wf(),
                self.ptr_array_size == old(self).ptr_array_size,
                self.begin_it == old(self).begin_it,
                self.end_it == old(self).end_it,
                0 <= to <= index < old(self)@.len(),
                self@ == Self::carried(old(self)@, index, to),
            ensures
                to == 0,
            decreases to,
        {
            let from = current.next_back();
            let onto = next.next_back();
            if from.is_none() || onto.is_none() {
                break ;
            }
            let from = from.unwrap();
            let onto = onto.unwrap();
            self.swap_slots(from, onto, Ghost(to), Ghost(to - 1));
            proof {
                assert(self@ =~= Self::carried(old(self)@, index, to - 1));
                to = to - 1;
            }
        }
    }

    /// Exchanges the elements `i` and `j`, which lie in the slots `a` and `b`.
    fn swap_slots(&mut self, a: (usize, usize), b: (usize, usize), Ghost(i): Ghost<int>, Ghost(
        j,
    ): Ghost<int>)
        requires
            old(self).wf(),
            0 <= i < old(self)@.len(),
            0 <= j < old(self)@.len(),
            i != j,
            a.1 < Self::spec_subarray_size(),
            b.1 < Self::spec_subarray_size(),
            position(a.0 as int, a.1 as int, Self::spec_subarray_size() as int) == old(
                self).begin_it.current + i,
            position(b.0 as int, b.1 as int, Self::spec_subarray_size() as int) == old(
                self).begin_it.current + j,
        ensures
            final(self).wf(),
            final(self).ptr_array_size == old(self).ptr_array_size,
            final(self).begin_it == old(self).begin_it,
            final(self).end_it == old(self).end_it,
            final(self)@ == old(self)@.update(i, old(self)@[j]).update(j, old(self)@[i]),
    {
        let ghost size = Self::spec_subarray_size() as int;
        let ghost first = self.begin_it.current_array as int;
        let ghost last = self.end_it.current_array as int;
        let ghost lo = self.begin_it.current as int;
        let ghost hi = self.end_it.current as int;
        let ghost before = self.ptr_array@;
        proof {
            lemma_position_join(a.0 as int, a.1 as int, size);
            lemma_position_join(b.0 as int, b.1 as int, size);
            lemma_position_within(lo + i, first, last, size);
            lemma_position_within(lo + j, first, last, size);
            assert(cell(before, lo + i, size).is_some());
            assert(cell(before, lo + j, size).is_some());
        }
        let from = exchange(&mut self.ptr_array, a.0, a.1, None);
        let ghost lifted = self.ptr_array@;
        let onto = exchange(&mut self.ptr_array, b.0, b.1, from);
        let ghost placed = self.ptr_array@;
        let _ = exchange(&mut self.ptr_array, a.0, a.1, onto);
        proof {
            lemma_swap_holds(
                before,
                lifted,
                placed,
                self.ptr_array@,
                first,
                last,
                lo,
                hi,
                lo + i,
                lo + j,
                size,
            );
            assert forall|k: int| 0 <= k < hi - lo implies self@[k] == old(self)@.update(
                i,
                old(self)@[j],
            ).update(j, old(self)@[i])[k] by {
                if k != i && k != j {
                    assert(cell(self.ptr_array@, lo + k, size) == cell(before, lo + k, size));
                }
            }
            assert(self@ =~= old(self)@.update(i, old(self)@[j]).update(j, old(self)@[i]));
        }
    }

    /// Returns the pair of cursors that spans the deque.
    fn iter_mut_unchecked(&self) -> (iter: RawIter)
        requires
            self.wf(),
        ensures
            iter.wf(),
            iter.size() == Self::spec_subarray_size(),
            iter.front() == self.begin_it.current,
            iter.back() == self.end_it.current,
            iter.front_subarray() == self.begin_it.current_array,
            iter.back_subarray() == self.end_it.current_array,
    {
        RawIter::from_compat_mut(self.begin_it, self.end_it)
    }

    /// Writes `elem` to a slot next to the elements, at one end.
    fn store(
        ptrs: &mut Vec<Option<Subarray<T>>>,
        subarray: usize,
        offset: usize,
        elem: T,
        Ghost(at): Ghost<(int, int, int, int, int, int)>,
    )
        requires
            holds(old(ptrs)@, at.0, at.1, at.2, at.3, Self::spec_subarray_size() as int),
            at.0 <= subarray <= at.1,
            offset < Self::spec_subarray_size(),
            steps(
                at.2,
                at.3,
                at.4,
                at.5,
                position(subarray as int, offset as int, Self::spec_subarray_size() as int),
            ),
            at.4 <= position(subarray as int, offset as int, Self::spec_subarray_size() as int)
                < at.5,
            position(at.0, 0, Self::spec_subarray_size() as int) <= at.4,
            at.5 <= position(
                at.1,
                Self::spec_subarray_size() as int,
                Self::spec_subarray_size() as int,
            ),
        ensures
            final(ptrs)@.len() == old(ptrs)@.len(),
            holds(final(ptrs)@, at.0, at.1, at.4, at.5, Self::spec_subarray_size() as int),
            cell(
                final(ptrs)@,
                position(subarray as int, offset as int, Self::spec_subarray_size() as int),
                Self::spec_subarray_size() as int,
            ) == Some(elem),
            forall|pos: int|
                at.2 <= pos < at.3 ==> #[trigger] cell(
                    final(ptrs)@,
                    pos,
                    Self::spec_subarray_size() as int,
                ) == cell(old(ptrs)@, pos, Self::spec_subarray_size() as int),
    {
        let ghost size = Self::spec_subarray_size() as int;
        let ghost p = position(subarray as int, offset as int, size);
        proof {
            lemma_position_join(subarray as int, offset as int, size);
            lemma_position_order(at.0, subarray as int, size);
            lemma_position_order(subarray as int, at.1, size);
        }
        let ghost before = ptrs@;
        let prev = exchange(ptrs, subarray, offset, Some(elem));
        proof {
            lemma_exchange_holds(
                before,
                ptrs@,
                at.0,
                at.1,
                at.2,
                at.3,
                at.4,
                at.5,
                p,
                Some(elem),
                size,
            );
        }
    }

    /// Takes the element out of a slot at one end of the elements.
    fn fetch(
        ptrs: &mut Vec<Option<Subarray<T>>>,
        subarray: usize,
        offset: usize,
        Ghost(at): Ghost<(int, int, int, int, int, int)>,
    ) -> (elem: Option<T>)
        requires
            holds(old(ptrs)@, at.0, at.1, at.2, at.3, Self::spec_subarray_size() as int),
            at.0 <= subarray <= at.1,
            offset < Self::spec_subarray_size(),
            steps(
                at.2,
                at.3,
                at.4,
                at.5,
                position(subarray as int, offset as int, Self::spec_subarray_size() as int),
            ),
            at.2 <= position(subarray as int, offset as int, Self::spec_subarray_size() as int)
                < at.3,
            at.4 <= at.5,
        ensures
            final(ptrs)@.len() == old(ptrs)@.len(),
            holds(final(ptrs)@, at.0, at.1, at.4, at.5, Self::spec_subarray_size() as int),
            elem == cell(
                old(ptrs)@,
                position(subarray as int, offset as int, Self::spec_subarray_size() as int),
                Self::spec_subarray_size() as int,
            ),
            elem.is_some(),
            forall|pos: int|
                at.4 <= pos < at.5 ==> #[trigger] cell(
                    final(ptrs)@,
                    pos,
                    Self::spec_subarray_size() as int,
                ) == cell(old(ptrs)@, pos, Self::spec_subarray_size() as int),
    {
        let ghost size = Self::spec_subarray_size() as int;
        let ghost p = position(subarray as int, offset as int, size);
        proof {
            lemma_position_join(subarray as int, offset as int, size);
            lemma_position_order(at.0, subarray as int, size);
            lemma_position_order(subarray as int, at.1, size);
            assert(cell(ptrs@, p, size).is_some());
        }
        let ghost before = ptrs@;
        let elem = exchange(ptrs, subarray, offset, None);
        proof {
            lemma_exchange_holds(
                before,
                ptrs@,
                at.0,
                at.1,
                at.2,
                at.3,
                at.4,
                at.5,
                p,
                None,
                size,
            );
        }
        elem
    }

    /// Allocates the subarray pointer array.
    fn allocate_ptr_array(allocator: &mut A, number_of_ptrs: usize) -> (ptrs: Vec<
        Option<Subarray<T>>,
    >)
        requires
            number_of_ptrs != 0,
        ensures
            ptrs@.len() == number_of_ptrs,
            forall|i: int| 0 <= i < number_of_ptrs ==> (#[trigger] ptrs@[i]).is_none(),
    {
        let mut ptrs = allocator.allocate::<Option<Subarray<T>>>(number_of_ptrs);
        ptrs.clear();
        let mut i: usize = 0;
        while i < number_of_ptrs
            invariant
                i <= number_of_ptrs,
                ptrs@.len() == i,
                forall|j: int| 0 <= j < i ==> (#[trigger] ptrs@[j]).is_none(),
            decreases number_of_ptrs - i,
        {
            ptrs.push(None);
            i = i + 1;
        }
        ptrs
    }

    /// Allocates a subarray.
    fn allocate_subarray(allocator: &mut A) -> (cells: Subarray<T>)
        ensures
            cells@.len() == Self::spec_subarray_size(),
            forall|k: int| 0 <= k < Self::spec_subarray_size() ==> (#[trigger] cells@[k]).is_none(),
    {
        let size = Self::calculate_subarray_size();
        let mut cells = allocator.allocate::<Option<T>>(size);
        cells.clear();
        let mut k: usize = 0;
        while k < size
            invariant
                k <= size,
                cells@.len() == k,
                forall|j: int| 0 <= j < k ==> (#[trigger] cells@[j]).is_none(),
            decreases size - k,
        {
            cells.push(None);
            k = k + 1;
        }
        cells
    }

    /// Frees the subarray pointer array: the allocator is what its `deallocate` leaves of it
    /// when it takes the array back.
    fn free_ptr_array(allocator: &mut A, ptrs: Vec<Option<Subarray<T>>>)
        ensures
            exists|taker: &mut A|
                *taker == *old(allocator) && *final(taker) == *final(allocator)
                    && #[trigger] call_ensures(
                    A::deallocate::<Option<Subarray<T>>>,
                    (taker, ptrs),
                    (),
                ),
    {
        allocator.deallocate(ptrs)
    }

    /// Frees a subarray: the allocator is what its `deallocate` leaves of it when it takes
    /// the subarray back.
    fn free_subarray(allocator: &mut A, subarray: Subarray<T>)
        ensures
            exists|taker: &mut A|
                *taker == *old(allocator) && *final(taker) == *final(allocator)
                    && #[trigger] call_ensures(A::deallocate::<Option<T>>, (taker, subarray), ()),
    {
        allocator.deallocate(subarray)
    }

    /// Calculates the size of each sub-array.
    pub fn calculate_subarray_size() -> (size: usize)
        ensures
            size == Self::spec_subarray_size(),
    {
        let elem_size = core::mem::size_of::<T>();
        if elem_size <= 4 {
            64
        } else if elem_size <= 8 {
            32
        } else if elem_size <= 16 {
            16
        } else if elem_size <= 32 {
            8
        } else {
            4
        }
    }

    /// Makes the array of subarrays of an empty deque, with its one subarray, and the cursor
    /// that stands at the first slot of that subarray.
    fn init(allocator: &mut A) -> (parts: (Vec<Option<Subarray<T>>>, CompatIterMut))
        ensures
            parts.0@.len() == INITIAL_PTR_ARRAY_SIZE,
            parts.1.wf(),
            parts.1.subarray_size() == Self::spec_subarray_size(),
            parts.1.current_array == (INITIAL_PTR_ARRAY_SIZE - 1) / 2,
            parts.1.current == parts.1.begin,
            holds(
                parts.0@,
                parts.1.current_array as int,
                parts.1.current_array as int,
                parts.1.current as int,
                parts.1.current as int,
                Self::spec_subarray_size() as int,
            ),
    {
        let size = Self::calculate_subarray_size();

        // allocate the subarrays
        let mut ptr_array = Self::allocate_ptr_array(allocator, INITIAL_PTR_ARRAY_SIZE as usize);

        // we start with an empty deque, so only allocate the first array mid-way through
        let middle = ((INITIAL_PTR_ARRAY_SIZE - 1) / 2) as usize;
        let subarray = Self::allocate_subarray(allocator);
        ptr_array[middle] = Some(subarray);

        // setup the iterators
        let mut cursor = CompatIterMut::default();
        cursor.set_subarray(middle, size);
        cursor.current = cursor.begin;

        proof {
            let ptrs = ptr_array@;
            assert forall|pos: int|
                position(middle as int, 0, size as int) <= pos < position(
                    middle as int,
                    size as int,
                    size as int,
                ) implies (#[trigger] cell(ptrs, pos, size as int)).is_none() by {
                lemma_position_within(pos, middle as int, middle as int, size as int);
                lemma_position_split(pos, size as int);
            }
        }
        (ptr_array, cursor)
    }

    /// Reallocates the pointer array with additional capacity.
    ///
    /// `front` is true if the capacity is needed at the front of the array.
    fn realloc_ptr_array(&mut self, additional_capacity: usize, front: bool)
        requires
            old(self).wf(),
            1 <= additional_capacity <= old(self).map_capacity(),
            Self::spec_move_ptrs(
                old(self).begin_it.current_array as int,
                old(self).end_it.current_array - old(self).begin_it.current_array + 1,
                old(self).ptr_array_size as int,
                additional_capacity as int,
                front,
            ).1 != old(self).ptr_array_size ==> old(self).has_room(),
        ensures
            final(self).wf(),
            final(self)@ == old(self)@,
            front ==> final(self).begin_it.current_array >= additional_capacity,
            !front ==> final(self).end_it.current_array + additional_capacity < final(
                self).ptr_array_size,
            final(self).begin_it.current - final(self).begin_it.begin == old(self).begin_it.current
                - old(self).begin_it.begin,
            final(self).end_it.current - final(self).end_it.begin == old(self).end_it.current
                - old(self).end_it.begin,
            final(self).map_capacity() == old(self).map_capacity() || final(self).map_capacity()
                == 2 * old(self).map_capacity() + 2,
            additional_capacity == 1 ==> (
                final(self).begin_it,
                final(self).end_it,
                final(self).ptr_array_size as int,
            ) == Self::spec_made_room(
                old(self).begin_it,
                old(self).end_it,
                old(self).ptr_array_size as int,
                front,
            ),
    {
        let unused_ptrs_at_front = self.begin_it.current_array;
        let used_ptrs = (self.end_it.current_array - self.begin_it.current_array) + 1;
        let ghost before = self.ptr_array@;

        let new_array_start = Self::move_ptrs(
            &mut self.ptr_array,
            &mut self.ptr_array_size,
            &mut self.allocator,
            unused_ptrs_at_front,
            used_ptrs,
            additional_capacity,
            front,
        );

        proof {
            let count = self.ptr_array_size as int;
            assert(Self::fits(count)) by {
                if count != old(self).ptr_array_size {
                    assert(old(self).has_room());
                    assert(count == 2 * old(self).map_capacity() + 2);
                }
            }
        }

        // update the iterators
        self.reseat(new_array_start, used_ptrs, Ghost(before));
    }

    /// Moves the two cursors along with the subarrays, of which the first now stands at place
    /// `new_array_start`; `before` is the array of subarrays as the cursors knew it.
    fn reseat(
        &mut self,
        new_array_start: usize,
        used_ptrs: usize,
        Ghost(before): Ghost<Seq<Option<Subarray<T>>>>,
    )
        requires
            old(self).ptr_array@.len() == old(self).ptr_array_size,
            Self::fits(old(self).ptr_array_size as int),
            old(self).begin_it.wf(),
            old(self).begin_it.subarray_size() == Self::spec_subarray_size(),
            old(self).end_it.wf(),
            old(self).end_it.subarray_size() == Self::spec_subarray_size(),
            used_ptrs == old(self).end_it.current_array - old(self).begin_it.current_array + 1,
            new_array_start + used_ptrs <= old(self).ptr_array@.len(),
            holds(
                before,
                old(self).begin_it.current_array as int,
                old(self).end_it.current_array as int,
                old(self).begin_it.current as int,
                old(self).end_it.current as int,
                Self::spec_subarray_size() as int,
            ),
            moved(
                before,
                old(self).ptr_array@,
                old(self).begin_it.current_array as int,
                old(self).end_it.current_array as int,
                new_array_start - old(self).begin_it.current_array,
            ),
        ensures
            final(self).wf(),
            final(self)@ == elements(
                before,
                old(self).begin_it.current as int,
                old(self).end_it.current as int,
                Self::spec_subarray_size() as int,
            ),
            final(self).ptr_array_size == old(self).ptr_array_size,
            final(self).begin_it == Self::at_subarray(old(self).begin_it, new_array_start as int),
            final(self).end_it == Self::at_subarray(
                old(self).end_it,
                new_array_start + used_ptrs - 1,
            ),
    {
        let size = Self::calculate_subarray_size();
        let begin_offset = self.begin_it.current - self.begin_it.begin;
        let end_offset = self.end_it.current - self.end_it.begin;
        proof {
            let first = self.begin_it.current_array as int;
            let last = self.end_it.current_array as int;
            let delta = new_array_start as int - first;
            let count = self.ptr_array_size as int;
            lemma_moved_holds(
                before,
                self.ptr_array@,
                first,
                last,
                self.begin_it.current as int,
                self.end_it.current as int,
                delta,
                size as int,
            );
            lemma_position_step(first + delta, count, size as int);
            lemma_position_step(last + delta, count, size as int);
        }
        self.begin_it.set_subarray(new_array_start, size);
        self.begin_it.current = self.begin_it.begin + begin_offset;
        self.end_it.set_subarray((new_array_start + used_ptrs) - 1, size);
        self.end_it.current = self.end_it.begin + end_offset;
    }

    /// Makes room for `additional_capacity` more subarrays at one end of the `used_ptrs`
    /// subarrays that start at place `current_array_start`, and returns the place that they
    /// start at afterwards. Where the other end has the room to spare, the subarrays slide
    /// towards it; else they move to a new array of more than twice the places.
    fn move_ptrs(
        ptrs: &mut Vec<Option<Subarray<T>>>,
        ptr_array_size: &mut u32,
        allocator: &mut A,
        current_array_start: usize,
        used_ptrs: usize,
        additional_capacity: usize,
        front: bool,
    ) -> (new_array_start: usize)
        requires
            old(ptrs)@.len() == *old(ptr_array_size),
            used_ptrs >= 1,
            current_array_start + used_ptrs <= old(ptrs)@.len(),
            1 <= additional_capacity <= *old(ptr_array_size),
            Self::spec_move_ptrs(
                current_array_start as int,
                used_ptrs as int,
                *old(ptr_array_size) as int,
                additional_capacity as int,
                front,
            ).1 != *old(ptr_array_size) ==> 2 * *old(ptr_array_size) + 2 <= u32::MAX,
            forall|i: int|
                0 <= i < old(ptrs)@.len() && !(current_array_start <= i < current_array_start
                    + used_ptrs) ==> (#[trigger] old(ptrs)@[i]).is_none(),
        ensures
            final(ptrs)@.len() == *final(ptr_array_size),
            *final(ptr_array_size) == *old(ptr_array_size) || *final(ptr_array_size) == 2 * *old(
                ptr_array_size) + 2,
            moved(
                old(ptrs)@,
                final(ptrs)@,
                current_array_start as int,
                current_array_start + used_ptrs - 1,
                new_array_start - current_array_start,
            ),
            new_array_start + used_ptrs <= final(ptrs)@.len(),
            (new_array_start as int, *final(ptr_array_size) as int) == Self::spec_move_ptrs(
                current_array_start as int,
                used_ptrs as int,
                *old(ptr_array_size) as int,
                additional_capacity as int,
                front,
            ),
            front ==> new_array_start >= additional_capacity,
            !front ==> new_array_start + used_ptrs - 1 + additional_capacity < final(ptrs)@.len(),
    {
        let mut additional_capacity = additional_capacity;
        let unused_ptrs_at_front = current_array_start;
        let unused_ptrs_at_back = (*ptr_array_size as usize - unused_ptrs_at_front) - used_ptrs;
        let new_array_start;

        // see if we can make use of extra space without re-allocating
        if !front && additional_capacity <= unused_ptrs_at_front {
            // if there's a lot of extra space then they are likely using the deque with heavy use
            // of `push_back` (like `queue`), so allocate them even more space
            if additional_capacity < (unused_ptrs_at_front + 1) / 2 {
                additional_capacity = (unused_ptrs_at_front + 1) / 2;
            }
            new_array_start = unused_ptrs_at_front - additional_capacity;

            Self::slide_down(ptrs, current_array_start, new_array_start, used_ptrs);
        } else if front && additional_capacity <= unused_ptrs_at_back {
            // if there's a lot of extra space then they are likely using the deque with heavy use
            // of `push_front`, so allocate them even more space
            if additional_capacity < unused_ptrs_at_back / 2 {
                additional_capacity = unused_ptrs_at_back / 2;
            }
            new_array_start = current_array_start + additional_capacity;

            Self::slide_up(ptrs, current_array_start, new_array_start, used_ptrs);
        } else {
            let wanted = if *ptr_array_size > additional_capacity as u32 {
                *ptr_array_size
            } else {
                additional_capacity as u32
            };
            // allocate at least double + 2 pointers
            let new_ptr_array_size = *ptr_array_size + wanted + 2;
            let mut new_ptr_array = Self::allocate_ptr_array(allocator, new_ptr_array_size as usize);

            // copy the old pointers over
            new_array_start = unused_ptrs_at_front + if front {
                additional_capacity
            } else {
                0
            };
            Self::transfer(ptrs, &mut new_ptr_array, current_array_start, new_array_start, used_ptrs);

            core::mem::swap(ptrs, &mut new_ptr_array);
            Self::free_ptr_array(allocator, new_ptr_array);
            *ptr_array_size = new_ptr_array_size;
        }
        new_array_start
    }

    /// Moves the `count` subarrays from place `from` on down to place `to` on.
    fn slide_down(ptrs: &mut Vec<Option<Subarray<T>>>, from: usize, to: usize, count: usize)
        requires
            to < from,
            count >= 1,
            from + count <= old(ptrs)@.len(),
            forall|i: int|
                0 <= i < old(ptrs)@.len() && !(from <= i < from + count) ==> (#[trigger] old(ptrs)@[i]).is_none(),
        ensures
            final(ptrs)@.len() == old(ptrs)@.len(),
            moved(old(ptrs)@, final(ptrs)@, from as int, from + count - 1, to - from),
    {
        let len = ptrs.len();
        let mut k: usize = 0;
        while k < count
            invariant
                k <= count,
                to < from,
                from + count <= ptrs@.len() == len,
                ptrs@.len() == old(ptrs)@.len(),
                forall|i: int|
                    0 <= i < ptrs@.len() ==> #[trigger] ptrs@[i] == if to <= i < to + k {
                        old(ptrs)@[i - to + from]
                    } else if from + k <= i < from + count {
                        old(ptrs)@[i]
                    } else {
                        None
                    },
            decreases count - k,
        {
            let subarray = ptrs[from + k].take();
            ptrs[to + k] = subarray;
            k = k + 1;
        }
    }

    /// Moves the `count` subarrays from place `from` on up to place `to` on.
    fn slide_up(ptrs: &mut Vec<Option<Subarray<T>>>, from: usize, to: usize, count: usize)
        requires
            from < to,
            count >= 1,
            to + count <= old(ptrs)@.len(),
            forall|i: int|
                0 <= i < old(ptrs)@.len() && !(from <= i < from + count) ==> (#[trigger] old(ptrs)@[i]).is_none(),
        ensures
            final(ptrs)@.len() == old(ptrs)@.len(),
            moved(old(ptrs)@, final(ptrs)@, from as int, from + count - 1, to - from),
    {
        let len = ptrs.len();
        let mut k: usize = count;
        while k > 0
            invariant
                k <= count,
                from < to,
                to + count <= ptrs@.len() == len,
                ptrs@.len() == old(ptrs)@.len(),
                forall|i: int|
                    0 <= i < ptrs@.len() ==> #[trigger] ptrs@[i] == if to + k <= i < to + count {
                        old(ptrs)@[i - to + from]
                    } else if from <= i < from + k {
                        old(ptrs)@[i]
                    } else {
                        None
                    },
            decreases k,
        {
            k = k - 1;
            let subarray = ptrs[from + k].take();
            ptrs[to + k] = subarray;
        }
    }

    /// Moves the `count` subarrays from place `from` on of `src` to place `to` on of `dst`.
    fn transfer(
        src: &mut Vec<Option<Subarray<T>>>,
        dst: &mut Vec<Option<Subarray<T>>>,
        from: usize,
        to: usize,
        count: usize,
    )
        requires
            count >= 1,
            from + count <= old(src)@.len(),
            to + count <= old(dst)@.len(),
            forall|i: int| 0 <= i < old(dst)@.len() ==> (#[trigger] old(dst)@[i]).is_none(),
        ensures
            final(src)@.len() == old(src)@.len(),
            final(dst)@.len() == old(dst)@.len(),
            moved(old(src)@, final(dst)@, from as int, from + count - 1, to - from),
    {
        let src_len = src.len();
        let dst_len = dst.len();
        let mut k: usize = 0;
        while k < count
            invariant
                k <= count,
                from + count <= src@.len() == src_len,
                to + count <= dst@.len() == dst_len,
                src@.len() == old(src)@.len(),
                dst@.len() == old(dst)@.len(),
                forall|i: int| from + k <= i < from + count ==> #[trigger] src@[i] == old(src)@[i],
                forall|i: int|
                    0 <= i < dst@.len() ==> #[trigger] dst@[i] == if to <= i < to + k {
                        old(src)@[i - to + from]
                    } else {
                        None
                    },
            decreases count - k,
        {
            let subarray = src[from + k].take();
            dst[to + k] = subarray;
            k = k + 1;
        }
    }
}

} // verus!
