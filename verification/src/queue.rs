use crate::allocator::{Allocator, DefaultAllocator};
use crate::deque::iter::{IntoIter, Iter, IterMut};
use crate::deque::Deque;
use vstd::prelude::*;

verus! {

/// Queue with the default allocator.
pub type DefaultQueue<V> = Queue<V, DefaultAllocator>;

/// A first-in, first-out data structure backed by a Deque.
pub struct Queue<T, A: Allocator> {
    deque: Deque<T, A>,
}

impl<T, A: Allocator> View for Queue<T, A> {
    type V = Seq<T>;

    /// The elements from the one that leaves next to the one that came last.
    closed spec fn view(&self) -> Seq<T> {
        self.deque@
    }
}

impl<T, A: Allocator + Default> Queue<T, A> {
    /// Creates a new empty queue.
    pub fn new() -> (queue: Self)
        ensures
            queue.wf(),
            queue@ == Seq::<T>::empty(),
            queue.spec_has_room(),
    {
        let deque = Deque::new();
        Self { deque }
    }
}

impl<T, A: Allocator + Default> Default for Queue<T, A> {
    fn default() -> (queue: Self)
        ensures
            queue.wf(),
            queue@ == Seq::<T>::empty(),
            queue.spec_has_room(),
    {
        Self::new()
    }
}

impl<T, A: Allocator> Queue<T, A> {
    /// The deque of the queue is in order.
    pub closed spec fn wf(&self) -> bool {
        self.deque.wf()
    }

    /// The deque of the queue, as a value.
    pub closed spec fn inner(&self) -> Deque<T, A> {
        self.deque
    }

    /// The deque of the queue could make its array of subarrays anew for more subarrays.
    pub open spec fn spec_has_room(&self) -> bool {
        self.inner().spec_has_room()
    }

    /// Returns true if an element can be pushed: the array of subarrays of the deque stays
    /// as it is, or could be made anew.
    pub fn can_push(&self) -> (can: bool)
        requires
            self.wf(),
        ensures
            can == (self.inner().grows_at_back() ==> self.spec_has_room()),
    {
        self.deque.can_push_back()
    }

    /// The deque of a queue holds the elements of the queue, and is in order when the queue
    /// is.
    pub proof fn lemma_inner(&self)
        ensures
            self.inner()@ == self@,
            self.wf() == self.inner().wf(),
    {
    }

    /// Returns true if the deque of the queue could make its array of subarrays anew for
    /// more subarrays: a push asks for that.
    #[verifier::when_used_as_spec(spec_has_room)]
    pub fn has_room(&self) -> (room: bool)
        ensures
            room == self.spec_has_room(),
    {
        self.deque.has_room()
    }

    /// Turns the `Queue` into its inner `Deque`.
    pub fn into_inner(self) -> (deque: Deque<T, A>)
        ensures
            deque == self.inner(),
    {
        self.deque
    }

    /// Returns true if the queue contains no elements.
    pub fn is_empty(&self) -> (empty: bool)
        requires
            self.wf(),
        ensures
            empty == (self@.len() == 0),
    {
        self.deque.is_empty()
    }

    /// Produces an iterator over all of the elements in the queue.
    pub fn iter(&self) -> (iter: Iter<'_, T>)
        requires
            self.wf(),
        ensures
            iter.wf(),
            iter@ == self@,
    {
        self.deque.iter()
    }

    /// Produces a mutable iterator over all of the elements in the queue.
    pub fn iter_mut(&mut self) -> (iter: IterMut<'_, T, A>)
        requires
            old(self).wf(),
        ensures
            iter.wf(),
            iter@ == old(self)@,
            iter.front_index() == 0,
            iter.back_index() == old(self)@.len(),
            *iter.deque == old(self).inner(),
            final(self).inner() == *final(iter.deque),
    {
        self.deque.iter_mut()
    }

    /// Turns the queue into an iterator that takes its elements out, the oldest first.
    pub fn into_iter(self) -> (iter: IntoIter<T, A>)
        requires
            self.wf(),
        ensures
            iter.wf(),
            iter@ == self@,
    {
        self.into_inner().into_iter()
    }

    /// Returns the number of elements in the queue.
    pub fn len(&self) -> (len: usize)
        requires
            self.wf(),
        ensures
            len == self@.len(),
    {
        self.deque.len()
    }

    /// Creates a new queue inside an allocator.
    pub fn new_in(allocator: A) -> (queue: Self)
        ensures
            queue.wf(),
            queue@ == Seq::<T>::empty(),
            queue.spec_has_room(),
    {
        let deque = Deque::new_in(allocator);
        Self { deque }
    }

    /// Pops an element from the queue, returning the element on top if there was one.
    pub fn pop(&mut self) -> (elem: Option<T>)
        requires
            old(self).wf(),
        ensures
            final(self).wf(),
            final(self).spec_has_room() == old(self).spec_has_room(),
            old(self)@.len() == 0 ==> elem.is_none() && final(self)@ == old(self)@,
            old(self)@.len() > 0 ==> elem == Some(old(self)@.first()) && final(self)@ == old(
                self)@.drop_first(),
    {
        self.deque.pop_front()
    }

    /// Pushes an element to the queue.
    pub fn push(&mut self, elem: T)
        requires
            old(self).wf(),
            old(self).inner().grows_at_back() ==> old(self).has_room(),
        ensures
            final(self).wf(),
            final(self)@ == old(self)@.push(elem),
            final(self).inner().map_capacity() == old(self).inner().map_capacity() || final(
                self).inner().map_capacity() == 2 * old(self).inner().map_capacity() + 2,
    {
        self.deque.push_back(elem);
    }

    /// Peeks the top element in the queue without popping it.
    pub fn top(&self) -> (elem: Option<&T>)
        requires
            self.wf(),
        ensures
            self@.len() == 0 ==> elem.is_none(),
            self@.len() > 0 ==> elem == Some(&self@.first()),
    {
        self.deque.front()
    }
}

} // verus!
