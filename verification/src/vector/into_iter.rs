use crate::allocator::Allocator;
use vstd::prelude::*;

verus! {

/// Implements a consuming iterator: it takes the elements out of the block of a vector,
/// from either end.
pub struct IntoIter<T, A: Allocator> {
    buf: Vec<T>,
    capacity: usize,
    allocator: A,
}

impl<T, A: Allocator> View for IntoIter<T, A> {
    type V = Seq<T>;

    /// The elements that are still to come, from the front to the back.
    closed spec fn view(&self) -> Seq<T> {
        self.buf@
    }
}

impl<T, A: Allocator> IntoIter<T, A> {
    /// The elements fit the capacity.
    pub closed spec fn wf(&self) -> bool {
        self.buf@.len() <= self.capacity
    }

    /// The capacity of the vector that the iterator came from.
    pub closed spec fn spec_capacity(&self) -> usize {
        self.capacity
    }

    /// Makes the iterator over the block `buf` of a vector.
    pub(crate) fn new(buf: Vec<T>, capacity: usize, allocator: A) -> (iter: Self)
        requires
            buf@.len() <= capacity,
        ensures
            iter.wf(),
            iter@ == buf@,
            iter.spec_capacity() == capacity,
    {
        Self { buf, capacity, allocator }
    }

    /// Returns the remaining elements as a slice.
    pub fn as_slice(&self) -> (slice: &[T])
        ensures
            slice@ == self@,
    {
        self.buf.as_slice()
    }

    /// Returns the total capacity of the vector.
    pub fn capacity(&self) -> (capacity: usize)
        ensures
            capacity == self.spec_capacity(),
    {
        self.capacity
    }

    /// Returns true if there are no elements in the vector.
    pub fn is_empty(&self) -> (empty: bool)
        ensures
            empty == (self@.len() == 0),
    {
        self.len() == 0
    }

    /// Returns the length of the remaining slice.
    pub fn len(&self) -> (len: usize)
        ensures
            len == self@.len(),
    {
        self.buf.len()
    }

    /// Takes out the next element from the front, or returns `None` when none is left. The
    /// elements behind it move up by one place.
    pub fn next(&mut self) -> (elem: Option<T>)
        requires
            old(self).wf(),
        ensures
            final(self).wf(),
            final(self).spec_capacity() == old(self).spec_capacity(),
            old(self)@.len() == 0 ==> elem.is_none() && final(self)@ == old(self)@,
            old(self)@.len() > 0 ==> elem == Some(old(self)@.first()) && final(self)@ == old(
                self)@.drop_first(),
    {
        // if we have remaining elements
        if self.is_empty() {
            None
        } else {
            let next_val = self.buf.remove(0);
            assert(self@ =~= old(self)@.drop_first());
            Some(next_val)
        }
    }

    /// Takes out the next element from the back, or returns `None` when none is left.
    pub fn next_back(&mut self) -> (elem: Option<T>)
        requires
            old(self).wf(),
        ensures
            final(self).wf(),
            final(self).spec_capacity() == old(self).spec_capacity(),
            old(self)@.len() == 0 ==> elem.is_none() && final(self)@ == old(self)@,
            old(self)@.len() > 0 ==> elem == Some(old(self)@.last()) && final(self)@ == old(
                self)@.drop_last(),
    {
        // if we have remaining elements
        if self.is_empty() {
            None
        } else {
            self.buf.pop()
        }
    }
}

} // verus!
