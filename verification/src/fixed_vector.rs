use crate::allocator::{Allocator, DefaultAllocator};
use crate::vector::Vector;
use vstd::prelude::*;

verus! {

/// Fixed vector with the default allocator.
pub type DefaultFixedVector<T, const NODE_COUNT: usize> = FixedVector<
    T,
    NODE_COUNT,
    DefaultAllocator,
>;

/// A vector with storage of its own for `NODE_COUNT` elements. It takes memory from its
/// allocator when it outgrows that storage: it has overflowed then.
pub struct FixedVector<T, const NODE_COUNT: usize, A: Allocator> {
    base_vec: Vector<T, A>,
}

impl<T, const NODE_COUNT: usize, A: Allocator> View for FixedVector<T, NODE_COUNT, A> {
    type V = Seq<T>;

    /// The elements in their order.
    closed spec fn view(&self) -> Seq<T> {
        self.base_vec@
    }
}

impl<T, const NODE_COUNT: usize, A: Allocator> FixedVector<T, NODE_COUNT, A> {
    /// The vector of the fixed vector, as a value.
    pub closed spec fn base(&self) -> Vector<T, A> {
        self.base_vec
    }

    /// The vector of a fixed vector holds its elements.
    pub proof fn lemma_base(&self)
        ensures
            self.base()@ == self@,
    {
    }

    /// Create a new fixed_vector with the given overflow allocator.
    pub fn new_in(overflow_allocator: A) -> (vector: Self)
        ensures
            vector.base().wf(),
            vector@ == Seq::<T>::empty(),
            vector.base().spec_capacity() == NODE_COUNT,
            vector.base().spec_in_place(),
    {
        Self { base_vec: Vector::in_place(NODE_COUNT, overflow_allocator) }
    }

    /// Returns the max fixed size, which is the user-supplied NodeCount parameter.
    pub fn max_size(&self) -> (size: usize)
        ensures
            size == NODE_COUNT,
    {
        NODE_COUNT
    }

    /// Returns true if the allocations spilled over into the overflow allocator.
    pub fn has_overflowed(&self) -> (overflowed: bool)
        ensures
            overflowed == !self.base().spec_in_place(),
    {
        !self.base_vec.is_in_place()
    }

    /// The vector of the fixed vector.
    pub fn as_vector(&self) -> (vector: &Vector<T, A>)
        ensures
            *vector == self.base(),
    {
        &self.base_vec
    }

    /// The vector of the fixed vector, open to change.
    pub fn as_vector_mut(&mut self) -> (vector: &mut Vector<T, A>)
        ensures
            *vector == old(self).base(),
            final(self).base() == *final(vector),
    {
        &mut self.base_vec
    }
}

impl<T, const NODE_COUNT: usize, A: Allocator + Default> FixedVector<T, NODE_COUNT, A> {
    /// Create a new fixed_vector.
    pub fn new() -> (vector: Self)
        ensures
            vector.base().wf(),
            vector@ == Seq::<T>::empty(),
            vector.base().spec_capacity() == NODE_COUNT,
            vector.base().spec_in_place(),
    {
        Self::new_in(A::default())
    }
}

impl<T, const NODE_COUNT: usize, A: Allocator> core::ops::Deref for FixedVector<T, NODE_COUNT, A> {
    type Target = Vector<T, A>;

    fn deref(&self) -> (vector: &Vector<T, A>)
        ensures
            *vector == self.base(),
    {
        &self.base_vec
    }
}

} // verus!
