use crate::allocator::{Allocator, DefaultAllocator};
use crate::vector::into_iter::IntoIter;
use vstd::prelude::*;

pub mod into_iter;

verus! {

/// Vector with the default allocator.
pub type DefaultVector<V> = Vector<V, DefaultAllocator>;

/// `Vector` is synonymous to `Vec`, a dynamically-resizing array.
///
/// It keeps its elements in one block of the allocator. The capacity is the size that the
/// vector asked the block to have: it grows by what `reserve` is asked for, and doubles when
/// a full vector takes one more element.
pub struct Vector<T, A: Allocator> {
    buf: Vec<T>,
    capacity: usize,
    allocator: A,
    // the block is storage of the vector's own, which the allocator never handed out
    in_place: bool,
}

impl<T, A: Allocator> View for Vector<T, A> {
    type V = Seq<T>;

    /// The elements in their order.
    closed spec fn view(&self) -> Seq<T> {
        self.buf@
    }
}

impl<T, A: Allocator + Default> Vector<T, A> {
    /// Creates a new vector.
    pub fn new() -> (vector: Self)
        ensures
            vector.wf(),
            vector@ == Seq::<T>::empty(),
            vector.spec_capacity() == 0,
    {
        Self::new_in(A::default())
    }

    /// Creates a new vector with a capacity allocated.
    pub fn with_capacity(capacity: usize) -> (vector: Self)
        ensures
            vector.wf(),
            vector@ == Seq::<T>::empty(),
            vector.spec_capacity() == capacity,
    {
        let mut v = Vector::new();
        v.reserve(capacity);
        v
    }
}

impl<T, A: Allocator + Default> Default for Vector<T, A> {
    fn default() -> (vector: Self)
        ensures
            vector.wf(),
            vector@ == Seq::<T>::empty(),
            vector.spec_capacity() == 0,
    {
        Vector::new_in(A::default())
    }
}

impl<T, A: Allocator> Vector<T, A> {
    /// The elements fit the capacity.
    pub closed spec fn wf(&self) -> bool {
        self.buf@.len() <= self.capacity
    }

    /// The capacity of the vector.
    pub closed spec fn spec_capacity(&self) -> usize {
        self.capacity
    }

    /// The vector keeps its elements in storage of its own, which no allocator handed out.
    pub closed spec fn spec_in_place(&self) -> bool {
        self.in_place
    }

    /// The capacity that a full vector of capacity `old_capacity` grows to.
    pub open spec fn spec_grow_capacity(old_capacity: usize) -> int {
        if old_capacity == 0 {
            1
        } else {
            old_capacity * 2
        }
    }

    /// The capacity of the vector after it took one more element.
    pub open spec fn grown(&self) -> int {
        if self@.len() == self.spec_capacity() {
            Self::spec_grow_capacity(self.spec_capacity())
        } else {
            self.spec_capacity() as int
        }
    }

    /// A vector holds no more elements than its capacity.
    pub proof fn lemma_len_fits(&self)
        requires
            self.wf(),
        ensures
            self@.len() <= self.spec_capacity(),
    {
    }

    /// Creates a vector with a custom allocator, with storage of its own for `capacity`
    /// elements. The allocator comes in when the vector outgrows that storage.
    pub fn in_place(capacity: usize, allocator: A) -> (vector: Self)
        ensures
            vector.wf(),
            vector@ == Seq::<T>::empty(),
            vector.spec_capacity() == capacity,
            vector.spec_in_place(),
    {
        Self { buf: Vec::with_capacity(capacity), capacity, allocator, in_place: true }
    }

    /// Returns true if the vector keeps its elements in storage of its own.
    pub fn is_in_place(&self) -> (in_place: bool)
        ensures
            in_place == self.spec_in_place(),
    {
        self.in_place
    }

    /// Creates a vector with a custom allocator.
    pub fn new_in(allocator: A) -> (vector: Self)
        ensures
            vector.wf(),
            vector@ == Seq::<T>::empty(),
            vector.spec_capacity() == 0,
            !vector.spec_in_place(),
    {
        Self { buf: Vec::new(), capacity: 0, allocator, in_place: false }
    }

    /// Returns the vector as a slice.
    pub fn as_slice(&self) -> (slice: &[T])
        ensures
            slice@ == self@,
    {
        self.buf.as_slice()
    }

    /// Returns the element at `index`, or `None` if there is none.
    pub fn get(&self, index: usize) -> (elem: Option<&T>)
        ensures
            index < self@.len() ==> elem == Some(&self@[index as int]),
            index >= self@.len() ==> elem.is_none(),
    {
        if index < self.buf.len() {
            Some(&self.buf[index])
        } else {
            None
        }
    }

    /// Returns the element at `index` open to change, or `None` if there is none.
    pub fn get_mut(&mut self, index: usize) -> (elem: Option<&mut T>)
        requires
            old(self).wf(),
        ensures
            final(self).wf(),
            final(self).spec_capacity() == old(self).spec_capacity(),
            match elem {
                None => index >= old(self)@.len() && final(self)@ == old(self)@,
                Some(value) => {
                    &&& index < old(self)@.len()
                    &&& *value == old(self)@[index as int]
                    &&& final(self)@ == old(self)@.update(index as int, *final(value))
                },
            },
    {
        if index < self.buf.len() {
            Some(&mut self.buf[index])
        } else {
            None
        }
    }

    /// Returns the element at `index` open to change.
    pub fn at_mut(&mut self, index: usize) -> (elem: &mut T)
        requires
            old(self).wf(),
            index < old(self)@.len(),
        ensures
            final(self).wf(),
            final(self).spec_capacity() == old(self).spec_capacity(),
            *elem == old(self)@[index as int],
            final(self)@ == old(self)@.update(index as int, *final(elem)),
    {
        &mut self.buf[index]
    }

    /// Returns the capacity of the vector.
    pub fn capacity(&self) -> (capacity: usize)
        ensures
            capacity == self.spec_capacity(),
    {
        self.capacity
    }

    /// Clears all of the contents, and gives the block of the vector back.
    pub fn clear(&mut self)
        ensures
            final(self).wf(),
            final(self)@ == Seq::<T>::empty(),
            final(self).spec_capacity() == 0,
            !final(self).spec_in_place(),
    {
        if self.capacity > 0 && !self.in_place {
            let mut block = Vec::new();
            core::mem::swap(&mut self.buf, &mut block);
            // drop all elements
            block.clear();
            // free the array
            self.allocator.deallocate(block);
        } else {
            self.buf.clear();
        }

        // reset our contents
        self.capacity = 0;
        self.in_place = false;
    }

    /// Returns true if the vector is empty.
    pub fn is_empty(&self) -> (empty: bool)
        ensures
            empty == (self@.len() == 0),
    {
        self.len() == 0
    }

    /// Returns true if the array is full to the capacity.
    pub fn is_full(&self) -> (full: bool)
        ensures
            full == (self@.len() == self.spec_capacity()),
    {
        self.len() == self.capacity()
    }

    /// Returns the length of the vector.
    pub fn len(&self) -> (len: usize)
        ensures
            len == self@.len(),
    {
        self.buf.len()
    }

    /// Pushes a new element into the vector.
    pub fn push(&mut self, elem: T)
        requires
            old(self).wf(),
            old(self).grown() <= usize::MAX,
        ensures
            final(self).wf(),
            final(self)@ == old(self)@.push(elem),
            final(self).spec_capacity() == old(self).grown(),
            final(self).spec_in_place() == (old(self).spec_in_place() && old(self)@.len() < old(
                self).spec_capacity()),
    {
        // see if we should expand
        if self.is_full() {
            self.grow();
        }
        // add the new element and increment size
        self.buf.push(elem);
    }

    /// Pops an element off of the back of the array.
    pub fn pop(&mut self) -> (elem: Option<T>)
        requires
            old(self).wf(),
        ensures
            final(self).wf(),
            final(self).spec_capacity() == old(self).spec_capacity(),
            old(self)@.len() == 0 ==> elem.is_none() && final(self)@ == old(self)@,
            old(self)@.len() > 0 ==> elem == Some(old(self)@.last()) && final(self)@ == old(
                self)@.drop_last(),
    {
        // see if we have any elements to pop
        if self.is_empty() {
            None
        } else {
            self.buf.pop()
        }
    }

    /// Inserts an element into the array at an index.
    /// `index` must be less than or equal to `size`.
    pub fn insert(&mut self, index: usize, elem: T)
        requires
            old(self).wf(),
            index <= old(self)@.len(),
            old(self).grown() <= usize::MAX,
        ensures
            final(self).wf(),
            final(self)@ == old(self)@.insert(index as int, elem),
            final(self).spec_capacity() == old(self).grown(),
            final(self).spec_in_place() == (old(self).spec_in_place() && old(self)@.len() < old(
                self).spec_capacity()),
    {
        // see if we need to expand the array
        if self.is_full() {
            self.grow();
        }
        // shift all elements to the right, and move the element
        self.buf.insert(index, elem);
    }

    /// Remove the element at the index and return it.
    pub fn remove(&mut self, index: usize) -> (elem: Option<T>)
        requires
            old(self).wf(),
        ensures
            final(self).wf(),
            final(self).spec_capacity() == old(self).spec_capacity(),
            index >= old(self)@.len() ==> elem.is_none() && final(self)@ == old(self)@,
            index < old(self)@.len() ==> elem == Some(old(self)@[index as int]) && final(self)@
                == old(self)@.remove(index as int),
    {
        if index >= self.len() {
            None
        } else {
            Some(self.buf.remove(index))
        }
    }

    /// Reserves space for elements within the vector: the capacity grows by `additional`.
    pub fn reserve(&mut self, additional: usize)
        requires
            old(self).wf(),
            old(self).spec_capacity() + additional <= usize::MAX,
        ensures
            final(self).wf(),
            final(self)@ == old(self)@,
            final(self).spec_capacity() == old(self).spec_capacity() + additional,
            final(self).spec_in_place() == (old(self).spec_in_place() && additional == 0),
    {
        if additional == 0 {
            return ;
        }
        // allocate a new bit of memory
        let new_capacity = self.capacity + additional;
        // allocate the new buffer
        let mut new_buf = self.allocator.allocate::<T>(new_capacity);
        new_buf.clear();
        // copy from the old array
        new_buf.append(&mut self.buf);
        core::mem::swap(&mut self.buf, &mut new_buf);
        if self.capacity > 0 && !self.in_place {
            // deallocate the old memory
            self.allocator.deallocate(new_buf);
        }
        // store the new capacity
        self.capacity = new_capacity;
        self.in_place = false;
        assert(self@ =~= old(self)@);
    }

    /// Calculates the growing array capacity given its old capacity.
    pub fn calculate_grow_capacity(old_capacity: usize) -> (capacity: usize)
        requires
            Self::spec_grow_capacity(old_capacity) <= usize::MAX,
        ensures
            capacity == Self::spec_grow_capacity(old_capacity),
    {
        if old_capacity == 0 {
            1
        } else {
            old_capacity * 2
        }
    }

    /// Grows the array to fit additional elements.
    pub fn grow(&mut self)
        requires
            old(self).wf(),
            Self::spec_grow_capacity(old(self).spec_capacity()) <= usize::MAX,
        ensures
            final(self).wf(),
            final(self)@ == old(self)@,
            final(self).spec_capacity() == Self::spec_grow_capacity(old(self).spec_capacity()),
            !final(self).spec_in_place(),
    {
        let new_capacity = Self::calculate_grow_capacity(self.capacity());
        // reserve the additional needed capacity
        self.reserve(new_capacity - self.capacity());
    }

    /// Turns the vector into an iterator that takes its elements out.
    pub fn into_iter(self) -> (iter: IntoIter<T, A>)
        requires
            self.wf(),
        ensures
            iter.wf(),
            iter@ == self@,
            iter.spec_capacity() == self.spec_capacity(),
    {
        IntoIter::new(self.buf, self.capacity, self.allocator)
    }
}

impl<T: Clone, A: Allocator> Vector<T, A> {
    /// Every element of `copy` is a clone of the element of `source` in its place.
    pub open spec fn clones(source: Seq<T>, copy: Seq<T>) -> bool {
        &&& copy.len() == source.len()
        &&& forall|i: int| 0 <= i < source.len() ==> cloned::<T>(source[i], #[trigger] copy[i])
    }

    /// Creates a vector from a buffer with a custom allocator.
    pub fn from_in(buf: &[T], allocator: A) -> (vector: Self)
        ensures
            vector.wf(),
            Self::clones(buf@, vector@),
            vector.spec_capacity() == buf@.len(),
    {
        let mut this = Self::new_in(allocator);
        this.assign(buf);
        this
    }

    /// Append a buffer of elements to the vector.
    pub fn append(&mut self, buf: &[T])
        requires
            old(self).wf(),
            old(self)@.len() + buf@.len() <= usize::MAX,
        ensures
            final(self).wf(),
            final(self)@.len() == old(self)@.len() + buf@.len(),
            final(self)@.take(old(self)@.len() as int) == old(self)@,
            Self::clones(buf@, final(self)@.skip(old(self)@.len() as int)),
            final(self).spec_capacity() == if old(self)@.len() + buf@.len() > old(
                self).spec_capacity() {
                (old(self)@.len() + buf@.len()) as int
            } else {
                old(self).spec_capacity() as int
            },
    {
        let old_len = self.len();
        let new_len = old_len + buf.len();
        if new_len > self.capacity() {
            self.reserve(new_len - self.capacity());
        }

        // copy in place
        self.buf.extend_from_slice(buf);
        proof {
            assert(self@.take(old_len as int) =~= old(self)@);
            assert forall|i: int| 0 <= i < buf@.len() implies cloned::<T>(
                buf@[i],
                #[trigger] self@.skip(old_len as int)[i],
            ) by {
                assert(self@.skip(old_len as int)[i] == self@[old_len + i]);
            }
        }
    }

    /// Assigns a vector to a slice.
    pub fn assign(&mut self, buf: &[T])
        requires
            old(self).wf(),
        ensures
            final(self).wf(),
            Self::clones(buf@, final(self)@),
            final(self).spec_capacity() == if buf@.len() > old(self).spec_capacity() {
                buf@.len() as int
            } else {
                old(self).spec_capacity() as int
            },
    {
        if buf.len() > self.capacity() {
            self.reserve(buf.len() - self.capacity());
        }
        self.buf.clear();
        self.buf.extend_from_slice(buf);
    }
}

/// Moves the elements of an array into a vector of the standard library.
///
/// Wraps `Vec::from` for an array: the vector holds the elements of the array in their
/// order.
#[verifier::external_body]
pub(crate) fn array_into_vec<T, const N: usize>(buf: [T; N]) -> (values: Vec<T>)
    ensures
        values@ == buf@,
{
    Vec::from(buf)
}

impl<T: Clone, A: Allocator + Default> From<&[T]> for Vector<T, A> {
    fn from(buf: &[T]) -> (vector: Self)
        ensures
            vector.wf(),
            Self::clones(buf@, vector@),
            vector.spec_capacity() == buf@.len(),
    {
        let mut v = Vector::new();
        v.assign(buf);
        v
    }
}

impl<T: Clone, A: Allocator + Default> vstd::std_specs::convert::FromSpecImpl<&[T]> for Vector<T, A> {
    open spec fn obeys_from_spec() -> bool {
        false
    }

    open spec fn from_spec(buf: &[T]) -> Self {
        arbitrary()
    }
}

impl<T: Clone, A: Allocator + Clone> Clone for Vector<T, A> {
    fn clone(&self) -> (vector: Self)
        ensures
            vector.wf(),
            Self::clones(self@, vector@),
            vector.spec_capacity() == self@.len(),
    {
        Self::from_in(self.as_slice(), self.allocator.clone())
    }
}

impl<T, A: Allocator> core::ops::Deref for Vector<T, A> {
    type Target = [T];

    fn deref(&self) -> (slice: &[T])
        ensures
            slice@ == self@,
    {
        self.as_slice()
    }
}

impl<T: Clone, const N: usize, A: Allocator + Default> From<&[T; N]> for Vector<T, A> {
    fn from(buf: &[T; N]) -> (vector: Self)
        ensures
            vector.wf(),
            Self::clones(buf@, vector@),
            vector.spec_capacity() == N,
    {
        let mut v = Vector::new();
        v.assign(buf.as_slice());
        v
    }
}

impl<T: Clone, const N: usize, A: Allocator + Default> vstd::std_specs::convert::FromSpecImpl<&[T; N]> for Vector<T, A> {
    open spec fn obeys_from_spec() -> bool {
        false
    }

    open spec fn from_spec(buf: &[T; N]) -> Self {
        arbitrary()
    }
}

impl<T, const N: usize, A: Allocator + Default> From<[T; N]> for Vector<T, A> {
    fn from(buf: [T; N]) -> (vector: Self)
        ensures
            vector.wf(),
            vector@ == buf@,
            vector.spec_capacity() == N,
    {
        let mut v = Vector::with_capacity(N);
        // move all values in
        let mut values = array_into_vec(buf);
        v.buf.append(&mut values);
        assert(v@ =~= buf@);
        v
    }
}

impl<T, const N: usize, A: Allocator + Default> vstd::std_specs::convert::FromSpecImpl<[T; N]> for Vector<T, A> {
    open spec fn obeys_from_spec() -> bool {
        false
    }

    open spec fn from_spec(buf: [T; N]) -> Self {
        arbitrary()
    }
}

} // verus!
