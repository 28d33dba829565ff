use crate::allocator::{Allocator, DefaultAllocator};
use crate::hash::{fnv1_of, DefaultHash};
use crate::vector::Vector;
use vstd::prelude::*;
use vstd::string::StringSliceAdditionalSpecFns;
use vstd::utf8::valid_utf8;

verus! {

/// String with the default allocator.
pub type DefaultString = String<DefaultAllocator>;

/// `String` is what it sounds like, a string of characters.
/// It's actually implemented internally as a vector of bytes, which ends in a null byte as
/// soon as the string has been written to.
pub struct String<A: Allocator> {
    vec: Vector<u8, A>,
}

impl<A: Allocator> View for String<A> {
    type V = Seq<u8>;

    /// The bytes of the string, without the null byte behind them.
    closed spec fn view(&self) -> Seq<u8> {
        if self.vec@.len() > 0 {
            self.vec@.drop_last()
        } else {
            Seq::empty()
        }
    }
}

/// Reads `bytes` as a string slice, where they are one.
///
/// Wraps `core::str::from_utf8`: the slice is there exactly when the bytes are valid UTF-8,
/// and it is made of these bytes.
#[verifier::external_body]
fn str_from_utf8(bytes: &[u8]) -> (s: Option<&str>)
    ensures
        s.is_some() <==> valid_utf8(bytes@),
        s.is_some() ==> s.unwrap().spec_bytes() == bytes@,
{
    core::str::from_utf8(bytes).ok()
}

impl<A: Allocator + Default> String<A> {
    /// Creates a new empty string.
    pub fn new() -> (string: Self)
        ensures
            string.wf(),
            string@ == Seq::<u8>::empty(),
            string.vec_capacity() == 0,
            !string.terminated(),
    {
        Self { vec: Vector::new() }
    }

    /// Creates a new string with a capacity allocated.
    pub fn with_capacity(capacity: usize) -> (string: Self)
        requires
            capacity < usize::MAX,
        ensures
            string.wf(),
            string@ == Seq::<u8>::empty(),
            string.vec_capacity() == capacity + 1,
            !string.terminated(),
    {
        Self {
            // make space for the null terminator
            vec: Vector::with_capacity(capacity + 1),
        }
    }

    /// Creates a string from a string slice.
    pub fn from(s: &str) -> (string: Self)
        requires
            s.spec_bytes().len() < usize::MAX,
        ensures
            string.wf(),
            string@ == s.spec_bytes(),
            string.vec_capacity() == s.spec_bytes().len() + 1,
            string.terminated(),
    {
        Self::from_in(s, A::default())
    }
}

impl<A: Allocator + Default> Default for String<A> {
    fn default() -> (string: Self)
        ensures
            string.wf(),
            string@ == Seq::<u8>::empty(),
            string.vec_capacity() == 0,
            !string.terminated(),
    {
        Self::new()
    }
}

impl<A: Allocator> String<A> {
    /// The vector of the string is in order, and ends in a null byte unless it is empty.
    pub closed spec fn wf(&self) -> bool {
        &&& self.vec.wf()
        &&& self.vec@.len() > 0 ==> self.vec@.last() == 0
    }

    /// The null byte stands behind the bytes of the string.
    pub closed spec fn terminated(&self) -> bool {
        self.vec@.len() > 0
    }

    /// The capacity of the string: the number of bytes that it has room for, beside the null
    /// byte.
    pub open spec fn spec_capacity(&self) -> usize {
        if self.vec_capacity() > 0 {
            (self.vec_capacity() - 1) as usize
        } else {
            0
        }
    }

    /// The capacity of the string after it took one more byte: a string that has not been
    /// written to takes the null byte first, and a full vector doubles.
    pub open spec fn grown(&self) -> int {
        let capacity = if self.terminated() || self.vec_capacity() > 0 {
            self.vec_capacity() as int
        } else {
            1
        };
        let len = if self.terminated() {
            self@.len() + 1
        } else {
            1
        };
        if len == capacity {
            2 * capacity - 1
        } else {
            capacity - 1
        }
    }

    /// The vector of the string is full: no byte fits in without growth.
    pub closed spec fn spec_is_full(&self) -> bool {
        self.vec@.len() == self.vec.spec_capacity()
    }

    /// Creates a string from a string slice with a custom allocator.
    pub fn from_in(s: &str, allocator: A) -> (string: Self)
        requires
            s.spec_bytes().len() < usize::MAX,
        ensures
            string.wf(),
            string@ == s.spec_bytes(),
            string.vec_capacity() == s.spec_bytes().len() + 1,
            string.terminated(),
    {
        let mut ret = Self { vec: Vector::new_in(allocator) };
        ret.assign(s);

        ret
    }

    /// Creates a string with a custom allocator.
    pub fn new_in(allocator: A) -> (string: Self)
        ensures
            string.wf(),
            string@ == Seq::<u8>::empty(),
            string.vec_capacity() == 0,
            !string.terminated(),
    {
        Self { vec: Vector::new_in(allocator) }
    }

    /// Assigns a string to a slice.
    pub fn assign(&mut self, buf: &str)
        requires
            old(self).wf(),
            buf.spec_bytes().len() < usize::MAX,
        ensures
            final(self).wf(),
            final(self)@ == buf.spec_bytes(),
            final(self).vec_capacity() == buf.spec_bytes().len() + 1,
            final(self).terminated(),
    {
        let bytes = buf.as_bytes();
        self.vec.clear();
        self.reserve(bytes.len());

        // copy over and null terminate
        self.vec.append(bytes);
        proof {
            assert(self.vec@.skip(0) =~= self.vec@);
            assert(self.vec@ =~= bytes@) by {
                assert forall|i: int| 0 <= i < bytes@.len() implies self.vec@[i] == bytes@[i] by {
                    assert(cloned::<u8>(bytes@[i], self.vec@[i]));
                }
            }
        }
        self.vec.push(0);
        assert(self@ =~= buf.spec_bytes());
    }

    /// Returns the string as bytes.
    pub fn as_bytes(&self) -> (bytes: &[u8])
        ensures
            bytes@ == self@,
    {
        let slice = self.vec.as_slice();
        let len = self.len();
        let bytes = vstd::slice::slice_subrange(slice, 0, len);
        assert(bytes@ =~= self@);
        bytes
    }

    /// Returns the string as a slice. The bytes of the string must be valid UTF-8.
    pub fn as_str(&self) -> (s: &str)
        requires
            valid_utf8(self@),
        ensures
            s.spec_bytes() == self@,
    {
        match str_from_utf8(self.as_bytes()) {
            Some(s) => s,
            None => "",
        }
    }

    /// Returns the string as a slice, or `None` where its bytes are not valid UTF-8.
    pub fn to_str(&self) -> (s: Option<&str>)
        ensures
            s.is_some() <==> valid_utf8(self@),
            s.is_some() ==> s.unwrap().spec_bytes() == self@,
    {
        str_from_utf8(self.as_bytes())
    }

    /// Returns the capacity of the string.
    pub fn capacity(&self) -> (capacity: usize)
        ensures
            capacity == self.spec_capacity(),
    {
        let capacity = self.vec.capacity();
        if capacity > 0 {
            capacity - 1
        } else {
            0
        }
    }

    /// Returns true if the string is empty.
    pub fn is_empty(&self) -> (empty: bool)
        ensures
            empty == (self@.len() == 0),
    {
        self.len() == 0
    }

    /// Returns true if the string is full to the capacity.
    #[verifier::when_used_as_spec(spec_is_full)]
    pub fn is_full(&self) -> (full: bool)
        ensures
            full == self.spec_is_full(),
    {
        self.vec.is_full()
    }

    /// Returns the length of the string.
    pub fn len(&self) -> (len: usize)
        ensures
            len == self@.len(),
    {
        let len = self.vec.len();
        if len > 0 {
            len - 1
        } else {
            0
        }
    }

    /// Returns the byte that stands behind the bytes of the string: the null byte, or `None`
    /// where the string has not been written to yet.
    pub fn terminator(&self) -> (byte: Option<u8>)
        requires
            self.wf(),
        ensures
            byte == if self.terminated() {
                Some(0u8)
            } else {
                None
            },
    {
        match self.vec.get(self.len()) {
            Some(byte) => Some(*byte),
            None => None,
        }
    }

    /// Pushes a new element into the string: the lowest eight bits of `elem`.
    pub fn push(&mut self, elem: char)
        requires
            old(self).wf(),
            old(self).grown() < usize::MAX,
        ensures
            final(self).wf(),
            final(self)@ == old(self)@.push(elem as u8),
            final(self).spec_capacity() == old(self).grown(),
            final(self).terminated(),
    {
        self.insert(self.len(), elem)
    }

    /// Pops an element off of the back of the array.
    pub fn pop(&mut self) -> (elem: Option<char>)
        requires
            old(self).wf(),
        ensures
            final(self).wf(),
            final(self).spec_capacity() == old(self).spec_capacity(),
            final(self).terminated() == old(self).terminated(),
            old(self)@.len() == 0 ==> elem.is_none() && final(self)@ == old(self)@,
            old(self)@.len() > 0 ==> elem == Some(old(self)@.last() as char) && final(self)@
                == old(self)@.drop_last(),
    {
        let len = self.len();
        let last = if len > 1 {
            len - 1
        } else {
            0
        };
        let elem = self.remove(last);
        proof {
            if old(self)@.len() > 0 {
                assert(old(self)@.remove(last as int) =~= old(self)@.drop_last());
            }
        }
        elem
    }

    /// Inserts a char into the string at an index: the lowest eight bits of `elem`.
    /// `index` must be less than or equal to `size`.
    pub fn insert(&mut self, index: usize, elem: char)
        requires
            old(self).wf(),
            index <= old(self)@.len(),
            old(self).grown() < usize::MAX,
        ensures
            final(self).wf(),
            final(self)@ == old(self)@.insert(index as int, elem as u8),
            final(self).spec_capacity() == old(self).grown(),
            final(self).terminated(),
    {
        if self.vec.is_empty() {
            // add the null terminator
            self.vec.push(0);
        }
        proof {
            self.vec.lemma_len_fits();
        }

        self.vec.insert(index, #[verifier::truncate] (elem as u8));
        assert(self@ =~= old(self)@.insert(index as int, elem as u8));
    }

    /// Remove the char at the index and return it.
    pub fn remove(&mut self, index: usize) -> (elem: Option<char>)
        requires
            old(self).wf(),
        ensures
            final(self).wf(),
            final(self).spec_capacity() == old(self).spec_capacity(),
            final(self).terminated() == old(self).terminated(),
            index >= old(self)@.len() ==> elem.is_none() && final(self)@ == old(self)@,
            index < old(self)@.len() ==> elem == Some(old(self)@[index as int] as char)
                && final(self)@ == old(self)@.remove(index as int),
    {
        // account for null terminator
        if index >= self.len() {
            None
        } else {
            let elem = self.vec.remove(index);
            assert(self@ =~= old(self)@.remove(index as int));
            match elem {
                Some(byte) => Some(byte as char),
                None => None,
            }
        }
    }

    /// Reserves space for chars within the string: the vector of the string grows by one
    /// more than `capacity`, for the null byte.
    pub fn reserve(&mut self, capacity: usize)
        requires
            old(self).wf(),
            old(self).vec_capacity() + capacity + 1 <= usize::MAX,
        ensures
            final(self).wf(),
            final(self)@ == old(self)@,
            final(self).terminated() == old(self).terminated(),
            final(self).vec_capacity() == old(self).vec_capacity() + capacity + 1,
    {
        // make space for the null terminator
        self.vec.reserve(capacity + 1)
    }

    /// The capacity of the vector of the string: one more than the capacity of the string,
    /// or zero.
    pub closed spec fn vec_capacity(&self) -> usize {
        self.vec.spec_capacity()
    }

    /// Returns true if both strings hold the same bytes.
    pub fn equals(&self, other: &Self) -> (same: bool)
        ensures
            same == (self@ == other@),
    {
        let left = self.as_bytes();
        let right = other.as_bytes();
        if left.len() != right.len() {
            return false;
        }
        let mut i: usize = 0;
        while i < left.len()
            invariant
                i <= left@.len(),
                left@.len() == right@.len(),
                left@ == self@,
                right@ == other@,
                forall|j: int| 0 <= j < i ==> left@[j] == right@[j],
            decreases left@.len() - i,
        {
            if left[i] != right[i] {
                return false;
            }
            i = i + 1;
        }
        assert(left@ =~= right@);
        true
    }
}

impl<A: Allocator> crate::hash::Hash<String<A>> for DefaultHash<String<A>> {
    open spec fn spec_hash(val: &String<A>) -> usize {
        fnv1_of(val@) as usize
    }

    fn hash(val: &String<A>) -> (h: usize) {
        let bytes = val.as_bytes();
        let mut res: u32 = crate::hash::FNV1_OFFSET_BASIS;
        let mut i: usize = 0;
        while i < bytes.len()
            invariant
                i <= bytes@.len(),
                res == fnv1_of(bytes@.take(i as int)),
            decreases bytes@.len() - i,
        {
            let c = bytes[i];
            proof {
                assert(bytes@.take(i + 1).drop_last() =~= bytes@.take(i as int));
            }
            res = (res.wrapping_mul(crate::hash::FNV1_PRIME)) ^ (c as u32);
            i = i + 1;
        }
        proof {
            assert(bytes@.take(i as int) =~= bytes@);
        }
        res as usize
    }
}

impl<A: Allocator> PartialEq for String<A> {
    fn eq(&self, other: &Self) -> (same: bool) {
        self.equals(other)
    }
}

impl<A: Allocator> vstd::std_specs::cmp::PartialEqSpecImpl for String<A> {
    open spec fn obeys_eq_spec() -> bool {
        true
    }

    open spec fn eq_spec(&self, other: &Self) -> bool {
        self@ == other@
    }
}

} // verus!
