use crate::allocator::Allocator;
use crate::compare::{Compare, Less};
use crate::internal::rb_tree::RBTree;
use vstd::prelude::*;

verus! {

/// A set backed by a red-black tree that is always ordered.
pub struct TreeSet<K: PartialEq, A: Allocator, C: Compare<K> = Less<K>> {
    inner: RBTree<K, (), A, C>,
}

impl<K: PartialEq, A: Allocator + Default, C: Compare<K> + Default> Default for TreeSet<K, A, C> {
    fn default() -> (set: Self)
        ensures
            set.wf(),
            set.spec_len() == 0,
            forall|key: K| !set.spec_contains(key),
    {
        let inner = RBTree::default();
        Self { inner }
    }
}

impl<K: PartialEq, A: Allocator, C: Compare<K> + Default> TreeSet<K, A, C> {
    /// Constructs a set using a specified allocator.
    pub fn with_allocator(allocator: A) -> (set: Self)
        ensures
            set.wf(),
            set.spec_len() == 0,
            forall|key: K| !set.spec_contains(key),
    {
        let inner = RBTree::with_allocator(allocator);
        Self { inner }
    }
}

impl<K: PartialEq, A: Allocator + Default, C: Compare<K>> TreeSet<K, A, C> {
    /// Constructs a set using a specified comparator.
    pub fn with_compare(compare: C) -> (set: Self)
        ensures
            set.wf(),
            set.spec_len() == 0,
            forall|key: K| !set.spec_contains(key),
    {
        let inner = RBTree::with_compare(compare);
        Self { inner }
    }
}

impl<K: PartialEq, A: Allocator, C: Compare<K>> TreeSet<K, A, C> {
    /// The tree of the set is in order.
    pub closed spec fn wf(&self) -> bool {
        self.inner.wf()
    }

    /// The number of keys that the set counts.
    pub closed spec fn spec_len(&self) -> usize {
        self.inner.spec_len()
    }

    /// The set holds `key`.
    pub closed spec fn spec_contains(&self, key: K) -> bool {
        self.inner.spec_get(key).is_some()
    }

    /// Constructs a set using a specified allocator
    /// and comparator.
    pub fn with_allocator_and_compare(allocator: A, compare: C) -> (set: Self)
        ensures
            set.wf(),
            set.spec_len() == 0,
            forall|key: K| !set.spec_contains(key),
    {
        let inner = RBTree::with_allocator_and_compare(allocator, compare);
        assert forall|key: K| !inner.spec_get(key).is_some() by {
            assert(inner.spec_get(key).is_none());
        }
        Self { inner }
    }

    /// Clears the set, removing all keys.
    pub fn clear(&mut self)
        requires
            old(self).wf(),
        ensures
            final(self).wf(),
            final(self).spec_len() == 0,
            forall|key: K| !final(self).spec_contains(key),
    {
        self.inner.clear();
        assert forall|key: K| !self.inner.spec_get(key).is_some() by {
            assert(self.inner.spec_get(key).is_none());
        }
    }

    /// Returns true if the set contains the given key.
    pub fn contains_key(&self, key: &K) -> (found: bool)
        requires
            self.wf(),
            C::obeys_compare_spec(),
        ensures
            found == self.spec_contains(*key),
    {
        self.inner.contains_key(key)
    }

    /// Returns true if the set contains no elements.
    pub fn is_empty(&self) -> (empty: bool)
        ensures
            empty == (self.spec_len() == 0),
    {
        self.inner.is_empty()
    }

    /// Returns the number of elements in the set.
    pub fn len(&self) -> (len: usize)
        ensures
            len == self.spec_len(),
    {
        self.inner.len()
    }
}

} // verus!
