use crate::allocator::Allocator;
use crate::compare::{Compare, Less};
use crate::internal::rb_tree::RBTree;
use vstd::prelude::*;

verus! {

/// A map backed by a red-black tree that is always ordered.
/// If you do not need ordering, look at a hash map.
pub struct TreeMap<K: PartialEq, V, A: Allocator, C: Compare<K> = Less<K>> {
    inner: RBTree<K, V, A, C>,
}

impl<K: PartialEq, V, A: Allocator + Default, C: Compare<K> + Default> Default for TreeMap<
    K,
    V,
    A,
    C,
> {
    fn default() -> (map: Self)
        ensures
            map.wf(),
            map.spec_len() == 0,
            forall|key: K| map.spec_get(key).is_none(),
    {
        let inner = RBTree::default();
        Self { inner }
    }
}

impl<K: PartialEq, V, A: Allocator, C: Compare<K> + Default> TreeMap<K, V, A, C> {
    /// Constructs a map using a specified allocator.
    pub fn with_allocator(allocator: A) -> (map: Self)
        ensures
            map.wf(),
            map.spec_len() == 0,
            forall|key: K| map.spec_get(key).is_none(),
    {
        let inner = RBTree::with_allocator(allocator);
        Self { inner }
    }
}

impl<K: PartialEq, V, A: Allocator + Default, C: Compare<K>> TreeMap<K, V, A, C> {
    /// Constructs a map using a specified comparator.
    pub fn with_compare(compare: C) -> (map: Self)
        ensures
            map.wf(),
            map.spec_len() == 0,
            forall|key: K| map.spec_get(key).is_none(),
    {
        let inner = RBTree::with_compare(compare);
        Self { inner }
    }
}

impl<K: PartialEq, V, A: Allocator, C: Compare<K>> TreeMap<K, V, A, C> {
    /// The tree of the map is in order.
    pub closed spec fn wf(&self) -> bool {
        self.inner.wf()
    }

    /// The number of pairs that the map counts.
    pub closed spec fn spec_len(&self) -> usize {
        self.inner.spec_len()
    }

    /// The value that the map holds for `key`, if it holds one.
    pub closed spec fn spec_get(&self, key: K) -> Option<V> {
        self.inner.spec_get(key)
    }

    /// Constructs a map using a specified allocator
    /// and comparator.
    pub fn with_allocator_and_compare(allocator: A, compare: C) -> (map: Self)
        ensures
            map.wf(),
            map.spec_len() == 0,
            forall|key: K| map.spec_get(key).is_none(),
    {
        let inner = RBTree::with_allocator_and_compare(allocator, compare);
        Self { inner }
    }

    /// Clears the map, removing all key-value pairs.
    pub fn clear(&mut self)
        requires
            old(self).wf(),
        ensures
            final(self).wf(),
            final(self).spec_len() == 0,
            forall|key: K| final(self).spec_get(key).is_none(),
    {
        self.inner.clear()
    }

    /// Returns true if the map contains a pair indexed
    /// by the given key.
    pub fn contains_key(&self, key: &K) -> (found: bool)
        requires
            self.wf(),
            C::obeys_compare_spec(),
        ensures
            found == self.spec_get(*key).is_some(),
    {
        self.inner.contains_key(key)
    }

    /// Fetches the value indexed by the key in the map.
    pub fn get(&self, key: &K) -> (value: Option<&V>)
        requires
            self.wf(),
            C::obeys_compare_spec(),
        ensures
            value == match self.spec_get(*key) {
                Some(v) => Some(&v),
                None => None,
            },
    {
        self.inner.get(key)
    }

    /// Fetches the value indexed by the key in the map.
    pub fn get_mut(&mut self, key: &K) -> (value: Option<&mut V>)
        requires
            old(self).wf(),
            C::obeys_compare_spec(),
        ensures
            final(self).wf(),
            final(self).spec_len() == old(self).spec_len(),
            match value {
                Some(v) => old(self).spec_get(*key) == Some(*v) && final(self).spec_get(*key)
                    == Some(*final(v)),
                None => old(self).spec_get(*key).is_none() && final(self).spec_get(*key).is_none(),
            },
    {
        self.inner.get_mut(key)
    }

    /// Returns true if the map contains no elements.
    pub fn is_empty(&self) -> (empty: bool)
        ensures
            empty == (self.spec_len() == 0),
    {
        self.inner.is_empty()
    }

    /// Returns the number of elements in the map.
    pub fn len(&self) -> (len: usize)
        ensures
            len == self.spec_len(),
    {
        self.inner.len()
    }
}

} // verus!
