use crate::allocator::Allocator;
use crate::equals::{EqualTo, Equals};
use crate::hash::DefaultHash;
use crate::internal::hash_table::entry::Entry;
use crate::internal::hash_table::iter::{Iter, IterMut};
use crate::internal::hash_table::rehash_policy::RehashPolicy;
use crate::internal::hash_table::HashTable;
use vstd::prelude::*;

verus! {

/// A hash map that can store and fetch values from a key in O(1) time.
pub struct HashMap<
    K: PartialEq,
    V,
    A: Allocator,
    P: RehashPolicy,
    H: crate::hash::Hash<K> = DefaultHash<K>,
    E: Equals<K> = EqualTo<K>,
> {
    hash_table: HashTable<K, V, A, P, H, E>,
}

impl<
    K: PartialEq,
    V,
    A: Allocator,
    P: RehashPolicy,
    H: crate::hash::Hash<K>,
    E: Equals<K>,
> View for HashMap<K, V, A, P, H, E> {
    type V = Map<K, V>;

    /// The pairs of the map.
    closed spec fn view(&self) -> Map<K, V> {
        self.hash_table@
    }
}

impl<
    K: PartialEq,
    V,
    A: Allocator + Default,
    P: RehashPolicy + Default,
    H: crate::hash::Hash<K>,
    E: Equals<K>,
> HashMap<K, V, A, P, H, E> {
    /// Creates a new empty hash map.
    pub fn new() -> (map: Self)
        requires
            Self::keys_by_equality(),
        ensures
            map.wf(),
            map@ == Map::<K, V>::empty(),
            map.spec_len() == 0,
    {
        let hash_table = HashTable::new();
        Self { hash_table }
    }
}

impl<
    K: PartialEq,
    V,
    A: Allocator,
    P: RehashPolicy,
    H: crate::hash::Hash<K>,
    E: Equals<K>,
> HashMap<K, V, A, P, H, E> {
    /// The map can tell its keys apart: two keys count as equal exactly when they are the
    /// same.
    pub open spec fn keys_by_equality() -> bool {
        HashTable::<K, V, A, P, H, E>::keys_by_equality()
    }

    /// The table of the map is in order.
    pub closed spec fn wf(&self) -> bool {
        self.hash_table.wf()
    }

    /// The number of pairs that the map counts.
    pub closed spec fn spec_len(&self) -> u32 {
        self.hash_table.spec_len()
    }

    /// The pairs of the map in the order of a walk.
    pub closed spec fn spec_pairs(&self) -> Seq<(K, V)> {
        self.hash_table.spec_pairs()
    }

    /// Clears the hash map, removing all key-value pairs.
    pub fn clear(&mut self)
        requires
            old(self).wf(),
        ensures
            final(self).wf(),
            final(self)@ == Map::<K, V>::empty(),
            final(self).spec_len() == 0,
    {
        self.hash_table.clear()
    }

    /// Checks if the hash map contains the given key.
    pub fn contains_key(&self, key: &K) -> (found: bool)
        requires
            self.wf(),
        ensures
            found == self@.dom().contains(*key),
    {
        self.hash_table.contains_key(key)
    }

    /// Gets the given key's corresponding entry in the map for in-place manipulation.
    pub fn entry(&mut self, key: K) -> (entry: Entry<'_, K, V, A, P, H, E>)
        requires
            old(self).wf(),
        ensures
            match entry {
                Entry::Occupied(node) => {
                    &&& old(self)@.dom().contains(key)
                    &&& node.key == key
                    &&& node.val == old(self)@[key]
                    &&& final(self).spec_len() == old(self).spec_len()
                    &&& final(node).key == key ==> final(self).wf() && final(self)@ == old(
                        self)@.insert(key, final(node).val)
                },
                Entry::Vacant(vacant) => {
                    &&& !old(self)@.dom().contains(key)
                    &&& vacant.key == key
                    &&& *vacant.table == old(self).inner()
                    &&& final(self).inner() == *final(vacant.table)
                },
            },
    {
        self.hash_table.entry(key)
    }

    /// Fetches the associated value for a key.
    pub fn get(&self, key: &K) -> (value: Option<&V>)
        requires
            self.wf(),
        ensures
            value == if self@.dom().contains(*key) {
                Some(&self@[*key])
            } else {
                None
            },
    {
        match self.hash_table.get(key) {
            Some(pair) => Some(pair.1),
            None => None,
        }
    }

    /// Fetches the associated value for a key.
    pub fn get_mut(&mut self, key: &K) -> (value: Option<&mut V>)
        requires
            old(self).wf(),
        ensures
            final(self).wf(),
            final(self).spec_len() == old(self).spec_len(),
            match value {
                Some(v) => old(self)@.dom().contains(*key) && *v == old(self)@[*key] && final(
                    self)@ == old(self)@.insert(*key, *final(v)),
                None => !old(self)@.dom().contains(*key) && final(self)@ == old(self)@,
            },
    {
        self.hash_table.get_mut(key)
    }

    /// Inserts the key-value pair into the hash map.
    pub fn insert(&mut self, key: K, value: V) -> (prev: Option<V>)
        requires
            old(self).wf(),
            old(self).spec_len() < u32::MAX,
        ensures
            final(self).wf(),
            final(self)@ == old(self)@.insert(key, value),
            prev == if old(self)@.dom().contains(key) {
                Some(old(self)@[key])
            } else {
                None
            },
            final(self).spec_len() == if prev.is_some() {
                old(self).spec_len() as int
            } else {
                old(self).spec_len() + 1
            },
    {
        self.hash_table.insert(key, value)
    }

    /// Returns true if the hash map is empty.
    pub fn is_empty(&self) -> (empty: bool)
        ensures
            empty == (self.spec_len() == 0),
    {
        self.hash_table.is_empty()
    }

    /// Returns an iterator over the hash map's
    /// key-value pairs.
    pub fn iter(&self) -> (iter: Iter<'_, K, V>)
        ensures
            iter.wf(),
            iter@ == self.spec_pairs(),
    {
        self.hash_table.iter()
    }

    /// The table of the map, as a value.
    pub closed spec fn inner(&self) -> HashTable<K, V, A, P, H, E> {
        self.hash_table
    }

    /// The table of a map holds the pairs of the map, and is in order when the map is.
    pub proof fn lemma_inner(&self)
        ensures
            self.inner()@ == self@,
            self.inner().wf() == self.wf(),
            self.inner().spec_pairs() == self.spec_pairs(),
            self.inner().spec_len() == self.spec_len(),
    {
    }

    /// Returns an iterator over the hash map's
    /// key-value pairs, where the values are
    /// mutable.
    pub fn iter_mut(&mut self) -> (iter: IterMut<'_, K, V, A, P, H, E>)
        requires
            old(self).wf(),
        ensures
            iter.wf(),
            iter@ == old(self).spec_pairs(),
            *iter.table == old(self).inner(),
            final(self).inner() == *final(iter.table),
    {
        self.hash_table.iter_mut()
    }

    /// Returns the number of key-value pairs in the hash map.
    pub fn len(&self) -> (len: usize)
        ensures
            len == self.spec_len(),
    {
        self.hash_table.len()
    }

    /// Creates a hash map backed by an allocator.
    pub fn with_allocator(allocator: A) -> (map: Self) where P: Default
        requires
            Self::keys_by_equality(),
        ensures
            map.wf(),
            map@ == Map::<K, V>::empty(),
            map.spec_len() == 0,
    {
        Self::new_in(allocator)
    }

    /// Creates a hash map backed by an allocator.
    pub fn new_in(allocator: A) -> (map: Self) where P: Default
        requires
            Self::keys_by_equality(),
        ensures
            map.wf(),
            map@ == Map::<K, V>::empty(),
            map.spec_len() == 0,
    {
        let hash_table = HashTable::new_in(allocator);
        Self { hash_table }
    }

    /// Removes a key-value pair from the hash map,
    /// returning the element if it was found.
    pub fn remove(&mut self, key: &K) -> (value: Option<V>)
        requires
            old(self).wf(),
        ensures
            final(self).wf(),
            final(self)@ == old(self)@.remove(*key),
            value == if old(self)@.dom().contains(*key) {
                Some(old(self)@[*key])
            } else {
                None
            },
    {
        self.hash_table.remove(key)
    }

    /// Removes a key-value pair from the hash map,
    /// returning the pair if it was found.
    pub fn remove_entry(&mut self, key: &K) -> (pair: Option<(K, V)>)
        requires
            old(self).wf(),
        ensures
            final(self).wf(),
            final(self)@ == old(self)@.remove(*key),
            pair == if old(self)@.dom().contains(*key) {
                Some((*key, old(self)@[*key]))
            } else {
                None
            },
    {
        self.hash_table.remove_entry(key)
    }
}

} // verus!
