use crate::allocator::Allocator;
use crate::compare::Compare;
use crate::vector_map::{parts_at, VectorMap};
use vstd::prelude::*;

verus! {

/// An occupied entry in a vector map.
pub struct OccupiedEntry<'a, K, V>(pub &'a mut (K, V));

impl<'a, K, V> OccupiedEntry<'a, K, V> {
    /// Returns the value in the entry.
    pub fn get(&self) -> (value: &V)
        ensures
            *value == old(self.0).1,
    {
        &self.0.1
    }

    /// Returns the value in the entry.
    pub fn get_mut(&mut self) -> (value: &mut V)
        ensures
            *value == old(self).0.1,
            final(self).0.1 == *final(value),
            final(self).0.0 == old(self).0.0,
            *final(final(self).0) == *final(old(self).0),
    {
        &mut self.0.1
    }

    /// Returns the key in the entry.
    pub fn key(&self) -> (key: &K)
        ensures
            *key == old(self.0).0,
    {
        &self.0.0
    }
}

/// A vacant entry in a vector map.
pub struct VacantEntry<'a, K: PartialEq, V, A: Allocator, C: Compare<K>> {
    /// The map that the entry is an entry of.
    pub vec: &'a mut VectorMap<K, V, A, C>,
    /// The key that the map does not hold.
    pub key: K,
    /// The place at which a pair with the key would go.
    pub lower_bound: usize,
}

impl<'a, K: PartialEq, V, A: Allocator, C: Compare<K>> VacantEntry<'a, K, V, A, C> {
    /// The map is in order and does not hold the key, and a pair with the key would go at
    /// the place that the entry names.
    pub open spec fn wf(&self) -> bool {
        &&& self.vec.wf()
        &&& parts_at::<K, V, C>(self.vec@, self.key, self.lower_bound as int)
        &&& !VectorMap::<K, V, A, C>::has_key_at(self.vec@, self.key, self.lower_bound as int)
    }

    /// Consumes the vacant entry and returns the key that would have been used.
    pub fn into_key(self) -> (key: K)
        ensures
            key == self.key,
    {
        self.key
    }

    /// Inserts `value` at the key specified by the entry.
    pub fn insert(self, value: V) -> (slot: &'a mut V)
        requires
            self.wf(),
            self.vec.grown() <= usize::MAX,
        ensures
            *slot == value,
            final(self.vec).wf(),
            final(self.vec)@ == old(self.vec)@.insert(
                self.lower_bound as int,
                (self.key, *final(slot)),
            ),
    {
        self.vec.insert_at(self.lower_bound, self.key, value)
    }

    /// Returns the key that would be used to insert the entry.
    pub fn key(&self) -> (key: &K)
        ensures
            *key == self.key,
    {
        &self.key
    }
}

/// An entry in a vector map.
pub enum Entry<'a, K: PartialEq, V, A: Allocator, C: Compare<K>> {
    Occupied(OccupiedEntry<'a, K, V>),
    Vacant(VacantEntry<'a, K, V, A, C>),
}

} // verus!
