use vstd::prelude::*;

verus! {

/// A node in a hashtable. The nodes of a bucket stand in a row, the one that came last at
/// the head.
pub struct Node<K: PartialEq, V> {
    /// The key of the node.
    pub key: K,
    /// The value of the node.
    pub val: V,
}

impl<K: PartialEq, V> Node<K, V> {
    /// Creates the node from a key/value.
    pub fn new(key: K, value: V) -> (node: Self)
        ensures
            node.key == key,
            node.val == value,
    {
        Self { key, val: value }
    }

    /// Returns the key of the node.
    pub fn key(&self) -> (key: &K)
        ensures
            *key == self.key,
    {
        &self.key
    }

    /// Returns the value of the node.
    pub fn value(&self) -> (value: &V)
        ensures
            *value == self.val,
    {
        &self.val
    }

    /// Returns the value of the node.
    pub fn value_mut(&mut self) -> (value: &mut V)
        ensures
            *value == old(self).val,
            final(self).val == *final(value),
            final(self).key == old(self).key,
    {
        &mut self.val
    }
}

} // verus!
