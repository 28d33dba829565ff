use crate::allocator::Allocator;
use crate::equals::Equals;
use crate::internal::hash_table::node::Node;
use crate::internal::hash_table::rehash_policy::RehashPolicy;
use crate::internal::hash_table::HashTable;
use vstd::prelude::*;

verus! {

/// A vacant node - one that has not been inserted yet.
pub struct VacantEntry<
    'a,
    K: PartialEq,
    V,
    A: Allocator,
    P: RehashPolicy,
    H: crate::hash::Hash<K>,
    E: Equals<K>,
> {
    /// The table that the entry is an entry of.
    pub table: &'a mut HashTable<K, V, A, P, H, E>,
    /// The key that the table does not hold.
    pub key: K,
}

/// An entry in a hash table.
pub enum Entry<
    'a,
    K: PartialEq,
    V,
    A: Allocator,
    P: RehashPolicy,
    H: crate::hash::Hash<K>,
    E: Equals<K>,
> {
    /// There was a node found already for the key.
    Occupied(&'a mut Node<K, V>),
    /// There was not a node already present for the key.
    Vacant(VacantEntry<'a, K, V, A, P, H, E>),
}

impl<
    'a,
    K: PartialEq,
    V,
    A: Allocator,
    P: RehashPolicy,
    H: crate::hash::Hash<K>,
    E: Equals<K>,
> VacantEntry<'a, K, V, A, P, H, E> {
    /// The table is in order, does not hold the key, and can count one more pair.
    pub open spec fn wf(&self) -> bool {
        &&& self.table.wf()
        &&& !self.table@.dom().contains(self.key)
        &&& self.table.spec_len() < u32::MAX
    }
}

impl<
    'a,
    K: PartialEq,
    V,
    A: Allocator,
    P: RehashPolicy,
    H: crate::hash::Hash<K>,
    E: Equals<K>,
> Entry<'a, K, V, A, P, H, E> {
    /// The entry of a key that the table does not hold is in order.
    pub open spec fn wf(&self) -> bool {
        match self {
            Entry::Occupied(_) => true,
            Entry::Vacant(entry) => entry.wf(),
        }
    }

    /// Provides in-place mutable access to the value: where the key is there, `f` is called
    /// on its value, and the entry then holds what `f` left there.
    pub fn and_modify<F: Fn(&mut V)>(self, f: F) -> (entry: Self)
        requires
            self.wf(),
            forall|value: &mut V| #[trigger] f.requires((value,)),
        ensures
            entry.wf(),
            match (self, entry) {
                (Entry::Occupied(before), Entry::Occupied(after)) => {
                    &&& after.key == before.key
                    &&& *final(after) == *final(before)
                    &&& exists|value: &mut V|
                        *value == before.val && *final(value) == after.val && #[trigger] f.ensures(
                            (value,),
                            (),
                        )
                },
                (Entry::Vacant(before), Entry::Vacant(after)) => after == before,
                _ => false,
            },
    {
        match self {
            Self::Occupied(occupied) => {
                f(&mut occupied.val);
                Self::Occupied(occupied)
            },
            Self::Vacant(entry) => Self::Vacant(entry),
        }
    }

    /// Fetches the value stored in the entry, or inserts the default value for the key.
    pub fn or_insert(self, default: V) -> (value: &'a mut V)
        requires
            self.wf(),
        ensures
            match self {
                Entry::Occupied(node) => *value == node.val && final(node).val == *final(value) && final(node).key == node.key,
                Entry::Vacant(entry) => *value == default && final(entry.table).wf() && final(entry.table)@ == entry.table@.insert(entry.key, *final(value)) && final(entry.table).spec_len() == entry.table.spec_len() + 1,
            },
    {
        match self {
            Self::Occupied(v) => &mut v.val,
            Self::Vacant(entry) => entry.table.insert_new(entry.key, default),
        }
    }

    /// Fetches the value stored in the entry, or inserts the value that `default` makes for
    /// the key.
    pub fn or_insert_with<F: FnOnce() -> V>(self, default: F) -> (value: &'a mut V)
        requires
            self.wf(),
            self is Vacant ==> default.requires(()),
        ensures
            match self {
                Entry::Occupied(node) => *value == node.val && final(node).val == *final(value) && final(node).key == node.key,
                Entry::Vacant(entry) => default.ensures((), *value) && final(entry.table).wf()
                    && final(entry.table)@ == entry.table@.insert(entry.key, *final(value))
                    && final(entry.table).spec_len() == entry.table.spec_len() + 1,
            },
    {
        match self {
            Self::Occupied(v) => &mut v.val,
            Self::Vacant(entry) => {
                let val = default();
                entry.table.insert_new(entry.key, val)
            },
        }
    }
}

} // verus!
