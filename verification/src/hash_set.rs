use crate::allocator::Allocator;
use crate::equals::{EqualTo, Equals};
use crate::hash::DefaultHash;
use crate::hash_set::iter::{keys_of, Iter};
use crate::internal::hash_table::rehash_policy::RehashPolicy;
use crate::internal::hash_table::HashTable;
use vstd::prelude::*;

pub mod iter;

verus! {

/// A hash set that can store and fetch keys in O(1) time.
pub struct HashSet<
    K: PartialEq,
    A: Allocator,
    P: RehashPolicy,
    H: crate::hash::Hash<K> = DefaultHash<K>,
    E: Equals<K> = EqualTo<K>,
> {
    hash_table: HashTable<K, (), A, P, H, E>,
}

impl<
    K: PartialEq,
    A: Allocator + Default,
    P: RehashPolicy + Default,
    H: crate::hash::Hash<K>,
    E: Equals<K>,
> HashSet<K, A, P, H, E> {
    /// Creates a new empty hash set.
    pub fn new() -> (set: Self)
        requires
            Self::keys_by_equality(),
        ensures
            set.wf(),
            set.spec_keys() == Set::<K>::empty(),
            set.spec_len() == 0,
    {
        let hash_table = HashTable::<K, (), A, P, H, E>::new();
        assert(hash_table@.dom() =~= Set::<K>::empty());
        Self { hash_table }
    }
}

impl<K: PartialEq, A: Allocator, P: RehashPolicy, H: crate::hash::Hash<K>, E: Equals<K>> HashSet<
    K,
    A,
    P,
    H,
    E,
> {
    /// The set can tell its keys apart: two keys count as equal exactly when they are the
    /// same.
    pub open spec fn keys_by_equality() -> bool {
        HashTable::<K, (), A, P, H, E>::keys_by_equality()
    }

    /// The table of the set is in order.
    pub closed spec fn wf(&self) -> bool {
        self.hash_table.wf()
    }

    /// The keys of the set.
    pub closed spec fn spec_keys(&self) -> Set<K> {
        self.hash_table@.dom()
    }

    /// The number of keys that the set counts.
    pub closed spec fn spec_len(&self) -> u32 {
        self.hash_table.spec_len()
    }

    /// Clears the hash set, removing all keys.
    pub fn clear(&mut self)
        requires
            old(self).wf(),
        ensures
            final(self).wf(),
            final(self).spec_keys() == Set::<K>::empty(),
            final(self).spec_len() == 0,
    {
        self.hash_table.clear();
        assert(self.hash_table@.dom() =~= Set::<K>::empty());
    }

    /// Checks if the hash set contains the given key.
    pub fn contains_key(&self, key: &K) -> (found: bool)
        requires
            self.wf(),
        ensures
            found == self.spec_keys().contains(*key),
    {
        self.hash_table.contains_key(key)
    }

    /// Fetches the key of the set that is equal to the given key.
    pub fn get(&self, key: &K) -> (found: Option<&K>)
        requires
            self.wf(),
        ensures
            found == if self.spec_keys().contains(*key) {
                Some(key)
            } else {
                None
            },
    {
        match self.hash_table.get(key) {
            Some(pair) => Some(pair.0),
            None => None,
        }
    }

    /// Inserts the key into the hashset. Returns true if the set held the key already.
    pub fn insert(&mut self, key: K) -> (held: bool)
        requires
            old(self).wf(),
            old(self).spec_len() < u32::MAX,
        ensures
            final(self).wf(),
            final(self).spec_keys() == old(self).spec_keys().insert(key),
            held == old(self).spec_keys().contains(key),
            final(self).spec_len() == if held {
                old(self).spec_len() as int
            } else {
                old(self).spec_len() + 1
            },
    {
        let held = self.hash_table.insert(key, ()).is_some();
        assert(self.hash_table@.dom() =~= old(self).hash_table@.dom().insert(key));
        held
    }

    /// Creates a hash set backed by an allocator.
    pub fn with_allocator(allocator: A) -> (set: Self) where P: Default
        requires
            Self::keys_by_equality(),
        ensures
            set.wf(),
            set.spec_keys() == Set::<K>::empty(),
            set.spec_len() == 0,
    {
        Self::new_in(allocator)
    }

    /// The buckets of the table of the set.
    pub closed spec fn spec_buckets(&self) -> Seq<Vec<crate::internal::hash_table::node::Node<K, ()>>> {
        self.hash_table.spec_buckets()
    }

    /// Returns the iterator that walks the keys from the place `begin` on, or `None` where
    /// the places are not places of the table of the set.
    pub fn iter_from_compat(
        &self,
        begin: crate::internal::hash_table::iter::CompatIter,
        end: crate::internal::hash_table::iter::CompatIter,
    ) -> (iter: Option<Iter<'_, K>>)
        ensures
            iter.is_some() <==> crate::internal::hash_table::iter::Iter::<K, ()>::places(
                self.spec_buckets(),
                begin,
                end,
            ),
            iter.is_some() ==> iter.unwrap().wf() && iter.unwrap()@ == keys_of(
                crate::internal::hash_table::iter::walk_from(
                    self.spec_buckets(),
                    begin.bucket_ptr as int,
                    begin.node_ptr as int,
                ),
            ),
    {
        match self.hash_table.iter_from_compat(begin, end) {
            Some(inner) => {
                let iter = Iter::new(inner);
                assert(iter@ =~= keys_of(inner@));
                Some(iter)
            },
            None => None,
        }
    }

    /// Creates a hash set backed by an allocator.
    pub fn new_in(allocator: A) -> (set: Self) where P: Default
        requires
            Self::keys_by_equality(),
        ensures
            set.wf(),
            set.spec_keys() == Set::<K>::empty(),
            set.spec_len() == 0,
    {
        let hash_table = HashTable::<K, (), A, P, H, E>::new_in(allocator);
        assert(hash_table@.dom() =~= Set::<K>::empty());
        Self { hash_table }
    }

    /// Returns true if the hash set is empty.
    pub fn is_empty(&self) -> (empty: bool)
        ensures
            empty == (self.spec_len() == 0),
    {
        self.hash_table.is_empty()
    }

    /// The keys of the set in the order of a walk.
    pub closed spec fn spec_key_seq(&self) -> Seq<K> {
        Seq::new(self.hash_table.spec_pairs().len(), |i: int| self.hash_table.spec_pairs()[i].0)
    }

    /// Returns an iterator over the hash set's keys.
    pub fn iter(&self) -> (iter: Iter<'_, K>)
        ensures
            iter.wf(),
            iter@ == self.spec_key_seq(),
    {
        let iter = Iter::new(self.hash_table.iter());
        assert(iter@ =~= self.spec_key_seq());
        iter
    }

    /// Returns the number of elements in the hash set.
    pub fn len(&self) -> (len: usize)
        ensures
            len == self.spec_len(),
    {
        self.hash_table.len()
    }

    /// Removes a key from the hash set, returning it if it was found.
    pub fn remove(&mut self, key: &K) -> (removed: Option<K>)
        requires
            old(self).wf(),
        ensures
            final(self).wf(),
            final(self).spec_keys() == old(self).spec_keys().remove(*key),
            removed == if old(self).spec_keys().contains(*key) {
                Some(*key)
            } else {
                None
            },
    {
        let removed = match self.hash_table.remove_entry(key) {
            Some(pair) => Some(pair.0),
            None => None,
        };
        assert(self.hash_table@.dom() =~= old(self).hash_table@.dom().remove(*key));
        removed
    }
}

} // verus!
