use crate::allocator::{Allocator, DefaultAllocator};
use crate::compare::{
    lemma_order_irreflexive, lemma_order_total, lemma_order_transitive, strict_total_order,
    Compare, Less,
};
use crate::vector::{array_into_vec, Vector};
use core::cmp::Ordering;
use superslice::Ext;
use vstd::laws_eq::obeys_concrete_eq;
use vstd::prelude::*;

pub mod entry;

pub use entry::{Entry, OccupiedEntry, VacantEntry};

verus! {

/// Vector map with the default allocator.
pub type DefaultVectorMap<K, V, C = Less<K>> = VectorMap<K, V, DefaultAllocator, C>;

/// A vector map is a map backed by a vector, maintaining an order.
pub struct VectorMap<K: PartialEq, V, A: Allocator, C: Compare<K> = Less<K>> {
    base: Vector<(K, V), A>,
    _compare: C,
}

impl<K: PartialEq, V, A: Allocator, C: Compare<K>> View for VectorMap<K, V, A, C> {
    type V = Seq<(K, V)>;

    /// The pairs of the map in the order of their keys.
    closed spec fn view(&self) -> Seq<(K, V)> {
        self.base@
    }
}

/// The keys before place `index` come before `key`, and those from it on do not.
pub open spec fn parts_at<K, V, C: Compare<K>>(entries: Seq<(K, V)>, key: K, index: int) -> bool {
    &&& 0 <= index <= entries.len()
    &&& forall|i: int| 0 <= i < index ==> #[trigger] C::less(&entries[i].0, &key)
    &&& forall|i: int| index <= i < entries.len() ==> !#[trigger] C::less(&entries[i].0, &key)
}

/// The order of a key of the map and the key that is looked for, as a search wants it: a
/// key that does not come before the other counts as one behind it.
fn key_order<K, C: Compare<K>>(k: &K, key: &K) -> (order: Ordering)
    ensures
        C::obeys_compare_spec() ==> order == if C::less(k, key) {
            Ordering::Less
        } else {
            Ordering::Greater
        },
{
    // we don't perform an equality check here because we shouldn't need to. in a
    // lower bound, equal and less are the same thing
    if C::compare(k, key) {
        Ordering::Less
    } else {
        Ordering::Greater
    }
}

/// Finds the place of the first key that does not come before `key`.
///
/// Wraps `superslice::Ext::lower_bound_by`, a binary search: on a slice where the elements
/// that the comparator calls less stand before the others, it returns the place of the first
/// of the others.
#[verifier::external_body]
fn lower_bound_by_key<K, V, C: Compare<K>>(entries: &[(K, V)], key: &K) -> (index: usize)
    requires
        C::obeys_compare_spec(),
        forall|i: int, j: int|
            0 <= i <= j < entries@.len() && #[trigger] C::less(&entries@[j].0, key)
                ==> #[trigger] C::less(&entries@[i].0, key),
    ensures
        index <= entries@.len(),
        forall|i: int| 0 <= i < index ==> #[trigger] C::less(&entries@[i].0, key),
        forall|i: int| index <= i < entries@.len() ==> !#[trigger] C::less(&entries@[i].0, key),
{
    entries.lower_bound_by(|entry| key_order::<K, C>(&entry.0, key))
}

impl<K: PartialEq + PartialOrd, V, A: Allocator + Default> VectorMap<K, V, A, Less<K>> {
    /// Creates a new empty vector map.
    pub fn new() -> (map: Self)
        requires
            Self::keys_in_order(),
        ensures
            map.wf(),
            map@ == Seq::<(K, V)>::empty(),
            map.spec_capacity() == 0,
    {
        Self { base: Vector::new(), _compare: Less::default() }
    }

    /// Creates a new vector map with a capacity allocated.
    pub fn with_capacity(capacity: usize) -> (map: Self)
        requires
            Self::keys_in_order(),
        ensures
            map.wf(),
            map@ == Seq::<(K, V)>::empty(),
            map.spec_capacity() == capacity,
    {
        Self { base: Vector::with_capacity(capacity), _compare: Less::default() }
    }
}

impl<K: PartialEq + PartialOrd, V, A: Allocator + Default> VectorMap<K, V, A, Less<K>> {
    /// Creates a vector map from the pairs of a vector: each pair goes in at the place of
    /// its key, and a later pair takes the place of an earlier one with its key.
    pub fn from_vec(value: Vec<(K, V)>) -> (map: Self)
        requires
            Self::keys_in_order(),
        ensures
            map.wf(),
            map@ == Self::spec_fill(Seq::empty(), value@),
            map.spec_capacity() == value@.len(),
    {
        let mut vec = VectorMap::with_capacity(value.len());
        let ghost pairs = value@;
        let ghost count = value@.len();
        for pair in iter: value
            invariant
                iter.seq() == pairs,
                count == pairs.len(),
                vec.wf(),
                vec@ == Self::spec_fill(Seq::empty(), pairs.take(iter.index())),
                vec@.len() <= iter.index(),
                vec.spec_capacity() == count,
        {
            proof {
                assert(pairs.take(iter.index() + 1).drop_last() =~= pairs.take(iter.index()));
            }
            let _ = vec.insert(pair.0, pair.1);
        }
        assert(pairs.take(pairs.len() as int) =~= pairs);
        vec
    }

    /// Creates a vector map from the pairs of an array, like `from_vec`.
    pub fn from<const N: usize>(value: [(K, V); N]) -> (map: Self)
        requires
            Self::keys_in_order(),
        ensures
            map.wf(),
            map@ == Self::spec_fill(Seq::empty(), value@),
            map.spec_capacity() == N,
    {
        Self::from_vec(array_into_vec(value))
    }
}

impl<K: Clone + PartialEq + PartialOrd, V: Clone, A: Allocator + Default> VectorMap<
    K,
    V,
    A,
    Less<K>,
> {
    /// Creates a vector map from clones of the pairs of a slice, like `from_vec`.
    pub fn from_slice(value: &[(K, V)]) -> (map: Self)
        requires
            Self::keys_in_order(),
        ensures
            map.wf(),
            map.spec_capacity() == value@.len(),
            exists|pairs: Seq<(K, V)>|
                Vector::<(K, V), A>::clones(value@, pairs) && map@ == #[trigger] Self::spec_fill(
                    Seq::empty(),
                    pairs,
                ),
    {
        let mut pairs: Vec<(K, V)> = Vec::new();
        pairs.extend_from_slice(value);
        Self::from_vec(pairs)
    }
}

impl<K: PartialEq + PartialOrd, V, A: Allocator + Default> Default for VectorMap<K, V, A, Less<K>> {
    fn default() -> (map: Self)
        ensures
            Self::keys_in_order() ==> map.wf(),
            map@ == Seq::<(K, V)>::empty(),
            map.spec_capacity() == 0,
    {
        Self { base: Vector::new(), _compare: Less::default() }
    }
}

impl<K: PartialEq, V, A: Allocator, C: Compare<K>> VectorMap<K, V, A, C> {
    /// The keys can be kept in order: the comparator puts them in a row, and two keys are
    /// equal to `==` exactly when they are the same.
    pub open spec fn keys_in_order() -> bool {
        &&& strict_total_order::<K, C>()
        &&& obeys_concrete_eq::<K>()
    }

    /// Every key of `entries` comes before the keys behind it.
    pub open spec fn sorted(entries: Seq<(K, V)>) -> bool {
        forall|i: int, j: int|
            0 <= i < j < entries.len() ==> #[trigger] C::less(&entries[i].0, &entries[j].0)
    }

    /// The place of `key` among the keys of `entries`, if it is one of them.
    pub open spec fn has_key_at(entries: Seq<(K, V)>, key: K, index: int) -> bool {
        0 <= index < entries.len() && entries[index].0 == key
    }

    /// `key` is one of the keys of `entries`.
    pub open spec fn has_key(entries: Seq<(K, V)>, key: K) -> bool {
        exists|i: int| Self::has_key_at(entries, key, i)
    }

    /// The place that parts `entries` at `key`: the place of the first key that does not
    /// come before `key`.
    pub open spec fn spec_lower_bound(entries: Seq<(K, V)>, key: K) -> int {
        choose|index: int| parts_at::<K, V, C>(entries, key, index)
    }

    /// The value that stands with `key` in `entries`, if the key is there.
    pub open spec fn spec_get(entries: Seq<(K, V)>, key: K) -> Option<V> {
        let index = Self::spec_lower_bound(entries, key);
        if Self::has_key_at(entries, key, index) {
            Some(entries[index].1)
        } else {
            None
        }
    }

    /// The sorted row `entries` after `pair` went in: its value in the place of the value
    /// that stands with its key if the key is there, and else the pair at the place that
    /// keeps the row sorted.
    pub open spec fn spec_put(entries: Seq<(K, V)>, pair: (K, V)) -> Seq<(K, V)> {
        let index = Self::spec_lower_bound(entries, pair.0);
        if Self::has_key_at(entries, pair.0, index) {
            entries.update(index, (entries[index].0, pair.1))
        } else {
            entries.insert(index, pair)
        }
    }

    /// The sorted row `entries` without the pair of `key`.
    pub open spec fn spec_take(entries: Seq<(K, V)>, key: K) -> Seq<(K, V)> {
        let index = Self::spec_lower_bound(entries, key);
        if Self::has_key_at(entries, key, index) {
            entries.remove(index)
        } else {
            entries
        }
    }

    /// The sorted row `entries` after the pairs `pairs` went in, one after the other.
    pub open spec fn spec_fill(entries: Seq<(K, V)>, pairs: Seq<(K, V)>) -> Seq<(K, V)>
        decreases pairs.len(),
    {
        if pairs.len() == 0 {
            entries
        } else {
            Self::spec_put(Self::spec_fill(entries, pairs.drop_last()), pairs.last())
        }
    }

    /// Only one place parts a row at a key.
    pub proof fn lemma_lower_bound(entries: Seq<(K, V)>, key: K, index: int)
        requires
            parts_at::<K, V, C>(entries, key, index),
        ensures
            Self::spec_lower_bound(entries, key) == index,
    {
        let chosen = Self::spec_lower_bound(entries, key);
        if chosen < index {
            assert(C::less(&entries[chosen].0, &key));
        }
        if index < chosen {
            assert(C::less(&entries[index].0, &key));
        }
    }

    /// The keys can be kept in order, and the pairs of the map stand in the order of their
    /// keys.
    pub closed spec fn wf(&self) -> bool {
        &&& Self::keys_in_order()
        &&& self.base.wf()
        &&& Self::sorted(self.base@)
    }

    /// The capacity of the vector map.
    pub closed spec fn spec_capacity(&self) -> usize {
        self.base.spec_capacity()
    }

    /// The capacity of the vector map after it took one more pair.
    pub open spec fn grown(&self) -> int {
        if self@.len() == self.spec_capacity() {
            if self.spec_capacity() == 0 {
                1
            } else {
                self.spec_capacity() * 2
            }
        } else {
            self.spec_capacity() as int
        }
    }

    /// The pairs of a map stand in the order of their keys, so no key is there twice.
    pub proof fn lemma_sorted(&self)
        requires
            self.wf(),
        ensures
            Self::keys_in_order(),
            Self::sorted(self@),
            forall|i: int, j: int|
                0 <= i < self@.len() && 0 <= j < self@.len() && #[trigger] self@[i].0
                    == #[trigger] self@[j].0 ==> i == j,
    {
        assert forall|i: int, j: int|
            0 <= i < self@.len() && 0 <= j < self@.len() && #[trigger] self@[i].0
                == #[trigger] self@[j].0 implies i == j by {
            lemma_order_irreflexive::<K, C>(self@[i].0);
            if i < j {
                assert(C::less(&self@[i].0, &self@[j].0));
            }
            if j < i {
                assert(C::less(&self@[j].0, &self@[i].0));
            }
        }
    }

    /// In a sorted row the keys that come before `key` stand before the others.
    pub proof fn lemma_parted(entries: Seq<(K, V)>, key: K)
        requires
            Self::keys_in_order(),
            Self::sorted(entries),
        ensures
            forall|i: int, j: int|
                0 <= i <= j < entries.len() && #[trigger] C::less(&entries[j].0, &key)
                    ==> #[trigger] C::less(&entries[i].0, &key),
    {
        assert forall|i: int, j: int|
            0 <= i <= j < entries.len() && #[trigger] C::less(
                &entries[j].0,
                &key,
            ) implies #[trigger] C::less(&entries[i].0, &key) by {
            if i < j {
                assert(C::less(&entries[i].0, &entries[j].0));
                lemma_order_transitive::<K, C>(entries[i].0, entries[j].0, key);
            }
        }
    }

    /// Where place `index` parts a sorted row at `key`, the key is at that place or nowhere,
    /// and every key from that place on that is not `key` comes behind it.
    pub proof fn lemma_parts(entries: Seq<(K, V)>, key: K, index: int)
        requires
            Self::keys_in_order(),
            Self::sorted(entries),
            parts_at::<K, V, C>(entries, key, index),
        ensures
            forall|i: int| Self::has_key_at(entries, key, i) ==> i == index,
            !Self::has_key_at(entries, key, index) ==> !Self::has_key(entries, key),
            forall|i: int|
                index <= i < entries.len() && entries[i].0 != key ==> #[trigger] C::less(
                    &key,
                    &entries[i].0,
                ),
    {
        assert forall|i: int| Self::has_key_at(entries, key, i) implies i == index by {
            lemma_order_irreflexive::<K, C>(key);
            if i < index {
                assert(C::less(&entries[i].0, &key));
            }
            if index < i {
                assert(C::less(&entries[index].0, &entries[i].0));
                assert(!C::less(&entries[index].0, &key));
            }
        }
        assert forall|i: int| index <= i < entries.len() && entries[i].0 != key implies #[trigger] C::less(
            &key,
            &entries[i].0,
        ) by {
            assert(!C::less(&entries[i].0, &key));
            lemma_order_total::<K, C>(key, entries[i].0);
        }
    }

    /// A sorted row stays sorted when a pair goes in at the place that parts it at the key
    /// of the pair, if the key is not there yet.
    pub proof fn lemma_insert_sorted(entries: Seq<(K, V)>, key: K, value: V, index: int)
        requires
            Self::keys_in_order(),
            Self::sorted(entries),
            parts_at::<K, V, C>(entries, key, index),
            !Self::has_key_at(entries, key, index),
        ensures
            Self::sorted(entries.insert(index, (key, value))),
    {
        Self::lemma_parts(entries, key, index);
        let after = entries.insert(index, (key, value));
        assert forall|i: int, j: int| 0 <= i < j < after.len() implies #[trigger] C::less(
            &after[i].0,
            &after[j].0,
        ) by {
            if j < index {
                assert(C::less(&entries[i].0, &entries[j].0));
            } else if j == index {
                assert(C::less(&entries[i].0, &key));
            } else if i < index {
                assert(C::less(&entries[i].0, &entries[j - 1].0));
            } else if i == index {
                assert(!Self::has_key_at(entries, key, j - 1));
                assert(C::less(&key, &entries[j - 1].0));
            } else {
                assert(C::less(&entries[i - 1].0, &entries[j - 1].0));
            }
        }
    }

    /// Returns the capacity of the vector map.
    pub fn capacity(&self) -> (capacity: usize)
        ensures
            capacity == self.spec_capacity(),
    {
        self.base.capacity()
    }

    /// Clears the map, removing all key-value pairs.
    pub fn clear(&mut self)
        requires
            old(self).wf(),
        ensures
            final(self).wf(),
            final(self)@ == Seq::<(K, V)>::empty(),
            final(self).spec_capacity() == 0,
    {
        self.base.clear()
    }

    /// Checks if the map contains the given key.
    pub fn contains_key(&self, key: &K) -> (found: bool)
        requires
            self.wf(),
        ensures
            found == Self::has_key(self@, *key),
    {
        self.get(key).is_some()
    }

    /// Fetches the associated value for a key.
    pub fn get(&self, key: &K) -> (value: Option<&V>)
        requires
            self.wf(),
        ensures
            value == match Self::spec_get(self@, *key) {
                Some(v) => Some(&v),
                None => None,
            },
            value.is_some() == Self::has_key(self@, *key),
    {
        let lower_bound = self.lower_bound(key);
        proof {
            reveal(obeys_concrete_eq);
            Self::lemma_parts(self@, *key, lower_bound as int);
            Self::lemma_lower_bound(self@, *key, lower_bound as int);
        }

        // make sure the bound is in-range
        match self.base.get(lower_bound) {
            Some(entry) => {
                if entry.0 == *key {
                    assert(Self::has_key_at(self@, *key, lower_bound as int));
                    Some(&entry.1)
                } else {
                    None
                }
            },
            None => None,
        }
    }

    /// Fetches the associated value for a key.
    pub fn get_mut(&mut self, key: &K) -> (value: Option<&mut V>)
        requires
            old(self).wf(),
        ensures
            final(self).wf(),
            final(self).spec_capacity() == old(self).spec_capacity(),
            match value {
                Some(v) => Self::spec_get(old(self)@, *key) == Some(*v) && final(self)@
                    == Self::spec_put(old(self)@, (*key, *final(v))),
                None => Self::spec_get(old(self)@, *key).is_none() && final(self)@ == old(self)@,
            },
    {
        let lower_bound = self.lower_bound(key);
        let ghost entries = self@;
        proof {
            reveal(obeys_concrete_eq);
            Self::lemma_parts(entries, *key, lower_bound as int);
            Self::lemma_lower_bound(entries, *key, lower_bound as int);
        }

        // make sure the bound is in-range
        let found = match self.base.get(lower_bound) {
            Some(entry) => entry.0 == *key,
            None => false,
        };
        if found {
            proof {
                assert(Self::has_key_at(entries, *key, lower_bound as int));
                assert forall|value: V| #![trigger entries.update(lower_bound as int, (entries[lower_bound as int].0, value))]
                    Self::sorted(
                    entries.update(lower_bound as int, (entries[lower_bound as int].0, value)),
                ) by {
                    let after = entries.update(
                        lower_bound as int,
                        (entries[lower_bound as int].0, value),
                    );
                    assert forall|i: int, j: int| 0 <= i < j < after.len() implies #[trigger] C::less(
                        &after[i].0,
                        &after[j].0,
                    ) by {
                        assert(C::less(&entries[i].0, &entries[j].0));
                    }
                }
            }
            match self.base.get_mut(lower_bound) {
                Some(entry) => Some(&mut entry.1),
                None => None,
            }
        } else {
            None
        }
    }

    /// Inserts the key-value pair into the vector map, returning the old value.
    pub fn insert(&mut self, key: K, value: V) -> (prev: Option<V>)
        requires
            old(self).wf(),
            old(self).grown() <= usize::MAX,
        ensures
            final(self).wf(),
            prev == Self::spec_get(old(self)@, key),
            final(self)@ == Self::spec_put(old(self)@, (key, value)),
            final(self)@.len() == if prev.is_some() {
                old(self)@.len()
            } else {
                old(self)@.len() + 1
            },
            prev.is_some() ==> final(self).spec_capacity() == old(self).spec_capacity(),
            prev.is_none() ==> final(self).spec_capacity() == old(self).grown(),
    {
        let ghost given = value;
        let mut value = value;
        // find the insertion point
        let lower_bound = self.lower_bound(&key);
        let ghost entries = self@;
        proof {
            reveal(obeys_concrete_eq);
            Self::lemma_parts(entries, key, lower_bound as int);
            Self::lemma_lower_bound(entries, key, lower_bound as int);
        }

        // if it already exists, just replace the value and return the old one
        let found = match self.base.get(lower_bound) {
            Some(entry) => entry.0 == key,
            None => false,
        };
        if found {
            match self.base.get_mut(lower_bound) {
                Some(entry) => {
                    core::mem::swap(&mut value, &mut entry.1);
                },
                None => {},
            }
            proof {
                assert(Self::has_key_at(entries, key, lower_bound as int));
                assert(self@ =~= entries.update(
                    lower_bound as int,
                    (entries[lower_bound as int].0, given),
                ));
                assert forall|i: int, j: int| 0 <= i < j < self@.len() implies #[trigger] C::less(
                    &self@[i].0,
                    &self@[j].0,
                ) by {
                    assert(C::less(&entries[i].0, &entries[j].0));
                }
            }

            Some(value)
        } else {
            // simply insert at the index
            proof {
                Self::lemma_insert_sorted(entries, key, value, lower_bound as int);
            }
            self.base.insert(lower_bound, (key, value));

            None
        }
    }

    /// Finds the entry in the map. Otherwise, returns an entry that can be used to insert the
    /// key-value pair without another lookup.
    pub fn entry(&mut self, key: K) -> (entry: Entry<'_, K, V, A, C>)
        requires
            old(self).wf(),
        ensures
            match entry {
                Entry::Occupied(occupied) => {
                    &&& Self::spec_get(old(self)@, key) == Some(occupied.0.1)
                    &&& *occupied.0 == old(self)@[Self::spec_lower_bound(old(self)@, key)]
                    &&& final(self)@ == old(self)@.update(
                        Self::spec_lower_bound(old(self)@, key),
                        *final(occupied.0),
                    )
                    &&& final(self).spec_capacity() == old(self).spec_capacity()
                    &&& final(occupied.0).0 == key ==> final(self).wf()
                },
                Entry::Vacant(vacant) => {
                    &&& Self::spec_get(old(self)@, key).is_none()
                    &&& vacant.wf()
                    &&& vacant.key == key
                    &&& vacant.lower_bound == Self::spec_lower_bound(old(self)@, key)
                    &&& *vacant.vec == *old(self)
                    &&& *final(self) == *final(vacant.vec)
                },
            },
    {
        // find the insertion point
        let lower_bound = self.lower_bound(&key);
        let ghost entries = self@;
        proof {
            reveal(obeys_concrete_eq);
            Self::lemma_parts(entries, key, lower_bound as int);
        }

        // if it already exists, just replace the value and return the old one
        let found = match self.base.get(lower_bound) {
            Some(entry) => entry.0 == key,
            None => false,
        };
        if found {
            proof {
                assert forall|pair: (K, V)| #![trigger entries.update(lower_bound as int, pair)]
                    pair.0 == key implies Self::sorted(
                    entries.update(lower_bound as int, pair),
                ) by {
                    let after = entries.update(lower_bound as int, pair);
                    assert forall|i: int, j: int| 0 <= i < j < after.len() implies #[trigger] C::less(
                        &after[i].0,
                        &after[j].0,
                    ) by {
                        assert(C::less(&entries[i].0, &entries[j].0));
                    }
                }
            }
            Entry::Occupied(OccupiedEntry(self.base.at_mut(lower_bound)))
        } else {
            Entry::Vacant(VacantEntry { vec: self, key, lower_bound })
        }
    }

    /// Puts a pair in at the place that parts the map at its key, and hands out its value.
    pub(crate) fn insert_at(&mut self, lower_bound: usize, key: K, value: V) -> (slot: &mut V)
        requires
            old(self).wf(),
            old(self).grown() <= usize::MAX,
            parts_at::<K, V, C>(old(self)@, key, lower_bound as int),
            !Self::has_key_at(old(self)@, key, lower_bound as int),
        ensures
            *slot == value,
            final(self).wf(),
            final(self)@ == old(self)@.insert(lower_bound as int, (key, *final(slot))),
    {
        let ghost entries = self@;
        proof {
            assert forall|given: V| #![trigger entries.insert(lower_bound as int, (key, given))]
                Self::sorted(entries.insert(lower_bound as int, (key, given))) by {
                Self::lemma_insert_sorted(entries, key, given, lower_bound as int);
            }
        }
        self.base.insert(lower_bound, (key, value));
        proof {
            let placed = self.base@;
            assert forall|given: V|
                #![trigger placed.update(lower_bound as int, (key, given))]
                placed.update(lower_bound as int, (key, given)) == entries.insert(
                    lower_bound as int,
                    (key, given),
                ) by {
                assert(placed.update(lower_bound as int, (key, given)) =~= entries.insert(
                    lower_bound as int,
                    (key, given),
                ));
            }
        }
        &mut self.base.at_mut(lower_bound).1
    }

    /// Returns true if the map is empty.
    pub fn is_empty(&self) -> (empty: bool)
        ensures
            empty == (self@.len() == 0),
    {
        self.base.is_empty()
    }

    /// Returns the number of key-value pairs in the map.
    pub fn len(&self) -> (len: usize)
        ensures
            len == self@.len(),
    {
        self.base.len()
    }

    /// Returns the pairs of the map as a slice, in the order of their keys.
    pub fn as_slice(&self) -> (slice: &[(K, V)])
        ensures
            slice@ == self@,
    {
        self.base.as_slice()
    }

    /// Removes a key-value pair from the map,
    /// returning the element if it was found.
    pub fn remove(&mut self, key: &K) -> (value: Option<V>)
        requires
            old(self).wf(),
        ensures
            final(self).wf(),
            final(self).spec_capacity() == old(self).spec_capacity(),
            value == Self::spec_get(old(self)@, *key),
            final(self)@ == Self::spec_take(old(self)@, *key),
    {
        match self.remove_entry(key) {
            Some(pair) => Some(pair.1),
            None => None,
        }
    }

    /// Removes a key-value pair from the map,
    /// returning the pair if it was found.
    pub fn remove_entry(&mut self, key: &K) -> (pair: Option<(K, V)>)
        requires
            old(self).wf(),
        ensures
            final(self).wf(),
            final(self).spec_capacity() == old(self).spec_capacity(),
            pair == match Self::spec_get(old(self)@, *key) {
                Some(v) => Some((old(self)@[Self::spec_lower_bound(old(self)@, *key)].0, v)),
                None => None,
            },
            final(self)@ == Self::spec_take(old(self)@, *key),
    {
        // find the entry
        let lower_bound = self.lower_bound(key);
        let ghost entries = self@;
        proof {
            reveal(obeys_concrete_eq);
            Self::lemma_parts(entries, *key, lower_bound as int);
            Self::lemma_lower_bound(entries, *key, lower_bound as int);
        }

        let found = match self.base.get(lower_bound) {
            Some(entry) => entry.0 == *key,
            None => false,
        };
        if found {
            let pair = self.base.remove(lower_bound);
            proof {
                assert(Self::has_key_at(entries, *key, lower_bound as int));
                assert forall|i: int, j: int| 0 <= i < j < self@.len() implies #[trigger] C::less(
                    &self@[i].0,
                    &self@[j].0,
                ) by {
                    let from = if i < lower_bound {
                        i
                    } else {
                        i + 1
                    };
                    let to = if j < lower_bound {
                        j
                    } else {
                        j + 1
                    };
                    assert(self@ == entries.remove(lower_bound as int));
                    assert(self@[i] == entries[from]);
                    assert(self@[j] == entries[to]);
                    assert(C::less(&entries[from].0, &entries[to].0));
                }
                assert(Self::sorted(self@));
            }
            pair
        } else {
            None
        }
    }

    /// Finds the index of the first value which is not smaller.
    pub fn lower_bound(&self, key: &K) -> (index: usize)
        requires
            self.wf(),
        ensures
            index == Self::spec_lower_bound(self@, *key),
            parts_at::<K, V, C>(self@, *key, index as int),
    {
        proof {
            Self::lemma_parted(self@, *key);
        }
        let index = lower_bound_by_key::<K, V, C>(self.base.as_slice(), key);
        proof {
            Self::lemma_lower_bound(self@, *key, index as int);
        }
        index
    }
}

impl<K: PartialEq, V, A: Allocator, C: Compare<K> + Default> VectorMap<K, V, A, C> {
    /// Creates a map backed by an allocator.
    pub fn new_in(allocator: A) -> (map: Self)
        requires
            Self::keys_in_order(),
        ensures
            map.wf(),
            map@ == Seq::<(K, V)>::empty(),
            map.spec_capacity() == 0,
    {
        Self { base: Vector::new_in(allocator), _compare: C::default() }
    }
}

impl<K: PartialEq, V, A: Allocator, C: Compare<K>> core::ops::Deref for VectorMap<K, V, A, C> {
    type Target = [(K, V)];

    fn deref(&self) -> (slice: &[(K, V)])
        ensures
            slice@ == self@,
    {
        self.as_slice()
    }
}

} // verus!
