use crate::allocator::Allocator;
use crate::equals::{EqualTo, Equals};
use crate::hash::DefaultHash;
use crate::internal::hash_table::iter::{
    bucket_pairs, holds_at, lemma_pairs_from, pairs_from, walk_from, CompatIter, Iter, IterMut,
};
use crate::internal::hash_table::entry::{Entry, VacantEntry};
use crate::internal::hash_table::node::Node;
use crate::internal::hash_table::rehash_policy::RehashPolicy;
use core::marker::PhantomData;
use vstd::prelude::*;

pub mod entry;
pub mod iter;
pub mod node;
pub mod rehash_policy;

verus! {

/// The bucket of `key` in a table of `count` buckets.
pub open spec fn bucket_of<K, H: crate::hash::Hash<K>>(count: int, key: K) -> int {
    (H::spec_hash(&key) as int) % count
}

/// The node at place `i` of `chain` holds `key`.
pub open spec fn chain_has<K: PartialEq, V>(chain: Seq<Node<K, V>>, key: K, i: int) -> bool {
    0 <= i < chain.len() && chain[i].key == key
}

/// The value that stands with `key` in `chain`, if the key is there.
pub open spec fn chain_get<K: PartialEq, V>(chain: Seq<Node<K, V>>, key: K) -> Option<V> {
    if exists|i: int| chain_has(chain, key, i) {
        Some(chain[choose|i: int| chain_has(chain, key, i)].val)
    } else {
        None
    }
}

/// No key stands twice in `chain`.
pub open spec fn distinct<K: PartialEq, V>(chain: Seq<Node<K, V>>) -> bool {
    forall|i: int, j: int|
        0 <= i < chain.len() && 0 <= j < chain.len() && i != j ==> (#[trigger] chain[i]).key != (
        #[trigger] chain[j]).key
}

/// Every node stands in the bucket of its key, and no key stands twice in a bucket.
pub open spec fn table_ok<K: PartialEq, V, H: crate::hash::Hash<K>>(
    buckets: Seq<Vec<Node<K, V>>>,
) -> bool {
    &&& 1 <= buckets.len() <= u32::MAX
    &&& forall|b: int| 0 <= b < buckets.len() ==> distinct((#[trigger] buckets[b])@)
    &&& forall|b: int, i: int|
        0 <= b < buckets.len() && 0 <= i < buckets[b]@.len() ==> bucket_of::<K, H>(
            buckets.len() as int,
            (#[trigger] buckets[b]@[i]).key,
        ) == b
}

/// The value that stands with `key` in the table, if the key is there.
pub open spec fn table_get<K: PartialEq, V, H: crate::hash::Hash<K>>(
    buckets: Seq<Vec<Node<K, V>>>,
    key: K,
) -> Option<V> {
    chain_get(buckets[bucket_of::<K, H>(buckets.len() as int, key)]@, key)
}

/// The pairs of the table as a map.
pub open spec fn table_map<K: PartialEq, V, H: crate::hash::Hash<K>>(
    buckets: Seq<Vec<Node<K, V>>>,
) -> Map<K, V> {
    Map::new(
        |key: K| table_get::<K, V, H>(buckets, key).is_some(),
        |key: K| table_get::<K, V, H>(buckets, key).unwrap(),
    )
}

/// The bucket of a key is one of the buckets.
pub proof fn lemma_bucket_of<K, H: crate::hash::Hash<K>>(count: int, key: K)
    requires
        count >= 1,
    ensures
        0 <= bucket_of::<K, H>(count, key) < count,
{
    vstd::arithmetic::div_mod::lemma_mod_bound(H::spec_hash(&key) as int, count);
}

/// In a row without a key twice, the value of a key is the value of the node that holds
/// it.
pub proof fn lemma_chain_get<K: PartialEq, V>(chain: Seq<Node<K, V>>, key: K, i: int)
    requires
        distinct(chain),
        chain_has(chain, key, i),
    ensures
        chain_get(chain, key) == Some(chain[i].val),
{
    let chosen = choose|j: int| chain_has(chain, key, j);
    if chosen != i {
        assert(chain[chosen].key != chain[i].key);
    }
}

/// A node with a new key at the head of a row leaves the other keys as they are.
pub proof fn lemma_chain_push<K: PartialEq, V>(chain: Seq<Node<K, V>>, node: Node<K, V>)
    requires
        distinct(chain),
        chain_get(chain, node.key).is_none(),
    ensures
        distinct(chain.push(node)),
        chain_get(chain.push(node), node.key) == Some(node.val),
        forall|key: K|
            key != node.key ==> #[trigger] chain_get(chain.push(node), key) == chain_get(chain, key),
{
    let after = chain.push(node);
    assert forall|i: int, j: int|
        0 <= i < after.len() && 0 <= j < after.len() && i != j implies (#[trigger] after[i]).key
        != (#[trigger] after[j]).key by {
        if i < chain.len() && j < chain.len() {
            assert(chain[i].key != chain[j].key);
        } else if i < chain.len() {
            assert(!chain_has(chain, node.key, i));
        } else {
            assert(!chain_has(chain, node.key, j));
        }
    }
    assert(chain_has(after, node.key, chain.len() as int));
    lemma_chain_get(after, node.key, chain.len() as int);
    assert forall|key: K| key != node.key implies #[trigger] chain_get(after, key) == chain_get(
        chain,
        key,
    ) by {
        if exists|i: int| chain_has(chain, key, i) {
            let i = choose|i: int| chain_has(chain, key, i);
            assert(chain_has(after, key, i));
            lemma_chain_get(after, key, i);
        } else {
            assert forall|i: int| !chain_has(after, key, i) by {
                if 0 <= i < chain.len() {
                    assert(!chain_has(chain, key, i));
                }
            }
        }
    }
}

/// Taking a node out of a row takes its key out, and leaves the other keys as they are.
pub proof fn lemma_chain_remove<K: PartialEq, V>(chain: Seq<Node<K, V>>, at: int)
    requires
        distinct(chain),
        0 <= at < chain.len(),
    ensures
        distinct(chain.remove(at)),
        chain_get(chain.remove(at), chain[at].key).is_none(),
        forall|key: K|
            key != chain[at].key ==> #[trigger] chain_get(chain.remove(at), key) == chain_get(
                chain,
                key,
            ),
{
    let after = chain.remove(at);
    assert forall|i: int| 0 <= i < after.len() implies #[trigger] after[i] == chain[if i < at {
        i
    } else {
        i + 1
    }] by {}
    assert forall|i: int, j: int|
        0 <= i < after.len() && 0 <= j < after.len() && i != j implies (#[trigger] after[i]).key
        != (#[trigger] after[j]).key by {
        let a = if i < at {
            i
        } else {
            i + 1
        };
        let b = if j < at {
            j
        } else {
            j + 1
        };
        assert(after[i] == chain[a]);
        assert(after[j] == chain[b]);
        assert(chain[a].key != chain[b].key);
    }
    assert forall|i: int| !chain_has(after, chain[at].key, i) by {
        if 0 <= i < after.len() {
            let a = if i < at {
                i
            } else {
                i + 1
            };
            assert(after[i] == chain[a]);
            assert(chain[a].key != chain[at].key);
        }
    }
    assert forall|key: K| key != chain[at].key implies #[trigger] chain_get(after, key)
        == chain_get(chain, key) by {
        if exists|i: int| chain_has(chain, key, i) {
            let i = choose|i: int| chain_has(chain, key, i);
            let to = if i < at {
                i
            } else {
                i - 1
            };
            assert(after[to] == chain[i]);
            assert(chain_has(after, key, to));
            lemma_chain_get(after, key, to);
        } else {
            assert forall|i: int| !chain_has(after, key, i) by {
                if 0 <= i < after.len() {
                    let a = if i < at {
                        i
                    } else {
                        i + 1
                    };
                    assert(after[i] == chain[a]);
                    assert(!chain_has(chain, key, a));
                }
            }
        }
    }
}

/// Another value in a node leaves the keys as they are, and the values of the other keys.
pub proof fn lemma_chain_update<K: PartialEq, V>(
    chain: Seq<Node<K, V>>,
    after: Seq<Node<K, V>>,
    at: int,
)
    requires
        distinct(chain),
        0 <= at < chain.len(),
        after.len() == chain.len(),
        after[at].key == chain[at].key,
        forall|i: int| 0 <= i < chain.len() && i != at ==> after[i] == chain[i],
    ensures
        distinct(after),
        chain_get(after, chain[at].key) == Some(after[at].val),
        forall|key: K|
            key != chain[at].key ==> #[trigger] chain_get(after, key) == chain_get(chain, key),
{
    assert forall|i: int, j: int|
        0 <= i < after.len() && 0 <= j < after.len() && i != j implies (#[trigger] after[i]).key
        != (#[trigger] after[j]).key by {
        assert(chain[i].key != chain[j].key);
    }
    assert(chain_has(after, chain[at].key, at));
    lemma_chain_get(after, chain[at].key, at);
    assert forall|key: K| key != chain[at].key implies #[trigger] chain_get(after, key)
        == chain_get(chain, key) by {
        if exists|i: int| chain_has(chain, key, i) {
            let i = choose|i: int| chain_has(chain, key, i);
            assert(chain_has(after, key, i));
            lemma_chain_get(after, key, i);
        } else {
            assert forall|i: int| !chain_has(after, key, i) by {
                if 0 <= i < after.len() {
                    assert(!chain_has(chain, key, i));
                }
            }
        }
    }
}

/// A base hashtable used to support hash maps and sets.
///
/// The array of buckets is a block of the allocator. A bucket keeps its nodes in a row, the
/// node that came last at the head.
pub struct HashTable<
    K: PartialEq,
    V,
    A: Allocator,
    P: RehashPolicy,
    H: crate::hash::Hash<K> = DefaultHash<K>,
    E: Equals<K> = EqualTo<K>,
> {
    bucket_array: Vec<Vec<Node<K, V>>>,
    bucket_count: u32,
    element_count: u32,
    rehash_policy: P,
    allocator: A,
    _markers: PhantomData<(H, E)>,
}

impl<
    K: PartialEq,
    V,
    A: Allocator,
    P: RehashPolicy,
    H: crate::hash::Hash<K>,
    E: Equals<K>,
> View for HashTable<K, V, A, P, H, E> {
    type V = Map<K, V>;

    /// The pairs of the table.
    closed spec fn view(&self) -> Map<K, V> {
        table_map::<K, V, H>(self.bucket_array@)
    }
}

impl<
    K: PartialEq,
    V,
    A: Allocator + Default,
    P: RehashPolicy + Default,
    H: crate::hash::Hash<K>,
    E: Equals<K>,
> HashTable<K, V, A, P, H, E> {
    /// Creates an empty hashtable.
    pub fn new() -> (table: Self)
        requires
            Self::keys_by_equality(),
        ensures
            table.wf(),
            table@ == Map::<K, V>::empty(),
            table.spec_len() == 0,
    {
        Self::new_in(A::default())
    }
}

impl<
    K: PartialEq,
    V,
    A: Allocator,
    P: RehashPolicy,
    H: crate::hash::Hash<K>,
    E: Equals<K>,
> HashTable<K, V, A, P, H, E> {
    /// The table can tell its keys apart: two keys count as equal exactly when they are
    /// the same.
    pub open spec fn keys_by_equality() -> bool {
        &&& E::obeys_equals_spec()
        &&& forall|a: K, b: K| #[trigger] E::equal(&a, &b) <==> a == b
    }

    /// The table can tell its keys apart, every node stands in the bucket of its key, and
    /// no key stands twice.
    pub closed spec fn wf(&self) -> bool {
        &&& Self::keys_by_equality()
        &&& self.bucket_array@.len() == self.bucket_count
        &&& table_ok::<K, V, H>(self.bucket_array@)
    }

    /// The buckets of the table.
    pub closed spec fn spec_buckets(&self) -> Seq<Vec<Node<K, V>>> {
        self.bucket_array@
    }

    /// The number of pairs that the table counts.
    pub closed spec fn spec_len(&self) -> u32 {
        self.element_count
    }

    /// The number of buckets of the table.
    pub closed spec fn spec_bucket_count(&self) -> u32 {
        self.bucket_count
    }

    /// Clears the hash table, removing all key-value pairs.
    pub fn clear(&mut self)
        requires
            old(self).wf(),
        ensures
            final(self).wf(),
            final(self)@ == Map::<K, V>::empty(),
            final(self).spec_len() == 0,
            final(self).spec_bucket_count() == old(self).spec_bucket_count(),
    {
        self.free_buckets();
        self.element_count = 0;
        proof {
            assert forall|key: K| table_get::<K, V, H>(self.bucket_array@, key).is_none() by {
                lemma_bucket_of::<K, H>(self.bucket_array@.len() as int, key);
            }
            assert(self@ =~= Map::<K, V>::empty());
        }
    }

    /// Checks if the hash table contains the given key.
    pub fn contains_key(&self, key: &K) -> (found: bool)
        requires
            self.wf(),
        ensures
            found == self@.dom().contains(*key),
    {
        self.get(key).is_some()
    }

    /// Gets the given key's corresponding entry in the map for in-place manipulation.
    pub fn entry(&mut self, key: K) -> (entry: Entry<'_, K, V, A, P, H, E>)
        requires
            old(self).wf(),
        ensures
            match entry {
                Entry::Occupied(node) => {
                    &&& old(self)@.dom().contains(key)
                    &&& node.key == key
                    &&& node.val == old(self)@[key]
                    &&& final(self).spec_len() == old(self).spec_len()
                    &&& final(node).key == key ==> final(self).wf() && final(self)@ == old(
                        self)@.insert(key, final(node).val)
                },
                Entry::Vacant(vacant) => {
                    &&& !old(self)@.dom().contains(key)
                    &&& vacant.key == key
                    &&& *vacant.table == *old(self)
                    &&& *final(self) == *final(vacant.table)
                },
            },
    {
        let target_bucket = Self::bucket_index(self.bucket_count, &key);
        let ghost buckets = self.bucket_array@;
        match Self::find_in_bucket(&self.bucket_array[target_bucket], &key) {
            Some(at) => {
                proof {
                    lemma_chain_get(buckets[target_bucket as int]@, key, at as int);
                    assert forall|now: Seq<Vec<Node<K, V>>>|
                        #![trigger now[target_bucket as int]]
                        Self::value_changed(
                            buckets,
                            now,
                            target_bucket as int,
                            at as int,
                        ) implies table_ok::<K, V, H>(now) && table_map::<K, V, H>(now)
                        == table_map::<K, V, H>(buckets).insert(
                        key,
                        now[target_bucket as int]@[at as int].val,
                    ) by {
                        Self::lemma_value_changed(buckets, now, target_bucket as int, at as int);
                    }
                }
                let chain = &mut self.bucket_array[target_bucket];
                Entry::Occupied(&mut chain[at])
            },
            None => Entry::Vacant(VacantEntry { table: self, key }),
        }
    }

    /// Inserts a pair with a key that the table does not hold, and hands out its value.
    pub(crate) fn insert_new(&mut self, key: K, value: V) -> (slot: &mut V)
        requires
            old(self).wf(),
            old(self).spec_len() < u32::MAX,
            !old(self)@.dom().contains(key),
        ensures
            *slot == value,
            final(self).wf(),
            final(self)@ == old(self)@.insert(key, *final(slot)),
            final(self).spec_len() == old(self).spec_len() + 1,
    {
        let target_bucket = Self::bucket_index(self.bucket_count, &key);
        let bucket = self.insert_impl(target_bucket, key, value);
        let at = self.bucket_array[bucket].len() - 1;
        proof {
            assert forall|after: V| #![trigger self@.insert(key, after)]
                self@.insert(key, after) == old(self)@.insert(key, after) by {
                assert(self@.insert(key, after) =~= old(self)@.insert(key, after));
            }
        }
        self.pair_mut(bucket, at).1
    }

    /// Fetches the associated value for a key.
    pub fn get(&self, key: &K) -> (pair: Option<(&K, &V)>)
        requires
            self.wf(),
        ensures
            pair.is_some() == self@.dom().contains(*key),
            pair.is_some() ==> *pair.unwrap().0 == *key && *pair.unwrap().1 == self@[*key],
    {
        let bucket = Self::bucket_index(self.bucket_count, key);
        match Self::find_in_bucket(&self.bucket_array[bucket], key) {
            Some(at) => {
                proof {
                    lemma_chain_get(self.bucket_array@[bucket as int]@, *key, at as int);
                }
                let node = &self.bucket_array[bucket][at];
                Some((node.key(), node.value()))
            },
            None => None,
        }
    }

    /// Fetches the associated value for a key.
    pub fn get_mut(&mut self, key: &K) -> (value: Option<&mut V>)
        requires
            old(self).wf(),
        ensures
            final(self).wf(),
            final(self).spec_len() == old(self).spec_len(),
            final(self).spec_bucket_count() == old(self).spec_bucket_count(),
            match value {
                Some(v) => old(self)@.dom().contains(*key) && *v == old(self)@[*key] && final(
                    self)@ == old(self)@.insert(*key, *final(v)),
                None => !old(self)@.dom().contains(*key) && final(self)@ == old(self)@,
            },
    {
        let bucket = Self::bucket_index(self.bucket_count, key);
        let ghost buckets = self.bucket_array@;
        match Self::find_in_bucket(&self.bucket_array[bucket], key) {
            Some(at) => {
                proof {
                    lemma_chain_get(buckets[bucket as int]@, *key, at as int);
                    assert forall|now: Seq<Vec<Node<K, V>>>|
                        #![trigger now[bucket as int]]
                        Self::value_changed(buckets, now, bucket as int, at as int) implies table_ok::<
                        K,
                        V,
                        H,
                    >(now) && table_map::<K, V, H>(now) == table_map::<K, V, H>(buckets).insert(
                        *key,
                        now[bucket as int]@[at as int].val,
                    ) by {
                        Self::lemma_value_changed(buckets, now, bucket as int, at as int);
                    }
                }
                let chain = &mut self.bucket_array[bucket];
                Some(chain[at].value_mut())
            },
            None => None,
        }
    }

    /// `now` is `buckets` with another value in the node at place `at` of bucket `bucket`.
    pub open spec fn value_changed(
        buckets: Seq<Vec<Node<K, V>>>,
        now: Seq<Vec<Node<K, V>>>,
        bucket: int,
        at: int,
    ) -> bool {
        &&& now.len() == buckets.len()
        &&& forall|b: int| 0 <= b < buckets.len() && b != bucket ==> now[b] == buckets[b]
        &&& now[bucket]@.len() == buckets[bucket]@.len()
        &&& now[bucket]@[at].key == buckets[bucket]@[at].key
        &&& forall|i: int|
            0 <= i < buckets[bucket]@.len() && i != at ==> now[bucket]@[i] == buckets[bucket]@[i]
    }

    /// Another value in a node puts that value in the place of the value of its key.
    pub proof fn lemma_value_changed(
        buckets: Seq<Vec<Node<K, V>>>,
        now: Seq<Vec<Node<K, V>>>,
        bucket: int,
        at: int,
    )
        requires
            table_ok::<K, V, H>(buckets),
            0 <= bucket < buckets.len(),
            0 <= at < buckets[bucket]@.len(),
            Self::value_changed(buckets, now, bucket, at),
        ensures
            table_ok::<K, V, H>(now),
            table_map::<K, V, H>(now) == table_map::<K, V, H>(buckets).insert(
                buckets[bucket]@[at].key,
                now[bucket]@[at].val,
            ),
    {
        let key = buckets[bucket]@[at].key;
        lemma_chain_update(buckets[bucket]@, now[bucket]@, at);
        assert forall|b: int| 0 <= b < now.len() implies distinct((#[trigger] now[b])@) by {
            if b != bucket {
                assert(distinct(buckets[b]@));
            }
        }
        assert forall|b: int, i: int| 0 <= b < now.len() && 0 <= i < now[b]@.len() implies bucket_of::<
            K,
            H,
        >(now.len() as int, (#[trigger] now[b]@[i]).key) == b by {
            assert(bucket_of::<K, H>(buckets.len() as int, buckets[b]@[i].key) == b);
        }
        assert(bucket_of::<K, H>(buckets.len() as int, buckets[bucket]@[at].key) == bucket);
        assert forall|k: K| #[trigger]
            table_get::<K, V, H>(now, k) == if k == key {
                Some(now[bucket]@[at].val)
            } else {
                table_get::<K, V, H>(buckets, k)
            } by {
            lemma_bucket_of::<K, H>(buckets.len() as int, k);
        }
        assert(table_map::<K, V, H>(now) =~= table_map::<K, V, H>(buckets).insert(
            key,
            now[bucket]@[at].val,
        ));
    }

    /// Inserts the key-value pair into the hash table.
    pub fn insert(&mut self, key: K, value: V) -> (prev: Option<V>)
        requires
            old(self).wf(),
            old(self).spec_len() < u32::MAX,
        ensures
            final(self).wf(),
            final(self)@ == old(self)@.insert(key, value),
            prev == if old(self)@.dom().contains(key) {
                Some(old(self)@[key])
            } else {
                None
            },
            final(self).spec_len() == if prev.is_some() {
                old(self).spec_len() as int
            } else {
                old(self).spec_len() + 1
            },
    {
        let target_bucket = Self::bucket_index(self.bucket_count, &key);
        let ghost buckets = self.bucket_array@;
        match Self::find_in_bucket(&self.bucket_array[target_bucket], &key) {
            Some(at) => {
                let mut value = value;
                proof {
                    lemma_chain_get(buckets[target_bucket as int]@, key, at as int);
                }
                let chain = &mut self.bucket_array[target_bucket];
                core::mem::swap(&mut chain[at].val, &mut value);
                proof {
                    Self::lemma_value_changed(
                        buckets,
                        self.bucket_array@,
                        target_bucket as int,
                        at as int,
                    );
                }
                Some(value)
            },
            None => {
                let _ = self.insert_impl(target_bucket, key, value);

                None
            },
        }
    }

    /// Returns true if the hash table is empty.
    pub fn is_empty(&self) -> (empty: bool)
        ensures
            empty == (self.spec_len() == 0),
    {
        self.len() == 0
    }

    /// The pairs of the table in the order of a walk: bucket by bucket, and from the head of
    /// each bucket on.
    pub closed spec fn spec_pairs(&self) -> Seq<(K, V)> {
        pairs_from(self.bucket_array@, 0)
    }

    /// A walk over the table comes by the pairs of the table, and by no others.
    pub proof fn lemma_pairs(&self)
        requires
            self.wf(),
        ensures
            forall|pair: (K, V)|
                #[trigger] self.spec_pairs().contains(pair) <==> self@.dom().contains(pair.0)
                    && self@[pair.0] == pair.1,
    {
        let buckets = self.bucket_array@;
        lemma_pairs_from(buckets, 0);
        assert forall|pair: (K, V)|
            #[trigger] self.spec_pairs().contains(pair) <==> self@.dom().contains(pair.0)
                && self@[pair.0] == pair.1 by {
            lemma_bucket_of::<K, H>(buckets.len() as int, pair.0);
            let home = bucket_of::<K, H>(buckets.len() as int, pair.0);
            if self.spec_pairs().contains(pair) {
                let (c, j) = choose|c: int, j: int| #[trigger] holds_at(buckets, 0, c, j, pair);
                assert(bucket_of::<K, H>(buckets.len() as int, buckets[c]@[j].key) == c);
                assert(chain_has(buckets[c]@, pair.0, j));
                lemma_chain_get(buckets[c]@, pair.0, j);
            }
            if self@.dom().contains(pair.0) && self@[pair.0] == pair.1 {
                let j = choose|j: int| chain_has(buckets[home]@, pair.0, j);
                lemma_chain_get(buckets[home]@, pair.0, j);
                assert(holds_at(buckets, 0, home, j, pair));
            }
        }
    }

    /// Returns an iterator over the hash table's
    /// key-value pairs.
    pub fn iter(&self) -> (iter: Iter<'_, K, V>)
        ensures
            iter.wf(),
            iter@ == self.spec_pairs(),
    {
        Iter::new(&self.bucket_array)
    }

    /// Returns an iterator over the hash table's
    /// key-value pairs, where the values are
    /// mutable.
    pub fn iter_mut(&mut self) -> (iter: IterMut<'_, K, V, A, P, H, E>)
        requires
            old(self).wf(),
        ensures
            iter.wf(),
            iter@ == old(self).spec_pairs(),
            *iter.table == *old(self),
            *final(self) == *final(iter.table),
    {
        let mut bucket: usize = 0;
        let mut left: usize = self.bucket_array[0].len();
        proof {
            assert(bucket_pairs(self.bucket_array@[0]@, left as int) + pairs_from(
                self.bucket_array@,
                1,
            ) =~= pairs_from(self.bucket_array@, 0));
        }
        while left == 0 && bucket < self.bucket_array.len()
            invariant
                bucket <= self.bucket_array@.len(),
                bucket < self.bucket_array@.len() ==> left
                    <= self.bucket_array@[bucket as int]@.len(),
                bucket == self.bucket_array@.len() ==> left == 0,
                walk_from(self.bucket_array@, bucket as int, left as int) == pairs_from(
                    self.bucket_array@,
                    0,
                ),
            decreases self.bucket_array@.len() - bucket,
        {
            proof {
                let chain = self.bucket_array@[bucket as int]@;
                assert(bucket_pairs(chain, 0) + pairs_from(self.bucket_array@, bucket + 1)
                    =~= pairs_from(self.bucket_array@, bucket + 1));
            }
            bucket = bucket + 1;
            if bucket < self.bucket_array.len() {
                left = self.bucket_array[bucket].len();
            }
        }
        IterMut { table: self, bucket, left }
    }

    /// A look at the key of the node at place `at` of bucket `bucket`, and a mutable look at
    /// its value.
    pub(crate) fn pair_mut(&mut self, bucket: usize, at: usize) -> (pair: (&K, &mut V))
        requires
            old(self).wf(),
            bucket < old(self).spec_buckets().len(),
            at < old(self).spec_buckets()[bucket as int]@.len(),
        ensures
            final(self).wf(),
            final(self).spec_len() == old(self).spec_len(),
            final(self).spec_bucket_count() == old(self).spec_bucket_count(),
            *pair.0 == old(self).spec_buckets()[bucket as int]@[at as int].key,
            *pair.1 == old(self).spec_buckets()[bucket as int]@[at as int].val,
            final(self).spec_buckets()[bucket as int]@[at as int].val == *final(pair.1),
            Self::value_changed(
                old(self).spec_buckets(),
                final(self).spec_buckets(),
                bucket as int,
                at as int,
            ),
            final(self)@ == old(self)@.insert(*pair.0, *final(pair.1)),
    {
        let ghost buckets = self.bucket_array@;
        proof {
            assert forall|now: Seq<Vec<Node<K, V>>>|
                #![trigger now[bucket as int]]
                Self::value_changed(buckets, now, bucket as int, at as int) implies table_ok::<
                K,
                V,
                H,
            >(now) && table_map::<K, V, H>(now) == table_map::<K, V, H>(buckets).insert(
                buckets[bucket as int]@[at as int].key,
                now[bucket as int]@[at as int].val,
            ) by {
                Self::lemma_value_changed(buckets, now, bucket as int, at as int);
            }
        }
        let chain = &mut self.bucket_array[bucket];
        let node = &mut chain[at];
        (&node.key, &mut node.val)
    }

    /// A table that is in order has as many buckets as it counts.
    pub proof fn lemma_bucket_count(&self)
        requires
            self.wf(),
        ensures
            self.spec_buckets().len() == self.spec_bucket_count(),
            self.spec_bucket_count() >= 1,
            self.spec_pairs() == pairs_from(self.spec_buckets(), 0),
    {
    }

    /// Returns the number of nodes of bucket `bucket`.
    pub(crate) fn bucket_len(&self, bucket: usize) -> (len: usize)
        requires
            bucket < self.spec_buckets().len(),
        ensures
            len == self.spec_buckets()[bucket as int]@.len(),
    {
        self.bucket_array[bucket].len()
    }

    /// Returns the iterator that walks the table from the place `begin` on, or `None`
    /// where the places are not places of the table.
    pub fn iter_from_compat(&self, begin: CompatIter, end: CompatIter) -> (iter: Option<
        Iter<'_, K, V>,
    >)
        ensures
            iter.is_some() <==> Iter::<K, V>::places(self.spec_buckets(), begin, end),
            iter.is_some() ==> iter.unwrap().wf() && iter.unwrap()@ == walk_from(
                self.spec_buckets(),
                begin.bucket_ptr as int,
                begin.node_ptr as int,
            ),
    {
        Iter::from_compat(&self.bucket_array, begin, end)
    }

    /// Returns the mutable iterator that walks the table from the place `begin` on, or
    /// `None` where the places are not places of the table.
    pub fn iter_mut_from_compat(&mut self, begin: CompatIter, end: CompatIter) -> (iter: Option<
        IterMut<'_, K, V, A, P, H, E>,
    >)
        requires
            old(self).wf(),
        ensures
            iter.is_some() <==> Iter::<K, V>::places(old(self).spec_buckets(), begin, end),
            match iter {
                Some(iter) => {
                    &&& iter.wf()
                    &&& iter.bucket == begin.bucket_ptr
                    &&& iter.left == begin.node_ptr
                    &&& *iter.table == *old(self)
                    &&& *final(self) == *final(iter.table)
                },
                None => *final(self) == *old(self),
            },
    {
        if end.bucket_ptr != self.bucket_array.len() || end.node_ptr != 0 || begin.bucket_ptr
            > self.bucket_array.len() {
            return None;
        }
        if begin.bucket_ptr == self.bucket_array.len() {
            if begin.node_ptr != 0 {
                return None;
            }
        } else if begin.node_ptr == 0 || begin.node_ptr > self.bucket_array[begin.bucket_ptr].len() {
            return None;
        }
        Some(IterMut { table: self, bucket: begin.bucket_ptr, left: begin.node_ptr })
    }

    /// Returns the number of elements in the hash table.
    pub fn len(&self) -> (len: usize)
        ensures
            len == self.spec_len(),
    {
        self.element_count as usize
    }

    /// Returns the number of buckets in the hash table.
    pub fn bucket_count(&self) -> (count: u32)
        ensures
            count == self.spec_bucket_count(),
    {
        self.bucket_count
    }

    /// Removes a key-value pair from the hash table,
    /// returning the element if it was found.
    pub fn remove(&mut self, key: &K) -> (value: Option<V>)
        requires
            old(self).wf(),
        ensures
            final(self).wf(),
            final(self)@ == old(self)@.remove(*key),
            value == if old(self)@.dom().contains(*key) {
                Some(old(self)@[*key])
            } else {
                None
            },
            final(self).spec_bucket_count() == old(self).spec_bucket_count(),
    {
        match self.remove_entry(key) {
            Some(pair) => Some(pair.1),
            None => None,
        }
    }

    /// Removes a key-value pair from the hash table,
    /// returning the pair if it was found.
    pub fn remove_entry(&mut self, key: &K) -> (pair: Option<(K, V)>)
        requires
            old(self).wf(),
        ensures
            final(self).wf(),
            final(self)@ == old(self)@.remove(*key),
            pair == if old(self)@.dom().contains(*key) {
                Some((*key, old(self)@[*key]))
            } else {
                None
            },
            final(self).spec_bucket_count() == old(self).spec_bucket_count(),
    {
        let bucket = Self::bucket_index(self.bucket_count, key);
        let ghost buckets = self.bucket_array@;
        match Self::find_in_bucket(&self.bucket_array[bucket], key) {
            None => {
                assert(self@ =~= old(self)@.remove(*key));
                None
            },
            Some(at) => {
                let chain = &mut self.bucket_array[bucket];
                let node = chain.remove(at);
                if self.element_count > 0 {
                    self.element_count = self.element_count - 1;
                }
                proof {
                    let now = self.bucket_array@;
                    lemma_chain_get(buckets[bucket as int]@, *key, at as int);
                    lemma_chain_remove(buckets[bucket as int]@, at as int);
                    assert forall|b: int| 0 <= b < now.len() implies distinct(
                        (#[trigger] now[b])@,
                    ) by {
                        if b != bucket {
                            assert(distinct(buckets[b]@));
                        }
                    }
                    assert forall|b: int, i: int|
                        0 <= b < now.len() && 0 <= i < now[b]@.len() implies bucket_of::<K, H>(
                        now.len() as int,
                        (#[trigger] now[b]@[i]).key,
                    ) == b by {
                        if b == bucket {
                            let from = if i < at {
                                i
                            } else {
                                i + 1
                            };
                            assert(now[b]@[i] == buckets[b]@[from]);
                            assert(bucket_of::<K, H>(
                                buckets.len() as int,
                                buckets[b]@[from].key,
                            ) == b);
                        } else {
                            assert(bucket_of::<K, H>(buckets.len() as int, buckets[b]@[i].key)
                                == b);
                        }
                    }
                    assert forall|k: K| #[trigger]
                        table_get::<K, V, H>(now, k) == if k == *key {
                            None
                        } else {
                            table_get::<K, V, H>(buckets, k)
                        } by {
                        lemma_bucket_of::<K, H>(buckets.len() as int, k);
                    }
                    assert(self@ =~= old(self)@.remove(*key));
                }
                Some((node.key, node.val))
            },
        }
    }

    /// Returns the index of the bucket for the given
    /// hash key.
    pub fn bucket_index(bucket_count: u32, key: &K) -> (bucket: usize)
        requires
            bucket_count >= 1,
        ensures
            bucket == bucket_of::<K, H>(bucket_count as int, *key),
            bucket < bucket_count,
    {
        let key_hash = H::hash(key);
        proof {
            lemma_bucket_of::<K, H>(bucket_count as int, *key);
        }
        key_hash % bucket_count as usize
    }

    /// Finds the place of a key's node in a bucket, from the head on.
    pub fn find_in_bucket(bucket: &Vec<Node<K, V>>, key: &K) -> (at: Option<usize>)
        requires
            Self::keys_by_equality(),
        ensures
            match at {
                Some(at) => chain_has(bucket@, *key, at as int),
                None => forall|i: int| !chain_has(bucket@, *key, i),
            },
    {
        let mut at = bucket.len();
        while at > 0
            invariant
                Self::keys_by_equality(),
                at <= bucket@.len(),
                forall|i: int| at <= i < bucket@.len() ==> bucket@[i].key != *key,
            decreases at,
        {
            at = at - 1;
            if E::equals(bucket[at].key(), key) {
                return Some(at);
            }
        }
        None
    }

    /// Frees all buckets.
    fn free_buckets(&mut self)
        requires
            old(self).wf(),
        ensures
            final(self).wf(),
            final(self).spec_len() == old(self).spec_len(),
            final(self).spec_bucket_count() == old(self).spec_bucket_count(),
            forall|b: int|
                0 <= b < final(self).bucket_array@.len() ==> (#[trigger] final(
                    self).bucket_array@[b])@.len() == 0,
    {
        if self.bucket_count > 1 {
            let mut b: usize = 0;
            while b < self.bucket_array.len()
                invariant
                    b <= self.bucket_array@.len(),
                    self.bucket_array@.len() == old(self).bucket_array@.len(),
                    self.bucket_count == old(self).bucket_count,
                    self.element_count == old(self).element_count,
                    forall|i: int| 0 <= i < b ==> (#[trigger] self.bucket_array@[i])@.len() == 0,
                    forall|i: int|
                        b <= i < self.bucket_array@.len() ==> #[trigger] self.bucket_array@[i]
                            == old(self).bucket_array@[i],
                decreases self.bucket_array@.len() - b,
            {
                // drop the nodes of the bucket
                self.bucket_array[b].clear();
                b = b + 1;
            }
        } else {
            self.bucket_array[0].clear();
        }
    }

    /// Inserts a key-value pair into the hash-table, at the head of its bucket.
    fn insert_impl(&mut self, target_bucket: usize, key: K, value: V) -> (bucket: usize)
        requires
            old(self).wf(),
            old(self).spec_len() < u32::MAX,
            !old(self)@.dom().contains(key),
        ensures
            final(self).wf(),
            final(self)@ == old(self)@.insert(key, value),
            final(self).spec_len() == old(self).spec_len() + 1,
            bucket < final(self).bucket_array@.len(),
            final(self).bucket_array@[bucket as int]@.len() > 0,
            final(self).bucket_array@[bucket as int]@.last().key == key,
            final(self).bucket_array@[bucket as int]@.last().val == value,
    {
        let mut target_bucket = target_bucket;
        // check if we need to re-hash
        if let Some(bucket_count) = self.rehash_policy.get_rehash_required(
            self.bucket_count,
            self.element_count,
            1,
        ) {
            if bucket_count > 0 {
                self.rehash(bucket_count);
            }
        }
        // update the target bucket
        target_bucket = Self::bucket_index(self.bucket_count, &key);
        let ghost buckets = self.bucket_array@;
        // add a new node to the bucket
        let node = Node::<K, V>::new(key, value);
        self.bucket_array[target_bucket].push(node);
        self.element_count = self.element_count + 1;
        proof {
            let now = self.bucket_array@;
            lemma_chain_push(buckets[target_bucket as int]@, node);
            assert forall|b: int| 0 <= b < now.len() implies distinct((#[trigger] now[b])@) by {
                if b != target_bucket {
                    assert(distinct(buckets[b]@));
                }
            }
            assert forall|b: int, i: int|
                0 <= b < now.len() && 0 <= i < now[b]@.len() implies bucket_of::<K, H>(
                now.len() as int,
                (#[trigger] now[b]@[i]).key,
            ) == b by {
                if b == target_bucket && i == buckets[b]@.len() {
                } else {
                    assert(bucket_of::<K, H>(buckets.len() as int, buckets[b]@[i].key) == b);
                }
            }
            assert forall|k: K| #[trigger]
                table_get::<K, V, H>(now, k) == if k == key {
                    Some(value)
                } else {
                    table_get::<K, V, H>(buckets, k)
                } by {
                lemma_bucket_of::<K, H>(buckets.len() as int, k);
            }
            assert(self@ =~= old(self)@.insert(key, value));
        }
        target_bucket
    }

    /// Creates a hash table backed by an allocator.
    pub fn with_allocator(allocator: A) -> (table: Self) where P: Default
        requires
            Self::keys_by_equality(),
        ensures
            table.wf(),
            table@ == Map::<K, V>::empty(),
            table.spec_len() == 0,
            table.spec_bucket_count() == 1,
    {
        Self::new_in(allocator)
    }

    /// Creates a hash table backed by an allocator.
    pub fn new_in(allocator: A) -> (table: Self) where P: Default
        requires
            Self::keys_by_equality(),
        ensures
            table.wf(),
            table@ == Map::<K, V>::empty(),
            table.spec_len() == 0,
            table.spec_bucket_count() == 1,
    {
        let mut bucket_array = Vec::new();
        bucket_array.push(Vec::new());
        let table = Self {
            bucket_array,
            bucket_count: 1,
            element_count: 0,
            rehash_policy: P::default(),
            allocator,
            _markers: PhantomData,
        };
        proof {
            assert forall|key: K| table_get::<K, V, H>(table.bucket_array@, key).is_none() by {
                lemma_bucket_of::<K, H>(1, key);
            }
            assert(table@ =~= Map::<K, V>::empty());
        }
        table
    }

    /// The value of `key` in the buckets `from`, or else in the buckets `to`.
    pub open spec fn moving_get(
        from: Seq<Vec<Node<K, V>>>,
        to: Seq<Vec<Node<K, V>>>,
        key: K,
    ) -> Option<V> {
        if table_get::<K, V, H>(from, key).is_some() {
            table_get::<K, V, H>(from, key)
        } else {
            table_get::<K, V, H>(to, key)
        }
    }

    /// Rehash the table with a new bucket count.
    fn rehash(&mut self, bucket_count: u32)
        requires
            old(self).wf(),
            bucket_count >= 1,
        ensures
            final(self).wf(),
            final(self)@ == old(self)@,
            final(self).spec_len() == old(self).spec_len(),
            final(self).spec_bucket_count() == bucket_count,
    {
        let mut new_buckets = self.allocator.allocate::<Vec<Node<K, V>>>(bucket_count as usize);
        new_buckets.clear();
        let mut n: u32 = 0;
        while n < bucket_count
            invariant
                n <= bucket_count,
                new_buckets@.len() == n,
                forall|b: int| 0 <= b < n ==> (#[trigger] new_buckets@[b])@.len() == 0,
            decreases bucket_count - n,
        {
            new_buckets.push(Vec::new());
            n = n + 1;
        }
        let ghost orig = self.bucket_array@;
        proof {
            assert forall|key: K| table_get::<K, V, H>(new_buckets@, key).is_none() by {
                lemma_bucket_of::<K, H>(bucket_count as int, key);
            }
        }
        // transfer nodes over
        let mut b: usize = 0;
        while b < self.bucket_array.len()
            invariant
                Self::keys_by_equality(),
                b <= self.bucket_array@.len(),
                self.bucket_array@.len() == orig.len(),
                self.bucket_count == old(self).bucket_count,
                self.element_count == old(self).element_count,
                new_buckets@.len() == bucket_count,
                bucket_count >= 1,
                table_ok::<K, V, H>(self.bucket_array@),
                table_ok::<K, V, H>(new_buckets@),
                forall|i: int| 0 <= i < b ==> (#[trigger] self.bucket_array@[i])@.len() == 0,
                forall|key: K|
                    !(table_get::<K, V, H>(self.bucket_array@, key).is_some() && table_get::<
                        K,
                        V,
                        H,
                    >(new_buckets@, key).is_some()) && #[trigger] Self::moving_get(
                        self.bucket_array@,
                        new_buckets@,
                        key,
                    ) == table_get::<K, V, H>(orig, key),
            decreases self.bucket_array@.len() - b,
        {
            while self.bucket_array[b].len() > 0
                invariant
                    Self::keys_by_equality(),
                    b < self.bucket_array@.len(),
                    self.bucket_array@.len() == orig.len(),
                    self.bucket_count == old(self).bucket_count,
                    self.element_count == old(self).element_count,
                    new_buckets@.len() == bucket_count,
                    bucket_count >= 1,
                    table_ok::<K, V, H>(self.bucket_array@),
                    table_ok::<K, V, H>(new_buckets@),
                    forall|i: int| 0 <= i < b ==> (#[trigger] self.bucket_array@[i])@.len() == 0,
                    forall|key: K|
                        !(table_get::<K, V, H>(self.bucket_array@, key).is_some() && table_get::<
                            K,
                            V,
                            H,
                        >(new_buckets@, key).is_some()) && #[trigger] Self::moving_get(
                            self.bucket_array@,
                            new_buckets@,
                            key,
                        ) == table_get::<K, V, H>(orig, key),
                decreases self.bucket_array@[b as int]@.len(),
            {
                let ghost from = self.bucket_array@;
                let ghost to = new_buckets@;
                let node = self.bucket_array[b].pop().unwrap();
                let new_index = Self::bucket_index(bucket_count, node.key());
                new_buckets[new_index].push(node);
                proof {
                    assert forall|key: K|
                        !(#[trigger] table_get::<K, V, H>(from, key).is_some() && table_get::<
                            K,
                            V,
                            H,
                        >(to, key).is_some()) by {
                        assert(Self::moving_get(from, to, key) == table_get::<K, V, H>(orig, key));
                    }
                    Self::lemma_moved(
                        from,
                        to,
                        self.bucket_array@,
                        new_buckets@,
                        b as int,
                        new_index as int,
                    );
                }
            }
            b = b + 1;
        }
        // free the old buckets before setting new ones
        core::mem::swap(&mut self.bucket_array, &mut new_buckets);
        self.allocator.deallocate(new_buckets);
        self.bucket_count = bucket_count;
        proof {
            let emptied = new_buckets@;
            assert forall|key: K| #[trigger]
                table_get::<K, V, H>(self.bucket_array@, key) == table_get::<K, V, H>(
                    orig,
                    key,
                ) by {
                lemma_bucket_of::<K, H>(orig.len() as int, key);
                assert(Self::moving_get(emptied, self.bucket_array@, key) == table_get::<K, V, H>(
                    orig,
                    key,
                ));
                assert(emptied[bucket_of::<K, H>(orig.len() as int, key)]@.len() == 0);
            }
            assert(self@ =~= old(self)@);
        }
    }

    /// Moving the node at the head of bucket `b` of `from` to the head of its bucket in
    /// `to` keeps both tables in order, and the value of every key in one of them.
    pub proof fn lemma_moved(
        from: Seq<Vec<Node<K, V>>>,
        to: Seq<Vec<Node<K, V>>>,
        from_now: Seq<Vec<Node<K, V>>>,
        to_now: Seq<Vec<Node<K, V>>>,
        b: int,
        new_index: int,
    )
        requires
            table_ok::<K, V, H>(from),
            table_ok::<K, V, H>(to),
            0 <= b < from.len(),
            from[b]@.len() > 0,
            new_index == bucket_of::<K, H>(to.len() as int, from[b]@.last().key),
            from_now.len() == from.len(),
            to_now.len() == to.len(),
            forall|i: int| 0 <= i < from.len() && i != b ==> from_now[i] == from[i],
            from_now[b]@ == from[b]@.drop_last(),
            forall|i: int| 0 <= i < to.len() && i != new_index ==> to_now[i] == to[i],
            to_now[new_index]@ == to[new_index]@.push(from[b]@.last()),
            forall|key: K|
                !(#[trigger] table_get::<K, V, H>(from, key).is_some() && table_get::<K, V, H>(
                    to,
                    key,
                ).is_some()),
        ensures
            table_ok::<K, V, H>(from_now),
            table_ok::<K, V, H>(to_now),
            forall|key: K|
                !(table_get::<K, V, H>(from_now, key).is_some() && table_get::<K, V, H>(
                    to_now,
                    key,
                ).is_some()) && #[trigger] Self::moving_get(from_now, to_now, key)
                    == Self::moving_get(from, to, key),
    {
        let node = from[b]@.last();
        let last = from[b]@.len() - 1;
        lemma_bucket_of::<K, H>(to.len() as int, node.key);
        assert(bucket_of::<K, H>(from.len() as int, from[b]@[last].key) == b);
        lemma_chain_get(from[b]@, node.key, last);
        assert(table_get::<K, V, H>(from, node.key).is_some());
        assert(table_get::<K, V, H>(to, node.key).is_none());
        assert(from[b]@.remove(last) =~= from[b]@.drop_last());
        lemma_chain_remove(from[b]@, last);
        lemma_chain_push(to[new_index]@, node);
        assert forall|i: int| 0 <= i < from_now.len() implies distinct((#[trigger] from_now[i])@) by {
            if i != b {
                assert(distinct(from[i]@));
            }
        }
        assert forall|i: int, j: int|
            0 <= i < from_now.len() && 0 <= j < from_now[i]@.len() implies bucket_of::<K, H>(
            from_now.len() as int,
            (#[trigger] from_now[i]@[j]).key,
        ) == i by {
            assert(bucket_of::<K, H>(from.len() as int, from[i]@[j].key) == i);
        }
        assert forall|i: int| 0 <= i < to_now.len() implies distinct((#[trigger] to_now[i])@) by {
            if i != new_index {
                assert(distinct(to[i]@));
            }
        }
        assert forall|i: int, j: int|
            0 <= i < to_now.len() && 0 <= j < to_now[i]@.len() implies bucket_of::<K, H>(
            to_now.len() as int,
            (#[trigger] to_now[i]@[j]).key,
        ) == i by {
            if i == new_index && j == to[i]@.len() {
            } else {
                assert(bucket_of::<K, H>(to.len() as int, to[i]@[j].key) == i);
            }
        }
        assert forall|key: K|
            !(table_get::<K, V, H>(from_now, key).is_some() && table_get::<K, V, H>(
                to_now,
                key,
            ).is_some()) && #[trigger] Self::moving_get(from_now, to_now, key)
                == Self::moving_get(from, to, key) by {
            lemma_bucket_of::<K, H>(from.len() as int, key);
            lemma_bucket_of::<K, H>(to.len() as int, key);
            assert(!(table_get::<K, V, H>(from, key).is_some() && table_get::<K, V, H>(
                to,
                key,
            ).is_some()));
        }
    }
}

} // verus!
