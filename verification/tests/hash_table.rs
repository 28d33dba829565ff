use eastl_rs::deque::DefaultDeque;
use eastl_rs::hash::DefaultHash;
use eastl_rs::internal::hash_table::rehash_policy::RehashPolicy;
use eastl_rs::internal::hash_table::HashTable;
use eastl_rs::internal::rb_tree::RBTree;
use eastl_rs::list::DefaultList;
use eastl_rs::string::DefaultString;
use eastl_rs::{DefaultAllocator, HashMap, HashSet};
use std::cell::Cell;
use std::collections::BTreeMap;

/// A policy that keeps a prime number of buckets, with no more pairs than buckets.
#[derive(Default)]
struct Primes {
    next_resize: u32,
}

const PRIMES: [u32; 12] = [2, 3, 5, 7, 11, 13, 17, 19, 23, 29, 31, 37];

impl RehashPolicy for Primes {
    fn get_rehash_required(
        &mut self,
        mut bucket_count: u32,
        element_count: u32,
        element_add: u32,
    ) -> Option<u32> {
        if (element_count + element_add) > self.next_resize {
            // an empty hash table has 1 "bucket" so we need to force a rehash
            if bucket_count == 1 {
                bucket_count = 0;
            }
            let mut min_bucket_count = element_count + element_add;
            if min_bucket_count > bucket_count {
                // we need to grow the hashtable
                min_bucket_count = min_bucket_count.max(2 * bucket_count);
                // the next largest prime will satisfy our load factor
                let next_prime = *PRIMES.iter().find(|p| **p >= min_bucket_count).unwrap();
                self.next_resize = next_prime;
                Some(next_prime)
            } else {
                self.next_resize = bucket_count;
                None
            }
        } else {
            None
        }
    }
}

type DefaultHashTable<K, V, H = DefaultHash<K>> = HashTable<K, V, DefaultAllocator, Primes, H>;
type DefaultHashMap<K, V> = HashMap<K, V, DefaultAllocator, Primes>;
type DefaultHashSet<K> = HashSet<K, DefaultAllocator, Primes>;

fn table<I: Iterator<Item = (u32, u32)>>(iter: I) -> DefaultHashTable<u32, u32> {
    let mut ht: DefaultHashTable<u32, u32> = DefaultHashTable::new();
    iter.for_each(|(k, v)| {
        ht.insert(k, v);
    });
    ht
}

fn collect(range: std::ops::Range<u32>) -> DefaultDeque<u32> {
    let mut d = DefaultDeque::new();
    for i in range {
        d.push_back(i);
    }
    d
}

struct Test<'a> {
    r: &'a Cell<u32>,
}

impl<'a> Drop for Test<'a> {
    fn drop(&mut self) {
        self.r.set(self.r.get() * 2);
    }
}

#[test]
fn mod_default() {
    let rb_tree = RBTree::<u32, u32, DefaultAllocator>::default();
    assert_eq!(rb_tree.len(), 0);
    assert!(rb_tree.is_empty());

    let ht: DefaultHashTable<u32, u32> = DefaultHashTable::new();
    assert!(ht.get(&5).is_none());
    assert!(ht.is_empty());
    assert_eq!(ht.bucket_count(), 1);
}

#[test]
fn mod_insert() {
    let mut s = DefaultString::from("ab");
    s.insert(1, 'c');
    assert_eq!(s.as_str(), "acb");

    let mut vec = eastl_rs::vector_map::DefaultVectorMap::default();

    vec.insert(5, 6);

    assert!(!vec.is_empty());
    assert_eq!(vec.len(), 1);
    assert_eq!(vec.capacity(), 1);
    assert_eq!(&*vec, &[(5, 6)]);

    let mut ht: DefaultHashTable<u32, u32> = DefaultHashTable::new();
    ht.insert(5, 6);
    ht.insert(6, 7);
    ht.insert(4, 7);
    assert!(!ht.is_empty());
    assert_eq!(ht.len(), 3);
    assert_eq!(ht.get(&5), Some((&5, &6)));
    assert_eq!(ht.get(&6), Some((&6, &7)));
    assert_eq!(ht.get(&7), None);
}

#[test]
fn mod_remove() {
    let mut s = DefaultString::from("ab");
    assert_eq!(s.remove(1), Some('b'));
    assert_eq!(s.remove(1), None);
    assert_eq!(s.as_str(), "a");

    let mut ht: DefaultHashTable<u32, u32> = DefaultHashTable::new();
    ht.insert(6, 7);
    assert_eq!(ht.remove(&6), Some(7));
    assert!(ht.is_empty());
    assert_eq!(ht.get(&6), None);
}

#[test]
fn mod_clear() {
    let mut list = DefaultList::new();
    list.push_back(12u32);
    list.push_back(6u32);
    assert_eq!(list.size(), 2);
    list.clear();
    assert!(list.empty());
    assert_eq!(list.front(), None);
    assert_eq!(list.back(), None);

    let mut ht: DefaultHashTable<u32, u32> = DefaultHashTable::new();
    ht.insert(1, 2);
    ht.insert(2, 3);
    ht.insert(3, 4);
    ht.clear();
    assert!(ht.is_empty());
}

#[test]
fn mod_from_iter() {
    let d: DefaultDeque<u32> = collect(0..10);

    assert!(!d.is_empty());
    assert_eq!(d.len(), 10);

    let mut vec = eastl_rs::vector_map::DefaultVectorMap::default();
    [(5, 6)].into_iter().for_each(|(k, v)| {
        vec.insert(k, v);
    });

    assert!(!vec.is_empty());
    assert_eq!(vec.len(), 1);
    assert_eq!(vec.capacity(), 1);
    assert_eq!(&*vec, &[(5, 6)]);

    let mut ht = table([(1, 2), (2, 3), (3, 4)].into_iter());
    assert_eq!(ht.len(), 3);
    assert_eq!(ht.get(&2), Some((&2, &3)));
    if let Some(v) = ht.get_mut(&3) {
        *v = 5;
    }
    assert_eq!(ht.get(&3), Some((&3, &5)));
}

#[test]
fn mod_drop() {
    let foo = Cell::new(1);
    let bar = Cell::new(1);
    {
        let mut list = DefaultList::new();
        list.push_back(Test { r: &foo });
        list.push_back(Test { r: &bar });
    }
    assert_eq!(foo.get(), 2);
    assert_eq!(bar.get(), 2);

    let foo = Cell::new(1);
    let bar = Cell::new(1);
    let baz = Cell::new(1);
    {
        let mut ht: DefaultHashTable<u32, Option<Test>> = DefaultHashTable::new();
        ht.insert(1, None);
        ht.insert(2, Some(Test { r: &bar }));
        ht.insert(3, Some(Test { r: &baz }));
        ht.insert(4, Some(Test { r: &foo }));
        ht.remove(&2);
    }
    assert_eq!(foo.get(), 2);
    assert_eq!(bar.get(), 2);
    assert_eq!(baz.get(), 2);
}

#[test]
fn mod_iter() {
    let vec = eastl_rs::vector_map::DefaultVectorMap::from([(5, 6), (4, 7)]);

    assert_eq!(vec.iter().next().unwrap().1, 7);
    assert_eq!(vec.iter().len(), 2);

    let mut list = DefaultList::new();
    {
        let mut iter = list.iter();
        assert_eq!(iter.next(), None);
        assert_eq!(iter.next(), None);
        assert_eq!(iter.size_hint(), (0, Some(0)));
    }
    list.push_back(12u32);
    list.push_back(6u32);
    let mut iter = list.iter();
    assert_eq!(iter.size_hint(), (2, Some(2)));
    let mut values = Vec::new();
    while let Some(value) = iter.next() {
        values.push(value);
    }
    assert_eq!(values, vec![&12u32, &6u32]);

    let reference_map: BTreeMap<u32, u32> = (0..10).map(|n| n * 10).map(|n| (n, n + 2)).collect();
    let mut hm: DefaultHashMap<u32, u32> = DefaultHashMap::new();
    reference_map.iter().for_each(|(k, v)| {
        hm.insert(*k, *v);
    });
    let mut seen = BTreeMap::new();
    let mut iter = hm.iter();
    while let Some((k, v)) = iter.next() {
        seen.insert(*k, *v);
    }
    assert_eq!(seen, reference_map);

    let mut hs: DefaultHashSet<u32> = DefaultHashSet::new();
    reference_map.keys().for_each(|k| {
        hs.insert(*k);
    });
    let mut keys = Vec::new();
    let mut iter = hs.iter();
    while let Some(k) = iter.next() {
        keys.push(*k);
    }
    keys.sort();
    assert_eq!(keys, reference_map.keys().copied().collect::<Vec<u32>>());
}

#[test]
fn iter_empty_iter() {
    let d = DefaultDeque::<u32>::new();
    let mut i = d.iter();

    assert_eq!(i.next(), None);
    assert_eq!(i.next_back(), None);

    let ht = DefaultHashTable::<u32, u32>::new();
    let mut iter = ht.iter();
    assert!(iter.next().is_none());
}

#[test]
fn iter_iter() {
    let d: DefaultDeque<u32> = collect(0..10);
    let mut i = d.iter();

    for elem in 0..5 {
        assert_eq!(i.next(), Some(&elem));
    }
    for elem in (5..10).rev() {
        assert_eq!(i.next_back(), Some(&elem));
    }

    assert_eq!(i.next(), None);
    assert_eq!(i.next_back(), None);

    let ht = table((0..10).map(|n| (n, n)));
    let mut iter = ht.iter();
    for _ in 0..10 {
        assert!(iter.next().is_some());
    }
    // should be empty now
    assert!(iter.next().is_none());
}

#[test]
fn cloned() {
    let ht = table((0..10).map(|n| n * 11).map(|n| (n, n)));
    let mut iter = ht.iter();
    for _ in 0..5 {
        assert!(iter.next().is_some());
    }
    // clone the iter
    let mut cloned = iter.clone();
    for _ in 0..5 {
        assert!(iter.next().is_some());
        assert!(cloned.next().is_some());
    }
    assert!(iter.next().is_none());
    assert!(cloned.next().is_none())
}

#[test]
fn compat_sanity() {
    let ht = table((0..10).map(|n| n * 10).map(|n| (n, n)));
    let iter = ht.iter();
    let (begin, end) = iter.into_compat();
    let mut iter = ht.iter_from_compat(begin, end).unwrap();
    for _ in 0..10 {
        assert!(iter.next().is_some());
    }
    // should be empty now
    assert!(iter.next().is_none());
}

#[test]
fn compat_partial_use_sanity() {
    let ht = table((0..10).map(|n| n * 10).map(|n| (n, n)));
    let mut iter = ht.iter();
    for _ in 0..5 {
        assert!(iter.next().is_some());
    }
    let (begin, end) = iter.into_compat();
    let mut iter = ht.iter_from_compat(begin, end).unwrap();
    for _ in 0..5 {
        assert!(iter.next().is_some());
    }
    // should be empty now
    assert!(iter.next().is_none());
}

#[derive(Debug, PartialEq, Eq)]
struct A {
    a: u32,
}

impl eastl_rs::hash::Hash<A> for DefaultHash<A> {
    // the hash that contracts speak of: every value hashes to one
    fn spec_hash(_: &A) -> usize {
        1
    }

    fn hash(_: &A) -> usize {
        1
    }
}

#[test]
fn collisions() {
    let mut ht: DefaultHashTable<A, u32> = DefaultHashTable::new();
    (0..11).for_each(|n| {
        ht.insert(A { a: n }, n);
    });
    for i in 0..11 {
        assert_eq!(ht.get(&A { a: i }), Some((&A { a: i }, &i)));
    }
}

#[test]
fn pairs_come_bucket_by_bucket_from_the_head_on() {
    let mut ht: DefaultHashTable<u32, char> = DefaultHashTable::new();
    // two buckets from the first pair on: the even keys lie in bucket 0
    ht.insert(2, 'a');
    assert_eq!(ht.bucket_count(), 2);
    ht.insert(4, 'b');
    assert_eq!(ht.bucket_count(), 2);
    // the third pair asks for five buckets
    ht.insert(9, 'c');
    assert_eq!(ht.bucket_count(), 5);
    ht.insert(14, 'd');
    ht.insert(7, 'e');
    let mut pairs = Vec::new();
    let mut iter = ht.iter();
    while let Some((k, v)) = iter.next() {
        pairs.push((*k, *v));
    }
    assert_eq!(pairs, vec![(7, 'e'), (2, 'a'), (14, 'd'), (9, 'c'), (4, 'b')]);
    assert_eq!(ht.insert(14, 'x'), Some('d'));
    assert_eq!(ht.len(), 5);
    assert_eq!(ht.remove_entry(&2), Some((2, 'a')));
    assert_eq!(ht.remove_entry(&2), None);
    assert!(ht.contains_key(&14));
    assert!(!ht.contains_key(&2));
    assert_eq!(ht.len(), 4);
}

#[test]
fn a_set_tells_whether_it_held_the_key() {
    let mut hs: DefaultHashSet<u32> = DefaultHashSet::new();
    assert!(hs.is_empty());
    assert!(!hs.insert(3));
    assert!(hs.insert(3));
    assert!(!hs.insert(4));
    assert_eq!(hs.len(), 2);
    assert_eq!(hs.get(&3), Some(&3));
    assert_eq!(hs.get(&5), None);
    assert!(hs.contains_key(&4));
    assert_eq!(hs.remove(&4), Some(4));
    assert_eq!(hs.remove(&4), None);
    hs.clear();
    assert!(hs.is_empty());
    assert!(!hs.contains_key(&3));
}

#[test]
fn a_map_keeps_the_last_value_of_a_key() {
    let mut hm: DefaultHashMap<u32, u32> = DefaultHashMap::new();
    assert_eq!(hm.insert(1, 10), None);
    assert_eq!(hm.insert(1, 11), Some(10));
    assert_eq!(hm.get(&1), Some(&11));
    *hm.get_mut(&1).unwrap() = 12;
    assert_eq!(hm.remove_entry(&1), Some((1, 12)));
    assert_eq!(hm.remove(&1), None);
    assert!(hm.get_mut(&1).is_none());
    assert!(hm.is_empty());
    assert_eq!(hm.len(), 0);
    hm.insert(2, 20);
    assert!(hm.contains_key(&2));
    hm.clear();
    assert!(!hm.contains_key(&2));
}

#[test]
fn mod_iter_mut() {
    let mut list = DefaultList::new();
    list.push_back(12u32);
    list.push_back(6u32);
    let mut iter = list.iter_mut();
    let first_val = iter.next().unwrap();
    assert_eq!(first_val, &mut 12u32);
    *first_val = 14u32;
    let mut iter = list.iter_mut();
    let first_val = iter.next().unwrap();
    assert_eq!(first_val, &mut 14u32);
    let last_val = iter.next().unwrap();
    assert_eq!(last_val, &mut 6u32);
    assert!(iter.next().is_none());

    let mut reference_map: BTreeMap<u32, u32> =
        (0..10).map(|n| n * 10).map(|n| (n, n + 2)).collect();
    let mut hm: DefaultHashMap<u32, u32> = DefaultHashMap::new();
    reference_map.iter().for_each(|(k, v)| {
        hm.insert(*k, *v);
    });
    reference_map.iter_mut().for_each(|(_, v)| *v *= 2);
    {
        let mut iter = hm.iter_mut();
        while let Some((_, v)) = iter.next() {
            *v *= 2;
        }
    }
    let mut seen = BTreeMap::new();
    let mut iter = hm.iter();
    while let Some((k, v)) = iter.next() {
        seen.insert(*k, *v);
    }
    assert_eq!(seen, reference_map);
}

#[test]
fn occupied() {
    let mut ht: DefaultHashTable<u32, u32> = DefaultHashTable::new();
    ht.insert(7, 5);

    assert!(matches!(
        ht.entry(7),
        eastl_rs::internal::hash_table::entry::Entry::Occupied(_)
    ));
}

#[test]
fn occupied_and_modify() {
    let mut ht: DefaultHashTable<u32, u32> = DefaultHashTable::new();
    ht.insert(7, 5);

    assert_eq!(*ht.entry(7).and_modify(|val| *val *= 2).or_insert(6), 10);
    assert_eq!(ht.get(&7), Some((&7, &10)))
}

#[test]
fn or_insert() {
    let mut ht: DefaultHashTable<u32, u32> = DefaultHashTable::new();

    assert_eq!(*ht.entry(3).or_insert(5), 5);
    assert_eq!(ht.get(&3), Some((&3, &5)));
    assert_eq!(ht.len(), 1);
}

#[test]
fn or_insert_with() {
    let mut ht: DefaultHashTable<u32, u32> = DefaultHashTable::new();
    let mut counter = 0;

    assert_eq!(
        *ht.entry(3).or_insert_with(|| {
            counter += 1;
            5
        }),
        5
    );
    assert_eq!(
        *ht.entry(3).or_insert_with(|| {
            counter += 1;
            10
        }),
        5
    );
    assert_eq!(counter, 1);
}

#[test]
fn vacant() {
    let mut ht: DefaultHashTable<u32, u32> = DefaultHashTable::new();
    ht.insert(7, 5);

    assert!(matches!(
        ht.entry(3),
        eastl_rs::internal::hash_table::entry::Entry::Vacant(_)
    ));
    let mut hm: DefaultHashMap<u32, u32> = DefaultHashMap::new();
    *hm.entry(1).or_insert(1) += 1;
    *hm.entry(1).or_insert(1) += 1;
    assert_eq!(hm.get(&1), Some(&3));
}

#[test]
fn places_of_a_mutable_walk() {
    let mut ht = table((0..10).map(|n| (n, n)));
    let (begin, end) = {
        let mut iter = ht.iter_mut();
        for _ in 0..4 {
            *iter.next().unwrap().1 += 100;
        }
        iter.into_compat()
    };
    let changed = {
        let mut seen = 0;
        let mut iter = ht.iter();
        while let Some((k, v)) = iter.next() {
            if *v == *k + 100 {
                seen += 1;
            }
        }
        seen
    };
    assert_eq!(changed, 4);
    {
        let mut iter = ht.iter_mut_from_compat(begin, end).unwrap();
        let mut rest = 0;
        while let Some((k, v)) = iter.next() {
            assert_eq!(*v, *k);
            rest += 1;
        }
        assert_eq!(rest, 6);
    }
    let mut wrong = end;
    wrong.node_ptr = 1;
    assert!(ht.iter_from_compat(begin, wrong).is_none());
    assert!(ht.iter_mut_from_compat(begin, wrong).is_none());

    let mut hs: DefaultHashSet<u32> = DefaultHashSet::with_allocator(DefaultAllocator::default());
    hs.insert(1);
    hs.insert(2);
    let mut iter = hs.iter();
    assert!(iter.next().is_some());
    let (begin, end) = iter.into_compat();
    let mut iter = hs.iter_from_compat(begin, end).unwrap();
    assert!(iter.next().is_some());
    assert!(iter.next().is_none());
    let hm: DefaultHashMap<u32, u32> = DefaultHashMap::with_allocator(DefaultAllocator::default());
    assert!(hm.is_empty());
    let ht: DefaultHashTable<u32, u32> = DefaultHashTable::with_allocator(DefaultAllocator::default());
    assert_eq!(ht.bucket_count(), 1);
}
