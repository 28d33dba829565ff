use crate::allocator::Allocator;
use crate::equals::Equals;
use crate::internal::hash_table::node::Node;
use crate::internal::hash_table::rehash_policy::RehashPolicy;
use crate::internal::hash_table::HashTable;
use vstd::prelude::*;

verus! {

/// A place in the walk over a table, as a plain value: a bucket, and the number of nodes
/// of the bucket that are still to come. The place where the walk ends is the bucket behind
/// the last, with no node to come.
#[derive(Clone, Copy, Debug)]
pub struct CompatIter {
    /// The number of nodes of the bucket that are still to come.
    pub node_ptr: usize,
    /// The bucket.
    pub bucket_ptr: usize,
}

/// A place like [`CompatIter`], in a table that is open to change.
#[derive(Clone, Copy, Debug)]
pub struct CompatIterMut {
    /// The number of nodes of the bucket that are still to come.
    pub node_ptr: usize,
    /// The bucket.
    pub bucket_ptr: usize,
}

/// The pairs of the first `left` nodes of a bucket, from the last of them to the first: the
/// order from the head on.
pub open spec fn bucket_pairs<K: PartialEq, V>(chain: Seq<Node<K, V>>, left: int) -> Seq<(K, V)> {
    Seq::new(left as nat, |i: int| (chain[left - 1 - i].key, chain[left - 1 - i].val))
}

/// The pairs of the buckets from bucket `b` on, bucket by bucket.
pub open spec fn pairs_from<K: PartialEq, V>(buckets: Seq<Vec<Node<K, V>>>, b: int) -> Seq<(K, V)>
    decreases buckets.len() - b,
{
    if b < 0 || b >= buckets.len() {
        Seq::empty()
    } else {
        bucket_pairs(buckets[b]@, buckets[b]@.len() as int) + pairs_from(buckets, b + 1)
    }
}

/// The pairs that a walk comes by from the place on where `left` nodes of bucket `bucket` are
/// still to come.
pub open spec fn walk_from<K: PartialEq, V>(
    buckets: Seq<Vec<Node<K, V>>>,
    bucket: int,
    left: int,
) -> Seq<(K, V)> {
    if 0 <= bucket < buckets.len() {
        bucket_pairs(buckets[bucket]@, left) + pairs_from(buckets, bucket + 1)
    } else {
        Seq::empty()
    }
}

/// The walk over buckets that are the same comes by the same pairs.
pub proof fn lemma_pairs_from_same<K: PartialEq, V>(
    buckets: Seq<Vec<Node<K, V>>>,
    now: Seq<Vec<Node<K, V>>>,
    b: int,
)
    requires
        0 <= b,
        now.len() == buckets.len(),
        forall|c: int| b <= c < buckets.len() ==> now[c] == buckets[c],
    ensures
        pairs_from(now, b) == pairs_from(buckets, b),
    decreases buckets.len() - b,
{
    if b < buckets.len() {
        lemma_pairs_from_same(buckets, now, b + 1);
    }
}

/// The pair of a node of one of the buckets from bucket `b` on.
pub open spec fn in_buckets<K: PartialEq, V>(
    buckets: Seq<Vec<Node<K, V>>>,
    b: int,
    pair: (K, V),
) -> bool {
    exists|c: int, j: int| #[trigger] holds_at(buckets, b, c, j, pair)
}

/// The node at place `j` of bucket `c`, one of the buckets from bucket `b` on, holds `pair`.
pub open spec fn holds_at<K: PartialEq, V>(
    buckets: Seq<Vec<Node<K, V>>>,
    b: int,
    c: int,
    j: int,
    pair: (K, V),
) -> bool {
    &&& 0 <= b <= c < buckets.len()
    &&& 0 <= j < buckets[c]@.len()
    &&& (buckets[c]@[j].key, buckets[c]@[j].val) == pair
}

/// The walk from bucket `b` on comes by the pairs of the nodes of these buckets, and by no
/// others.
pub proof fn lemma_pairs_from<K: PartialEq, V>(buckets: Seq<Vec<Node<K, V>>>, b: int)
    requires
        0 <= b <= buckets.len(),
    ensures
        forall|pair: (K, V)|
            #[trigger] pairs_from(buckets, b).contains(pair) <==> in_buckets(buckets, b, pair),
    decreases buckets.len() - b,
{
    if b < buckets.len() {
        lemma_pairs_from(buckets, b + 1);
        let chain = buckets[b]@;
        let head = bucket_pairs(chain, chain.len() as int);
        let rest = pairs_from(buckets, b + 1);
        let all = pairs_from(buckets, b);
        assert forall|pair: (K, V)| #[trigger] all.contains(pair) <==> in_buckets(
            buckets,
            b,
            pair,
        ) by {
            if all.contains(pair) {
                let i = choose|i: int| 0 <= i < all.len() && all[i] == pair;
                if i < head.len() {
                    assert(holds_at(buckets, b, b, chain.len() - 1 - i, pair));
                } else {
                    assert(rest[i - head.len()] == pair);
                    assert(rest.contains(pair));
                    let (c, j) = choose|c: int, j: int| #[trigger]
                        holds_at(buckets, b + 1, c, j, pair);
                    assert(holds_at(buckets, b, c, j, pair));
                }
            }
            if in_buckets(buckets, b, pair) {
                let (c, j) = choose|c: int, j: int| #[trigger] holds_at(buckets, b, c, j, pair);
                if c == b {
                    assert(all[chain.len() - 1 - j] == pair);
                } else {
                    assert(holds_at(buckets, b + 1, c, j, pair));
                    assert(rest.contains(pair));
                    let i = choose|i: int| 0 <= i < rest.len() && rest[i] == pair;
                    assert(all[head.len() + i] == pair);
                }
            }
        }
    } else {
        assert forall|pair: (K, V)| #[trigger]
            pairs_from(buckets, b).contains(pair) <==> in_buckets(buckets, b, pair) by {
            if in_buckets(buckets, b, pair) {
                let (c, j) = choose|c: int, j: int| #[trigger] holds_at(buckets, b, c, j, pair);
            }
        }
    }
}

/// An iterator that produces key-value pairs
/// in a hash table, bucket by bucket and from the head of each bucket on.
#[derive(Clone)]
pub struct Iter<'a, K: PartialEq, V> {
    buckets: &'a Vec<Vec<Node<K, V>>>,
    bucket: usize,
    left: usize,
}

impl<'a, K: PartialEq, V> View for Iter<'a, K, V> {
    type V = Seq<(K, V)>;

    /// The pairs that are still to come, in their order.
    closed spec fn view(&self) -> Seq<(K, V)> {
        if self.bucket < self.buckets@.len() {
            bucket_pairs(self.buckets@[self.bucket as int]@, self.left as int) + pairs_from(
                self.buckets@,
                self.bucket + 1,
            )
        } else {
            Seq::empty()
        }
    }
}

impl<'a, K: PartialEq, V> Iter<'a, K, V> {
    /// The iterator stands at a node that is still to come, or behind the last bucket.
    pub closed spec fn wf(&self) -> bool {
        &&& self.bucket <= self.buckets@.len()
        &&& self.bucket < self.buckets@.len() ==> 0 < self.left
            <= self.buckets@[self.bucket as int]@.len()
        &&& self.bucket == self.buckets@.len() ==> self.left == 0
    }

    /// Creates a new hash table iterator from the
    /// hash table's buckets.
    pub(crate) fn new(buckets: &'a Vec<Vec<Node<K, V>>>) -> (iter: Self)
        ensures
            iter.wf(),
            iter@ == pairs_from(buckets@, 0),
    {
        let mut new_iter = Self { buckets, bucket: 0, left: 0 };
        if buckets.len() > 0 {
            new_iter.left = buckets[0].len();
            assert(bucket_pairs(buckets@[0]@, 0) + pairs_from(buckets@, 1) =~= pairs_from(
                buckets@,
                1,
            ));
            // find the first next node
            new_iter.next_bucket();
        }
        new_iter
    }

    /// Finds the next bucket that holds a node, if the bucket that the iterator stands in
    /// holds no more.
    fn next_bucket(&mut self)
        requires
            old(self).bucket < old(self).buckets@.len(),
            old(self).left <= old(self).buckets@[old(self).bucket as int]@.len(),
        ensures
            final(self).wf(),
            final(self)@ == old(self)@,
            final(self).buckets == old(self).buckets,
    {
        while self.left == 0 && self.bucket < self.buckets.len()
            invariant
                self.buckets == old(self).buckets,
                self.bucket <= self.buckets@.len(),
                self.bucket < self.buckets@.len() ==> self.left
                    <= self.buckets@[self.bucket as int]@.len(),
                self.bucket == self.buckets@.len() ==> self.left == 0,
                self@ == old(self)@,
            decreases self.buckets@.len() - self.bucket,
        {
            proof {
                let chain = self.buckets@[self.bucket as int]@;
                assert(bucket_pairs(chain, 0) + pairs_from(self.buckets@, self.bucket + 1)
                    =~= pairs_from(self.buckets@, self.bucket + 1));
            }
            self.bucket = self.bucket + 1;
            if self.bucket < self.buckets.len() {
                self.left = self.buckets[self.bucket].len();
            }
        }
    }

    /// Hands out the next pair, or `None` when none is left.
    pub fn next(&mut self) -> (pair: Option<(&'a K, &'a V)>)
        requires
            old(self).wf(),
        ensures
            final(self).wf(),
            old(self)@.len() == 0 ==> pair.is_none() && final(self)@ == old(self)@,
            old(self)@.len() > 0 ==> pair.is_some() && (*pair.unwrap().0, *pair.unwrap().1) == old(
                self)@.first() && final(self)@ == old(self)@.drop_first(),
    {
        // the only way for the bucket to be behind the last is
        // if we already hit the end
        if self.bucket >= self.buckets.len() {
            return None;
        }
        // traverse to the next node, but return the current
        let node = &self.buckets[self.bucket][self.left - 1];
        let ghost chain = self.buckets@[self.bucket as int]@;
        let ghost rest = pairs_from(self.buckets@, self.bucket + 1);
        proof {
            assert(bucket_pairs(chain, self.left as int).drop_first() =~= bucket_pairs(
                chain,
                self.left - 1,
            ));
            assert((bucket_pairs(chain, self.left as int) + rest).drop_first() =~= bucket_pairs(
                chain,
                self.left - 1,
            ) + rest);
        }
        self.left = self.left - 1;
        self.next_bucket();
        Some((node.key(), node.value()))
    }

    /// The buckets that the iterator walks over.
    pub closed spec fn spec_buckets(&self) -> Seq<Vec<Node<K, V>>> {
        self.buckets@
    }

    /// Converts the iterator into a pair of
    /// `(begin, end)` places.
    pub fn into_compat(self) -> (pair: (CompatIter, CompatIter))
        requires
            self.wf(),
        ensures
            Self::places(self.spec_buckets(), pair.0, pair.1),
            self@ == walk_from(
                self.spec_buckets(),
                pair.0.bucket_ptr as int,
                pair.0.node_ptr as int,
            ),
    {
        (
            CompatIter { node_ptr: self.left, bucket_ptr: self.bucket },
            CompatIter { node_ptr: 0, bucket_ptr: self.buckets.len() },
        )
    }

    /// Makes the iterator that walks the buckets from the place `begin` on, or `None`
    /// where the places are not places of the buckets.
    pub(crate) fn from_compat(
        buckets: &'a Vec<Vec<Node<K, V>>>,
        begin: CompatIter,
        end: CompatIter,
    ) -> (iter: Option<Self>)
        ensures
            iter.is_some() <==> Self::places(buckets@, begin, end),
            iter.is_some() ==> iter.unwrap().wf() && iter.unwrap().spec_buckets() == buckets@
                && iter.unwrap()@ == walk_from(
                buckets@,
                begin.bucket_ptr as int,
                begin.node_ptr as int,
            ),
    {
        if end.bucket_ptr != buckets.len() || end.node_ptr != 0 || begin.bucket_ptr
            > buckets.len() {
            return None;
        }
        if begin.bucket_ptr == buckets.len() {
            if begin.node_ptr != 0 {
                return None;
            }
        } else if begin.node_ptr == 0 || begin.node_ptr > buckets[begin.bucket_ptr].len() {
            return None;
        }
        Some(Self { buckets, bucket: begin.bucket_ptr, left: begin.node_ptr })
    }

    /// `begin` is a place of the walk over `buckets`, and `end` is the place where the
    /// walk ends.
    pub open spec fn places(buckets: Seq<Vec<Node<K, V>>>, begin: CompatIter, end: CompatIter) -> bool {
        &&& end.bucket_ptr == buckets.len()
        &&& end.node_ptr == 0
        &&& begin.bucket_ptr <= buckets.len()
        &&& begin.bucket_ptr == buckets.len() ==> begin.node_ptr == 0
        &&& begin.bucket_ptr < buckets.len() ==> 0 < begin.node_ptr
            <= buckets[begin.bucket_ptr as int]@.len()
    }
}

/// An iterator that produces key-value pairs
/// in a hash table, bucket by bucket and from the head of each bucket on. The
/// values yielded by the iterator are mutable.
///
/// The iterator holds the table until it is let go. What was written through it is then in
/// the table.
pub struct IterMut<
    'a,
    K: PartialEq,
    V,
    A: Allocator,
    P: RehashPolicy,
    H: crate::hash::Hash<K>,
    E: Equals<K>,
> {
    /// The table that the iterator walks over.
    pub table: &'a mut HashTable<K, V, A, P, H, E>,
    /// The bucket that the iterator stands in.
    pub bucket: usize,
    /// The number of nodes of the bucket that are still to come.
    pub left: usize,
}

impl<
    'a,
    K: PartialEq,
    V,
    A: Allocator,
    P: RehashPolicy,
    H: crate::hash::Hash<K>,
    E: Equals<K>,
> View for IterMut<'a, K, V, A, P, H, E> {
    type V = Seq<(K, V)>;

    /// The pairs that are still to come, in their order.
    open spec fn view(&self) -> Seq<(K, V)> {
        walk_from(self.table.spec_buckets(), self.bucket as int, self.left as int)
    }
}

impl<
    'a,
    K: PartialEq,
    V,
    A: Allocator,
    P: RehashPolicy,
    H: crate::hash::Hash<K>,
    E: Equals<K>,
> IterMut<'a, K, V, A, P, H, E> {
    /// The table is in order, and the iterator stands at a node that is still to come, or
    /// behind the last bucket.
    pub open spec fn wf(&self) -> bool {
        let buckets = self.table.spec_buckets();
        &&& self.table.wf()
        &&& self.bucket <= buckets.len()
        &&& self.bucket < buckets.len() ==> 0 < self.left <= buckets[self.bucket as int]@.len()
        &&& self.bucket == buckets.len() ==> self.left == 0
    }

    /// Converts the iterator into a pair of
    /// `(begin, end)` places.
    pub fn into_compat(self) -> (pair: (CompatIter, CompatIter))
        requires
            self.wf(),
        ensures
            Iter::<K, V>::places(old(self.table).spec_buckets(), pair.0, pair.1),
            pair.0.bucket_ptr == self.bucket,
            pair.0.node_ptr == self.left,
    {
        proof {
            self.table.lemma_bucket_count();
        }
        (
            CompatIter { node_ptr: self.left, bucket_ptr: self.bucket },
            CompatIter { node_ptr: 0, bucket_ptr: self.table.bucket_count() as usize },
        )
    }

    /// Converts the iterator into a pair of
    /// mutable `(begin, end)` places.
    pub fn into_compat_mut(self) -> (pair: (CompatIterMut, CompatIterMut))
        requires
            self.wf(),
        ensures
            pair.0.bucket_ptr == self.bucket,
            pair.0.node_ptr == self.left,
            pair.1.bucket_ptr == old(self.table).spec_buckets().len(),
            pair.1.node_ptr == 0,
    {
        proof {
            self.table.lemma_bucket_count();
        }
        (
            CompatIterMut { node_ptr: self.left, bucket_ptr: self.bucket },
            CompatIterMut { node_ptr: 0, bucket_ptr: self.table.bucket_count() as usize },
        )
    }

    /// Hands out the next pair, or `None` when none is left.
    pub fn next(&mut self) -> (pair: Option<(&K, &mut V)>)
        requires
            old(self).wf(),
        ensures
            final(self).wf(),
            *final(final(self).table) == *final(old(self).table),
            match pair {
                None => {
                    &&& old(self)@.len() == 0
                    &&& final(self)@ == old(self)@
                    &&& final(self).table@ == old(self).table@
                },
                Some((key, value)) => {
                    &&& old(self)@.len() > 0
                    &&& (*key, *value) == old(self)@.first()
                    &&& final(self)@ == old(self)@.drop_first()
                    &&& final(self).table@ == old(self).table@.insert(*key, *final(value))
                },
            },
    {
        let count = self.table.bucket_count() as usize;
        proof {
            assert(count == self.table.spec_buckets().len()) by {
                self.table.lemma_bucket_count();
            }
        }
        // the only way for the bucket to be behind the last is
        // if we already hit the end
        if self.bucket >= count {
            return None;
        }
        let ghost buckets = self.table.spec_buckets();
        let bucket = self.bucket;
        let at = self.left - 1;
        // traverse to the next node, but return the current
        let mut next_bucket = bucket;
        let mut left = at;
        proof {
            let chain = buckets[bucket as int]@;
            let rest = pairs_from(buckets, bucket + 1);
            assert(bucket_pairs(chain, at + 1).drop_first() =~= bucket_pairs(chain, at as int));
            assert((bucket_pairs(chain, at + 1) + rest).drop_first() =~= bucket_pairs(
                chain,
                at as int,
            ) + rest);
        }
        while left == 0 && next_bucket < count
            invariant
                self.table.spec_buckets() == buckets,
                count == buckets.len(),
                next_bucket <= count,
                bucket <= next_bucket,
                next_bucket == bucket ==> left == at,
                next_bucket < count ==> left <= buckets[next_bucket as int]@.len(),
                next_bucket == count ==> left == 0,
                walk_from(buckets, next_bucket as int, left as int) == walk_from(
                    buckets,
                    bucket as int,
                    at as int,
                ),
            decreases count - next_bucket,
        {
            proof {
                let chain = buckets[next_bucket as int]@;
                assert(bucket_pairs(chain, 0) + pairs_from(buckets, next_bucket + 1) =~= pairs_from(
                    buckets,
                    next_bucket + 1,
                ));
            }
            next_bucket = next_bucket + 1;
            if next_bucket < count {
                left = self.table.bucket_len(next_bucket);
            }
        }
        self.bucket = next_bucket;
        self.left = left;
        proof {
            assert forall|now: Seq<Vec<Node<K, V>>>|
                #![trigger now[bucket as int]]
                HashTable::<K, V, A, P, H, E>::value_changed(
                    buckets,
                    now,
                    bucket as int,
                    at as int,
                ) implies walk_from(now, next_bucket as int, left as int) == walk_from(
                buckets,
                next_bucket as int,
                left as int,
            ) by {
                if next_bucket < count {
                    lemma_pairs_from_same(buckets, now, next_bucket + 1);
                    if next_bucket == bucket {
                        assert(bucket_pairs(now[bucket as int]@, at as int) =~= bucket_pairs(
                            buckets[bucket as int]@,
                            at as int,
                        ));
                    }
                }
            }
        }
        Some(self.table.pair_mut(bucket, at))
    }
}

} // verus!
