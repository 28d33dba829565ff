use crate::internal::hash_table::iter::CompatIter;
use vstd::prelude::*;

verus! {

/// The keys of the pairs of a set, in their order.
pub open spec fn keys_of<K>(pairs: Seq<(K, ())>) -> Seq<K> {
    Seq::new(pairs.len(), |i: int| pairs[i].0)
}

/// An iterator over the keys of a hash set.
pub struct Iter<'a, K: PartialEq> {
    inner: crate::internal::hash_table::iter::Iter<'a, K, ()>,
}

impl<'a, K: PartialEq> View for Iter<'a, K> {
    type V = Seq<K>;

    /// The keys that are still to come, in their order.
    closed spec fn view(&self) -> Seq<K> {
        Seq::new(self.inner@.len(), |i: int| self.inner@[i].0)
    }
}

impl<'a, K: PartialEq> Iter<'a, K> {
    /// The iterator over the table of the set is in order.
    pub closed spec fn wf(&self) -> bool {
        self.inner.wf()
    }

    /// Converts the iterator into a pair of
    /// `(begin, end)` places.
    pub fn into_compat(self) -> (pair: (CompatIter, CompatIter))
        requires
            self.wf(),
        ensures
            pair.1.node_ptr == 0,
            pair.0.bucket_ptr <= pair.1.bucket_ptr,
            pair.0.bucket_ptr < pair.1.bucket_ptr ==> pair.0.node_ptr > 0,
    {
        self.inner.into_compat()
    }

    /// Makes the iterator over the keys from the iterator over the table of a set.
    pub(crate) fn new(inner: crate::internal::hash_table::iter::Iter<'a, K, ()>) -> (iter: Self)
        requires
            inner.wf(),
        ensures
            iter.wf(),
            iter@.len() == inner@.len(),
            forall|i: int| 0 <= i < inner@.len() ==> iter@[i] == inner@[i].0,
    {
        Self { inner }
    }

    /// Hands out the next key, or `None` when none is left.
    pub fn next(&mut self) -> (key: Option<&'a K>)
        requires
            old(self).wf(),
        ensures
            final(self).wf(),
            old(self)@.len() == 0 ==> key.is_none() && final(self)@ == old(self)@,
            old(self)@.len() > 0 ==> key == Some(&old(self)@.first()) && final(self)@ == old(
                self)@.drop_first(),
    {
        match self.inner.next() {
            Some(pair) => {
                assert(self@ =~= old(self)@.drop_first());
                Some(pair.0)
            },
            None => None,
        }
    }
}

} // verus!
