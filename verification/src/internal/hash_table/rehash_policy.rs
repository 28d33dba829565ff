use vstd::prelude::*;

verus! {

/// Decides when a hash table takes a new number of buckets, and which.
///
/// The table asks before it takes a new pair. It takes whatever number of buckets the
/// policy names, but for zero.
pub trait RehashPolicy {
    /// Returns the re-hash that is required given
    /// the addition of new elements: the new number of buckets, or `None` where the
    /// table stays as it is.
    fn get_rehash_required(&mut self, bucket_count: u32, element_count: u32, element_add: u32) -> (count:
        Option<u32>);
}

} // verus!
