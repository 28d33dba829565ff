use vstd::prelude::*;

verus! {

/// An object which hands out blocks of storage and takes them back.
///
/// A block is an empty vector with room for the requested number of items. The containers
/// make no assumption about what an implementor hands out: they empty a block before they
/// fill it.
pub trait Allocator {
    /// Hands out a block for `n` items. `n` must not be zero.
    fn allocate<T>(&mut self, n: usize) -> (block: Vec<T>)
        requires
            n != 0,
    ;

    /// Takes back a block that `allocate` handed out.
    fn deallocate<T>(&mut self, block: Vec<T>);
}

/// The allocator backed by the global heap.
pub struct DefaultAllocator {
    // keeps the allocator one byte wide
    _dummy: u8,
}

impl Allocator for DefaultAllocator {
    fn allocate<T>(&mut self, n: usize) -> (block: Vec<T>)
        ensures
            block@.len() == 0,
    {
        Vec::with_capacity(n)
    }

    fn deallocate<T>(&mut self, block: Vec<T>) {
    }
}

impl Default for DefaultAllocator {
    fn default() -> (allocator: Self) {
        Self { _dummy: 0 }
    }
}

} // verus!
