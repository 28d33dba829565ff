use crate::fixed_pool::{FixedPool, RawAllocator};
use vstd::prelude::*;

verus! {

/// A pool of nodes with an allocator behind it. It attempts to allocate from the pool,
/// but allocates from the overflow allocator if no space is left in the pool.
pub struct FixedPoolWithOverflow<Node, OverflowAllocator: RawAllocator> {
    pool_allocator: FixedPool<Node>,
    overflow_allocator: OverflowAllocator,
    pool_begin: usize,
}

impl<Node, OverflowAllocator: RawAllocator> FixedPoolWithOverflow<Node, OverflowAllocator> {
    /// The pool.
    pub closed spec fn pool(&self) -> FixedPool<Node> {
        self.pool_allocator
    }

    /// The allocator behind the pool.
    pub closed spec fn overflow(&self) -> OverflowAllocator {
        self.overflow_allocator
    }

    /// The address that the memory of the pool starts at.
    pub closed spec fn spec_pool_begin(&self) -> usize {
        self.pool_begin
    }

    /// The address `p` lies in the memory of the pool.
    pub open spec fn within_pool(&self, p: usize) -> bool {
        self.spec_pool_begin() <= p <= self.pool().spec_capacity()
    }

    /// Creates the fixed pool allocator with the given memory and overflow allocator.
    pub fn new(memory: usize, memory_size: usize, overflow_allocator: OverflowAllocator) -> (this:
        Self)
        requires
            FixedPool::<Node>::fits(memory, memory_size),
        ensures
            this.pool().wf(),
            this.pool().spec_free().len() == 0,
            this.pool().spec_next() == crate::fixed_pool::aligned_up(
                memory,
                FixedPool::<Node>::node_align() as usize,
            ),
            this.pool().spec_capacity() <= memory + memory_size,
            this.spec_pool_begin() == memory,
            this.overflow() == overflow_allocator,
    {
        let mut res = Self::with_allocator(overflow_allocator);
        res.init(memory, memory_size);
        res
    }

    /// Creates an uninitialized pool allocator given the overflow allocator.
    pub fn with_allocator(overflow_allocator: OverflowAllocator) -> (this: Self)
        ensures
            this.pool().spec_free().len() == 0,
            this.pool().spec_next() == 0,
            this.pool().spec_capacity() == 0,
            this.spec_pool_begin() == 0,
            this.overflow() == overflow_allocator,
    {
        Self { pool_allocator: FixedPool::default(), overflow_allocator, pool_begin: 0 }
    }

    /// Returns true if the underlying pool allocator can allocate. If this method returns false,
    /// we can still allocate, but will allocate with the overflow allocator.
    pub fn can_allocate(&self) -> (can: bool)
        ensures
            can == self.pool().spec_can_allocate(),
    {
        self.pool_allocator.can_allocate()
    }

    /// Returns the address that the memory of the pool starts at.
    pub fn pool_begin(&self) -> (begin: usize)
        ensures
            begin == self.spec_pool_begin(),
    {
        self.pool_begin
    }

    /// Returns the address behind the last node of the pool.
    pub fn pool_capacity(&self) -> (capacity: usize)
        ensures
            capacity == self.pool().spec_capacity(),
    {
        self.pool_allocator.capacity()
    }

    /// Initializes the fixed pool allocator with the given memory.
    pub fn init(&mut self, memory: usize, memory_size: usize)
        requires
            FixedPool::<Node>::fits(memory, memory_size),
        ensures
            final(self).pool().wf(),
            final(self).pool().spec_free().len() == 0,
            final(self).pool().spec_next() == crate::fixed_pool::aligned_up(
                memory,
                FixedPool::<Node>::node_align() as usize,
            ),
            final(self).pool().spec_capacity() <= memory + memory_size,
            final(self).spec_pool_begin() == memory,
            final(self).overflow() == old(self).overflow(),
    {
        self.pool_allocator.init_pool(memory, memory_size);

        // store the pool base
        self.pool_begin = memory;
    }

    /// Hands out the address of a node from the pool, where the pool can allocate, and hands
    /// on what the overflow allocator hands out, where it cannot.
    pub fn allocate(&mut self, n: usize, align: usize) -> (p: usize)
        requires
            old(self).pool().wf(),
        ensures
            final(self).pool().wf(),
            final(self).spec_pool_begin() == old(self).spec_pool_begin(),
            final(self).pool().spec_capacity() == old(self).pool().spec_capacity(),
            old(self).pool().spec_free().len() > 0 ==> {
                &&& p == old(self).pool().spec_free().last()
                &&& final(self).pool().spec_free() == old(self).pool().spec_free().drop_last()
                &&& final(self).pool().spec_next() == old(self).pool().spec_next()
            },
            old(self).pool().spec_free().len() == 0 && old(self).pool().spec_next() != old(
                self).pool().spec_capacity() ==> {
                &&& p == old(self).pool().spec_next()
                &&& final(self).pool().spec_free() == old(self).pool().spec_free()
                &&& final(self).pool().spec_next() == old(self).pool().spec_next() + FixedPool::<
                    Node,
                >::node_size()
            },
            old(self).pool().spec_can_allocate() ==> final(self).overflow() == old(
                self).overflow(),
            !old(self).pool().spec_can_allocate() ==> {
                &&& final(self).pool().spec_free() == old(self).pool().spec_free()
                &&& final(self).pool().spec_next() == old(self).pool().spec_next()
            },
    {
        // try the pool first...
        let p = self.pool_allocator.allocate();
        if p != 0 {
            p
        } else {
            self.overflow_allocator.allocate_raw_aligned(n, align)
        }
    }

    /// Takes back an address: into the pool, where it lies in the memory of the pool, and
    /// else into the overflow allocator.
    pub fn deallocate(&mut self, p: usize, n: usize, align: usize)
        requires
            p != 0,
        ensures
            final(self).spec_pool_begin() == old(self).spec_pool_begin(),
            final(self).pool().spec_capacity() == old(self).pool().spec_capacity(),
            final(self).pool().spec_next() == old(self).pool().spec_next(),
            old(self).pool().wf() ==> final(self).pool().wf(),
            old(self).within_pool(p) ==> final(self).pool().spec_free() == old(
                self).pool().spec_free().push(p) && final(self).overflow() == old(self).overflow(),
            !old(self).within_pool(p) ==> final(self).pool() == old(self).pool(),
    {
        // if it's contained within the pool allocator, use the pool allocator
        if self.pool_begin <= p && p <= self.pool_allocator.capacity() {
            self.pool_allocator.deallocate(p)
        } else {
            self.overflow_allocator.deallocate_raw_aligned(p, n, align)
        }
    }
}

impl<Node, OverflowAllocator: RawAllocator + Default> FixedPoolWithOverflow<
    Node,
    OverflowAllocator,
> {
    /// Creates the fixed pool allocator with the given memory and the default overflow allocator.
    pub fn new_with_default_allocator(memory: usize, memory_size: usize) -> (this: Self)
        requires
            FixedPool::<Node>::fits(memory, memory_size),
        ensures
            this.pool().wf(),
            this.pool().spec_free().len() == 0,
            this.spec_pool_begin() == memory,
    {
        Self::new(memory, memory_size, OverflowAllocator::default())
    }
}

impl<Node, OverflowAllocator: RawAllocator> RawAllocator for FixedPoolWithOverflow<
    Node,
    OverflowAllocator,
> {
    /// Hands out what the pool hands out, and where that is zero, hands on what the
    /// overflow allocator hands out for `n` bytes aligned to `align` bytes.
    fn allocate_raw_aligned(&mut self, n: usize, align: usize) -> (p: usize)
        ensures
            old(self).pool().wf() ==> final(self).pool().wf(),
            final(self).spec_pool_begin() == old(self).spec_pool_begin(),
            final(self).pool().spec_capacity() == old(self).pool().spec_capacity(),
            final(self).pool().spec_free() == old(self).pool().spec_allocate().1,
            final(self).pool().spec_next() == old(self).pool().spec_allocate().2,
            old(self).pool().spec_allocate().0 != 0 ==> p == old(self).pool().spec_allocate().0
                && final(self).overflow() == old(self).overflow(),
    {
        let p = self.pool_allocator.allocate_raw_aligned(n, align);
        if p != 0 {
            p
        } else {
            self.overflow_allocator.allocate_raw_aligned(n, align)
        }
    }

    /// Takes back an address: into the pool, where it lies in the memory of the pool, and
    /// else into the overflow allocator.
    fn deallocate_raw_aligned(&mut self, p: usize, n: usize, align: usize)
        ensures
            final(self).spec_pool_begin() == old(self).spec_pool_begin(),
            final(self).pool().spec_capacity() == old(self).pool().spec_capacity(),
            final(self).pool().spec_next() == old(self).pool().spec_next(),
            old(self).pool().wf() ==> final(self).pool().wf(),
            old(self).within_pool(p) ==> final(self).pool().spec_free() == old(
                self).pool().spec_free().push(p) && final(self).overflow() == old(self).overflow(),
            !old(self).within_pool(p) ==> final(self).pool() == old(self).pool(),
    {
        self.deallocate(p, n, align)
    }
}

impl<Node, OverflowAllocator: RawAllocator + Default> Default for FixedPoolWithOverflow<
    Node,
    OverflowAllocator,
> {
    fn default() -> (this: Self)
        ensures
            !this.pool().spec_can_allocate(),
            this.spec_pool_begin() == 0,
    {
        Self {
            pool_allocator: FixedPool::default(),
            overflow_allocator: OverflowAllocator::default(),
            pool_begin: 0,
        }
    }
}

} // verus!
