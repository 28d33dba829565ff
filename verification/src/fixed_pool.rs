use core::marker::PhantomData;
use vstd::arithmetic::div_mod::{lemma_fundamental_div_mod, lemma_mod_multiples_vanish};
use vstd::prelude::*;

pub mod with_overflow;

verus! {

/// An object which hands out addresses of memory and takes them back.
///
/// The address zero stands for no memory.
pub trait RawAllocator {
    /// Hands out the address of `n` bytes aligned to `align` bytes, or zero.
    fn allocate_raw_aligned(&mut self, n: usize, align: usize) -> (p: usize);

    /// Takes back the address `p` of `n` bytes aligned to `align` bytes.
    fn deallocate_raw_aligned(&mut self, p: usize, n: usize, align: usize)
        requires
            p != 0,
    ;
}

/// An allocator that hands out its addresses from one range of memory.
pub trait PoolAllocator: RawAllocator {
    /// A node of the pool has a size, and its alignment is a power of two; the memory ends
    /// within the address space, and starts no more than its own size before an aligned
    /// address.
    spec fn init_fits(memory: usize, memory_size: usize) -> bool;

    /// Initializes the fixed pool allocator with the memory of `memory_size` bytes at the
    /// address `memory`.
    fn init(&mut self, memory: usize, memory_size: usize)
        requires
            Self::init_fits(memory, memory_size),
    ;
}

/// The least address from `address` on that is a multiple of `align`, a power of two.
pub open spec fn aligned_up(address: usize, align: usize) -> usize {
    ((address + (align - 1)) as usize) & !((align - 1) as usize)
}

/// `align` is a power of two.
pub open spec fn is_power_of_two(align: usize) -> bool {
    align != 0 && align & ((align - 1) as usize) == 0
}

/// Rounding up to a power of two gives the least multiple of it from the address on.
pub proof fn lemma_aligned_up(address: usize, align: usize)
    requires
        is_power_of_two(align),
        address + (align - 1) <= usize::MAX,
    ensures
        aligned_up(address, align) & ((align - 1) as usize) == 0,
        address <= aligned_up(address, align),
        aligned_up(address, align) - address < align,
{
    let sum = (address + (align - 1)) as usize;
    let mask = (align - 1) as usize;
    assert((sum & !mask) & mask == 0 && address <= (sum & !mask) && (sum & !mask) - address
        < align) by (bit_vector)
        requires
            align != 0,
            align & mask == 0,
            mask + 1 == align,
            sum == address + mask,
    ;
}

/// A pool of nodes: it allocates out of a block of memory, node by node, and hands out the
/// nodes again that came back.
pub struct FixedPool<Node> {
    head: Vec<usize>,
    next: usize,
    capacity: usize,
    _node: PhantomData<Node>,
}

impl<Node> FixedPool<Node> {
    /// The addresses that came back, the last one last.
    pub closed spec fn spec_free(&self) -> Seq<usize> {
        self.head@
    }

    /// The address of the next node that never was out.
    pub closed spec fn spec_next(&self) -> usize {
        self.next
    }

    /// The address behind the last node.
    pub closed spec fn spec_capacity(&self) -> usize {
        self.capacity
    }

    /// The size of a node.
    pub open spec fn node_size() -> nat {
        vstd::layout::size_of::<Node>()
    }

    /// The alignment of a node.
    pub open spec fn node_align() -> nat {
        vstd::layout::align_of::<Node>()
    }

    /// The memory that is left holds a whole number of nodes.
    pub open spec fn wf(&self) -> bool {
        &&& Self::node_size() > 0
        &&& self.spec_next() <= self.spec_capacity()
        &&& (self.spec_capacity() - self.spec_next()) % (Self::node_size() as int) == 0
        &&& self.spec_next() != self.spec_capacity() ==> self.spec_next() != 0
        &&& forall|i: int| 0 <= i < self.spec_free().len() ==> #[trigger] self.spec_free()[i] != 0
    }

    /// The pool can hand out a node.
    pub open spec fn spec_can_allocate(&self) -> bool {
        self.spec_free().len() > 0 || self.spec_next() != self.spec_capacity()
    }

    /// A node of the pool has a size, and its alignment is a power of two; the memory ends
    /// within the address space, and starts no more than its own size before an aligned
    /// address.
    pub open spec fn fits(memory: usize, memory_size: usize) -> bool {
        &&& memory != 0
        &&& 0 < Self::node_size() <= usize::MAX
        &&& 0 < Self::node_align() <= usize::MAX
        &&& is_power_of_two(Self::node_align() as usize)
        &&& memory + memory_size <= usize::MAX
        &&& memory + (Self::node_align() - 1) <= usize::MAX
        &&& aligned_up(memory, Self::node_align() as usize) - memory <= memory_size
    }

    /// What the pool hands out next, with the addresses that came back and the next address
    /// that never was out as they stand after it: the last address that came back, or else
    /// the next one that never was out, or else zero. A pool that is not in order hands out
    /// zero.
    pub open spec fn spec_allocate(&self) -> (usize, Seq<usize>, usize) {
        if !self.wf() {
            (0, self.spec_free(), self.spec_next())
        } else if self.spec_free().len() > 0 {
            (self.spec_free().last(), self.spec_free().drop_last(), self.spec_next())
        } else if self.spec_next() != self.spec_capacity() {
            (
                self.spec_next(),
                self.spec_free(),
                (self.spec_next() + Self::node_size()) as usize,
            )
        } else {
            (0, self.spec_free(), self.spec_next())
        }
    }

    /// Creates the fixed pool allocator with the memory of `memory_size` bytes at the
    /// address `memory`.
    pub fn new(memory: usize, memory_size: usize) -> (pool: Self)
        requires
            Self::fits(memory, memory_size),
        ensures
            pool.wf(),
            pool.spec_free().len() == 0,
            pool.spec_next() == aligned_up(memory, Self::node_align() as usize),
            pool.spec_capacity() == pool.spec_next() + (memory + memory_size - pool.spec_next())
                / (Self::node_size() as int) * Self::node_size(),
    {
        let mut res = Self::default();
        res.init_pool(memory, memory_size);
        res
    }

    /// Returns true if the pool can allocate.
    #[verifier::when_used_as_spec(spec_can_allocate)]
    pub fn can_allocate(&self) -> (can: bool)
        ensures
            can == self.spec_can_allocate(),
    {
        self.head.len() > 0 || (self.next != self.capacity)
    }

    /// Returns the address behind the last node of the pool.
    pub fn capacity(&self) -> (capacity: usize)
        ensures
            capacity == self.spec_capacity(),
    {
        self.capacity
    }

    /// Initializes the fixed pool allocator with the memory of `memory_size` bytes at the
    /// address `memory`: the nodes start at the first aligned address, and the memory behind
    /// the last whole node is left alone.
    pub fn init_pool(&mut self, memory: usize, memory_size: usize)
        requires
            Self::fits(memory, memory_size),
        ensures
            final(self).wf(),
            final(self).spec_free().len() == 0,
            final(self).spec_next() == aligned_up(memory, Self::node_align() as usize),
            final(self).spec_next() & ((Self::node_align() - 1) as usize) == 0,
            memory <= final(self).spec_next() < memory + Self::node_align(),
            final(self).spec_capacity() == final(self).spec_next() + (memory + memory_size
                - final(self).spec_next()) / (Self::node_size() as int) * Self::node_size(),
            final(self).spec_capacity() <= memory + memory_size,
    {
        let mut memory_size = memory_size;
        let node_align = core::mem::align_of::<Node>();
        let node_size = core::mem::size_of::<Node>();

        proof {
            lemma_aligned_up(memory, node_align);
        }
        let next = (memory + (node_align - 1)) & !(node_align - 1);
        // chop off any bytes consumed by alignment requirements
        memory_size = memory_size - (next - memory);

        // chop down the end of the memory block to fit size requirements
        proof {
            lemma_fundamental_div_mod(memory_size as int, node_size as int);
            vstd::arithmetic::div_mod::lemma_div_pos_is_pos(memory_size as int, node_size as int);
            vstd::arithmetic::div_mod::lemma_mod_bound(memory_size as int, node_size as int);
            vstd::arithmetic::mul::lemma_mul_is_commutative(
                node_size as int,
                memory_size as int / node_size as int,
            );
            lemma_mod_multiples_vanish(
                memory_size as int / node_size as int,
                0,
                node_size as int,
            );
        }
        memory_size = (memory_size / node_size) * node_size;

        self.head.clear();
        self.next = next;
        self.capacity = next + memory_size;
    }

    /// Hands out the address of a node: the last one that came back, or else the next one
    /// that never was out, or else zero.
    pub fn allocate(&mut self) -> (p: usize)
        requires
            old(self).wf(),
        ensures
            final(self).wf(),
            final(self).spec_capacity() == old(self).spec_capacity(),
            p != 0 <==> old(self).spec_can_allocate(),
            old(self).spec_free().len() > 0 ==> {
                &&& p == old(self).spec_free().last()
                &&& final(self).spec_free() == old(self).spec_free().drop_last()
                &&& final(self).spec_next() == old(self).spec_next()
            },
            old(self).spec_free().len() == 0 && old(self).spec_next() != old(self).spec_capacity()
                ==> {
                &&& p == old(self).spec_next()
                &&& final(self).spec_free() == old(self).spec_free()
                &&& final(self).spec_next() == old(self).spec_next() + Self::node_size()
            },
            !old(self).spec_can_allocate() ==> {
                &&& p == 0
                &&& final(self).spec_free() == old(self).spec_free()
                &&& final(self).spec_next() == old(self).spec_next()
            },
    {
        match self.head.pop() {
            Some(link) => {
                // if there's an already-freed node...
                link
            },
            None => {
                // there aren't any freed nodes. allocate a new one
                if self.next != self.capacity {
                    let node_size = core::mem::size_of::<Node>();
                    proof {
                        let left = self.capacity - self.next;
                        lemma_fundamental_div_mod(left as int, node_size as int);
                        vstd::arithmetic::div_mod::lemma_div_pos_is_pos(
                            left as int,
                            node_size as int,
                        );
                        assert(left as int / node_size as int >= 1) by {
                            if left as int / node_size as int == 0 {
                                assert(node_size as int * 0 == 0);
                            }
                        }
                        assert(node_size * (left as int / node_size as int) >= node_size)
                            by (nonlinear_arith)
                            requires
                                left as int / node_size as int >= 1,
                                node_size > 0,
                        ;
                        lemma_mod_multiples_vanish(-1, left as int, node_size as int);
                    }
                    let link = self.next;
                    self.next = self.next + node_size;
                    link
                } else {
                    0
                }
            },
        }
    }

    /// Returns true if the pool is in order: the memory that is left holds a whole number of
    /// nodes, and no address of the pool is zero.
    pub fn holds_whole_nodes(&self) -> (whole: bool)
        ensures
            whole == self.wf(),
    {
        let node_size = core::mem::size_of::<Node>();
        if node_size == 0 || self.next > self.capacity || (self.capacity - self.next) % node_size
            != 0 || (self.next != self.capacity && self.next == 0) {
            return false;
        }
        let mut i: usize = 0;
        while i < self.head.len()
            invariant
                i <= self.head@.len(),
                forall|j: int| 0 <= j < i ==> #[trigger] self.head@[j] != 0,
            decreases self.head@.len() - i,
        {
            if self.head[i] == 0 {
                assert(self.spec_free()[i as int] == 0);
                return false;
            }
            i = i + 1;
        }
        true
    }

    /// Takes back the address of a node.
    pub fn deallocate(&mut self, p: usize)
        requires
            p != 0,
        ensures
            old(self).wf() ==> final(self).wf(),
            final(self).spec_free() == old(self).spec_free().push(p),
            final(self).spec_next() == old(self).spec_next(),
            final(self).spec_capacity() == old(self).spec_capacity(),
    {
        // add to the linked list
        self.head.push(p);
        proof {
            if old(self).wf() {
                assert forall|i: int| 0 <= i < self.spec_free().len() implies #[trigger] self.spec_free()[i]
                    != 0 by {
                    if i < old(self).spec_free().len() {
                        assert(old(self).spec_free()[i] != 0);
                    }
                }
            }
        }
    }
}

impl<Node> RawAllocator for FixedPool<Node> {
    /// Hands out the address of a node, whatever size and alignment are asked for: the
    /// last one that came back, or else the next one that never was out, or else zero. A
    /// pool that is not in order hands out zero and stays as it is.
    fn allocate_raw_aligned(&mut self, _n: usize, _align: usize) -> (p: usize)
        ensures
            old(self).wf() ==> final(self).wf(),
            final(self).spec_capacity() == old(self).spec_capacity(),
            (p, final(self).spec_free(), final(self).spec_next()) == old(self).spec_allocate(),
    {
        if !self.holds_whole_nodes() {
            return 0;
        }
        self.allocate()
    }

    /// Takes back the address of a node: it is the first to go out again.
    fn deallocate_raw_aligned(&mut self, p: usize, _n: usize, _align: usize)
        ensures
            old(self).wf() ==> final(self).wf(),
            final(self).spec_free() == old(self).spec_free().push(p),
            final(self).spec_next() == old(self).spec_next(),
            final(self).spec_capacity() == old(self).spec_capacity(),
    {
        self.deallocate(p)
    }
}

impl<Node> PoolAllocator for FixedPool<Node> {
    open spec fn init_fits(memory: usize, memory_size: usize) -> bool {
        Self::fits(memory, memory_size)
    }

    /// Initializes the pool with the memory of `memory_size` bytes at the address `memory`:
    /// the nodes start at the first aligned address, and the memory behind the last whole
    /// node is left alone.
    fn init(&mut self, memory: usize, memory_size: usize)
        ensures
            final(self).wf(),
            final(self).spec_free().len() == 0,
            final(self).spec_next() == aligned_up(memory, Self::node_align() as usize),
            final(self).spec_capacity() == final(self).spec_next() + (memory + memory_size
                - final(self).spec_next()) / (Self::node_size() as int) * Self::node_size(),
            final(self).spec_capacity() <= memory + memory_size,
    {
        self.init_pool(memory, memory_size)
    }
}

impl<Node> Default for FixedPool<Node> {
    fn default() -> (pool: Self)
        ensures
            pool.spec_free().len() == 0,
            pool.spec_next() == 0,
            pool.spec_capacity() == 0,
            !pool.spec_can_allocate(),
    {
        Self { head: Vec::new(), next: 0, capacity: 0, _node: PhantomData }
    }
}

} // verus!
