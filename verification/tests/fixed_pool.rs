use eastl_rs::fixed_pool::with_overflow::FixedPoolWithOverflow;
use eastl_rs::fixed_pool::{FixedPool, RawAllocator};
use std::mem;

type TestNode = u128;

/// The address that the memory of the tests starts at: four bytes behind an aligned one.
const BUF: usize = 0x1004;

/// An allocator that hands out addresses far behind the memory of the tests.
#[derive(Default)]
struct Heap {
    handed: usize,
    taken: Vec<usize>,
}

impl RawAllocator for Heap {
    fn allocate_raw_aligned(&mut self, n: usize, align: usize) -> usize {
        let p = (0x10_0000 + self.handed + (align - 1)) & !(align - 1);
        self.handed = p + n - 0x10_0000;
        p
    }

    fn deallocate_raw_aligned(&mut self, p: usize, _n: usize, _align: usize) {
        self.taken.push(p);
    }
}

fn allocate(pool: &mut FixedPool<TestNode>) -> usize {
    pool.allocate_raw_aligned(mem::size_of::<TestNode>(), mem::align_of::<TestNode>())
}

#[test]
fn mod_simple_alloc_happy_case() {
    let mut allocator = FixedPool::<TestNode>::new(BUF, mem::size_of::<TestNode>() * 2);
    assert!(allocator.can_allocate());

    let p = allocate(&mut allocator);

    // ensure alignment and size constraints are met
    assert!(p != 0);
    assert_eq!(p, (BUF + mem::align_of::<TestNode>() - 1) & !(mem::align_of::<TestNode>() - 1));
    assert_eq!(p & (mem::align_of::<TestNode>() - 1), 0);
    assert!(p + mem::size_of::<TestNode>() <= allocator.capacity());
}

#[test]
fn simple_alloc_empty() {
    // only space for one node
    let mut allocator = FixedPool::<TestNode>::new(BUF, (mem::size_of::<TestNode>() * 2) - 1);
    assert!(allocator.can_allocate());

    // allocate the only possible node
    let _ = allocate(&mut allocator);

    // now we cannot allocate
    assert!(!allocator.can_allocate());
    let p = allocate(&mut allocator);

    assert!(p == 0);
}

#[test]
fn mod_simple_alloc_realloc() {
    // only space for one node
    let mut allocator = FixedPool::<TestNode>::new(BUF, (mem::size_of::<TestNode>() * 2) - 1);
    assert!(allocator.can_allocate());

    // allocate the only possible node
    let p = allocate(&mut allocator);
    assert!(!allocator.can_allocate());

    // de-allocate the node
    allocator.deallocate_raw_aligned(p, mem::size_of::<TestNode>(), mem::align_of::<TestNode>());

    // we should be able to allocate again
    assert!(allocator.can_allocate());
    let p = allocate(&mut allocator);

    assert!(p != 0);
    assert_eq!(p & (mem::align_of::<TestNode>() - 1), 0);
    assert!(p + mem::size_of::<TestNode>() <= allocator.capacity());
}

#[test]
fn with_overflow_simple_alloc_happy_case() {
    let mut allocator = FixedPoolWithOverflow::<TestNode, _>::new(
        BUF,
        mem::size_of::<TestNode>() * 2,
        Heap::default(),
    );
    assert!(allocator.can_allocate());

    let p = allocator.allocate(mem::size_of::<TestNode>(), mem::align_of::<TestNode>());

    // ensure alignment and size constraints are met
    assert!(p != 0);
    assert_eq!(p & (mem::align_of::<TestNode>() - 1), 0);
    assert!(p + mem::size_of::<TestNode>() <= allocator.pool_capacity());
}

#[test]
fn simple_alloc_overflow() {
    // only space for one node
    let mut allocator = FixedPoolWithOverflow::<TestNode, _>::new(
        BUF,
        (mem::size_of::<TestNode>() * 2) - 1,
        Heap::default(),
    );
    assert!(allocator.can_allocate());

    // allocate the only possible node
    let _ = allocator.allocate(mem::size_of::<TestNode>(), mem::align_of::<TestNode>());

    // now we cannot allocate
    assert!(!allocator.can_allocate());
    let p = allocator.allocate(mem::size_of::<TestNode>(), mem::align_of::<TestNode>());

    // ensure alignment and size constraints are met
    assert!(p != 0);
    assert_eq!(p & (mem::align_of::<TestNode>() - 1), 0);

    // make sure the allocation is not within the pool
    assert!(p < allocator.pool_begin() || p >= allocator.pool_capacity());
}

#[test]
fn with_overflow_simple_alloc_realloc() {
    // only space for one node
    let mut allocator = FixedPoolWithOverflow::<TestNode, _>::new(
        BUF,
        (mem::size_of::<TestNode>() * 2) - 1,
        Heap::default(),
    );
    assert!(allocator.can_allocate());

    // allocate the only possible node
    let pool_allocated = allocator.allocate(mem::size_of::<TestNode>(), mem::align_of::<TestNode>());
    assert!(pool_allocated != 0);

    // now we cannot allocate
    assert!(!allocator.can_allocate());
    let overflow_allocated =
        allocator.allocate(mem::size_of::<TestNode>(), mem::align_of::<TestNode>());
    // make sure the allocation is not within the pool
    assert!(
        overflow_allocated < allocator.pool_begin()
            || overflow_allocated >= allocator.pool_capacity()
    );

    // deallocate the overflow allocated first
    allocator.deallocate(
        overflow_allocated,
        mem::size_of::<TestNode>(),
        mem::align_of::<TestNode>(),
    );
    // make sure that we still can't allocate
    assert!(!allocator.can_allocate());

    // deallocate the pool allocated value now
    allocator.deallocate(pool_allocated, mem::size_of::<TestNode>(), mem::align_of::<TestNode>());
    // we should be able to allocate now
    assert!(allocator.can_allocate());
}

#[test]
fn nodes_start_at_the_first_aligned_address() {
    let size = mem::size_of::<TestNode>();
    let mut pool = FixedPool::<TestNode>::new(0x2000, 4 * size);
    assert_eq!(pool.capacity(), 0x2000 + 4 * size);
    assert_eq!(allocate(&mut pool), 0x2000);
    assert_eq!(allocate(&mut pool), 0x2000 + size);
    pool.deallocate(0x2000);
    pool.deallocate(0x2000 + size);
    // the node that came back last goes out first
    assert_eq!(pool.allocate(), 0x2000 + size);
    assert_eq!(pool.allocate(), 0x2000);
    assert_eq!(pool.allocate(), 0x2000 + 2 * size);
    assert_eq!(pool.allocate(), 0x2000 + 3 * size);
    assert!(!pool.can_allocate());
    assert!(pool.holds_whole_nodes());
    assert_eq!(pool.allocate(), 0);

    let empty = FixedPool::<TestNode>::default();
    assert!(!empty.can_allocate());
}
