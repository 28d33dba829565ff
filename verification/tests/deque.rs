use eastl_rs::deque::iter::CompatIterMut;
use eastl_rs::deque::DefaultDeque;
use eastl_rs::{Allocator, DefaultAllocator, Deque};

fn collect(range: std::ops::Range<u32>) -> DefaultDeque<u32> {
    let mut d = DefaultDeque::new();
    for i in range {
        d.push_back(i);
    }
    d
}

fn drain(mut d: DefaultDeque<u32>) -> Vec<u32> {
    let mut v = Vec::new();
    while let Some(elem) = d.pop_front() {
        v.push(elem);
    }
    v
}

#[test]
fn allocator_layout() {
    assert_eq!(
        std::mem::size_of::<DefaultAllocator>(),
        std::mem::size_of::<u8>()
    )
}

#[test]
fn iter_layout() {
    assert_eq!(
        std::mem::size_of::<CompatIterMut>(),
        std::mem::size_of::<usize>() * 4
    );
}

#[test]
fn iter_across_borders() {
    let mut d = DefaultDeque::new();

    // make sure front and back have values so we go over boundaries
    for i in 0..70 {
        d.push_front(i);
        d.push_back(i);
    }

    let mut i = d.iter();

    for elem in (0..70).rev() {
        assert_eq!(i.next(), Some(&elem));
    }
    for elem in (0..70).rev() {
        assert_eq!(i.next_back(), Some(&elem));
    }

    assert_eq!(i.next(), None);
    assert_eq!(i.next_back(), None);
}

#[test]
fn initial_state() {
    let d = DefaultDeque::<u32>::default();
    assert_eq!(d.ptr_array_size(), 8);
    assert_eq!(d.begin().current_array, 3);
    assert_eq!(d.begin().begin, 3 * 64);
    assert_eq!(d.begin().begin, d.begin().current);
    assert_eq!(d.end().begin, d.begin().begin);
    assert_eq!(d.end().begin, d.begin().current);
    assert!(d.is_empty());
    assert_eq!(d.len(), 0);
}

#[test]
fn mod_push_front() {
    let mut d = DefaultDeque::new();

    d.push_front(0);
    assert!(!d.is_empty());
    assert_eq!(d.len(), 1);

    d.push_front(1);
    assert!(!d.is_empty());
    assert_eq!(d.len(), 2);

    for i in 2..65 {
        d.push_front(i);
    }
    assert!(!d.is_empty());
    assert_eq!(d.len(), 65);

    let mut list = eastl_rs::list::DefaultList::new();
    list.push_front(12u32);
    assert_eq!(list.size(), 1);
    assert_eq!(list.front(), Some(&12u32));
    assert_eq!(list.back(), Some(&12u32));
    list.push_front(6u32);
    assert_eq!(list.size(), 2);
    assert_eq!(list.front(), Some(&6u32));
    assert_eq!(list.back(), Some(&12u32));
}

#[test]
fn mod_push_back() {
    let mut d = DefaultDeque::new();

    d.push_back(0);
    assert!(!d.is_empty());
    assert_eq!(d.len(), 1);

    d.push_back(0);
    assert!(!d.is_empty());
    assert_eq!(d.len(), 2);

    for i in 2..65 {
        d.push_back(i);
    }
    assert!(!d.is_empty());
    assert_eq!(d.len(), 65);

    let mut list = eastl_rs::list::DefaultList::new();
    let hello = "hello".to_string();
    let world = "world".to_string();
    list.push_back(hello.clone());
    assert_eq!(list.size(), 1);
    assert_eq!(list.front(), Some(&hello));
    assert_eq!(list.back(), Some(&hello));
    list.push_back(world.clone());
    assert_eq!(list.size(), 2);
    assert_eq!(list.front(), Some(&hello));
    assert_eq!(list.back(), Some(&world));
}

#[test]
fn push_front_and_back() {
    let mut d = DefaultDeque::new();

    d.push_front(0);
    d.push_back(1);
    assert!(!d.is_empty());
    assert_eq!(d.len(), 2);

    for i in 2..65 {
        d.push_front(i);
        d.push_back(i);
    }
    assert!(!d.is_empty());
    assert_eq!(d.len(), 128);
}

#[test]
fn front() {
    let mut d = DefaultDeque::new();
    assert_eq!(d.front(), None);

    d.push_front(1);
    assert_eq!(d.front(), Some(&1));

    d.push_front(2);
    assert_eq!(d.front(), Some(&2));

    d.push_back(3);
    assert_eq!(d.front(), Some(&2));
}

#[test]
fn back() {
    let mut d = DefaultDeque::new();
    assert_eq!(d.back(), None);

    d.push_back(1);
    assert_eq!(d.back(), Some(&1));

    d.push_back(2);
    assert_eq!(d.back(), Some(&2));

    d.push_front(3);
    assert_eq!(d.back(), Some(&2));
}

#[test]
fn realloc_ptr_back() {
    let mut d = DefaultDeque::new();

    for i in 0..512 {
        d.push_back(i);
    }

    for i in (0..512).rev() {
        assert_eq!(d.pop_back(), Some(i));
    }

    assert_eq!(d.pop_back(), None);
    assert_eq!(d.pop_front(), None);

    assert!(d.is_empty());
}

#[test]
fn realloc_ptr_front() {
    let mut d = DefaultDeque::new();

    for i in 0..512 {
        d.push_front(i);
    }

    for i in (0..512).rev() {
        assert_eq!(d.pop_front(), Some(i));
    }

    assert_eq!(d.pop_back(), None);
    assert_eq!(d.pop_front(), None);

    assert!(d.is_empty());
}

#[test]
fn remove_out_of_bounds() {
    let mut d = collect(0..6);

    assert!(d.remove(6).is_none());

    assert_eq!(drain(d), vec![0, 1, 2, 3, 4, 5]);
}

#[test]
fn remove_front() {
    let mut d = collect(0..6);

    assert_eq!(d.remove(0), Some(0));

    assert_eq!(drain(d), vec![1, 2, 3, 4, 5]);
}

#[test]
fn remove_back() {
    let mut d = collect(0..6);

    assert_eq!(d.remove(5), Some(5));

    assert_eq!(drain(d), vec![0, 1, 2, 3, 4]);
}

#[test]
fn remove_middle_front_half() {
    let mut d = collect(0..6);

    assert_eq!(d.remove(1), Some(1));

    assert_eq!(drain(d), vec![0, 2, 3, 4, 5]);
}

#[test]
fn remove_middle_back_half() {
    let mut d = collect(0..6);

    d.remove(4);

    assert_eq!(drain(d), vec![0, 1, 2, 3, 5]);
}

/// An allocator that counts the blocks that are out.
#[derive(Default)]
struct Counting {
    out: usize,
    handed: usize,
}

impl Allocator for Counting {
    fn allocate<T>(&mut self, n: usize) -> Vec<T> {
        assert_ne!(n, 0);
        self.out += 1;
        self.handed += 1;
        Vec::with_capacity(n)
    }

    fn deallocate<T>(&mut self, _block: Vec<T>) {
        self.out -= 1;
    }
}

#[test]
fn subarrays_come_lazily_and_go_eagerly() {
    let mut d: Deque<u32, Counting> = Deque::new();
    // 63 elements fit the first subarray ...
    for i in 0..63 {
        d.push_back(i);
    }
    assert_eq!(d.end().current_array, 3);
    // ... and the 64th fills it: the back cursor moves on to a fresh one
    d.push_back(63);
    assert_eq!(d.end().current_array, 4);
    assert_eq!(d.end().current, d.end().begin);
    assert_eq!(d.len(), 64);
    // taking the 64th away gives the fresh subarray back
    assert_eq!(d.pop_back(), Some(63));
    assert_eq!(d.end().current_array, 3);
    assert_eq!(d.len(), 63);
    let allocator = d.into_allocator();
    assert_eq!(allocator.handed, 3);
    assert_eq!(allocator.out, 0);
}

#[test]
fn subarray_size_goes_by_the_size_of_an_element() {
    assert_eq!(DefaultDeque::<u8>::calculate_subarray_size(), 64);
    assert_eq!(DefaultDeque::<u32>::calculate_subarray_size(), 64);
    assert_eq!(DefaultDeque::<u64>::calculate_subarray_size(), 32);
    assert_eq!(DefaultDeque::<[u8; 16]>::calculate_subarray_size(), 16);
    assert_eq!(DefaultDeque::<[u8; 17]>::calculate_subarray_size(), 8);
    assert_eq!(DefaultDeque::<[u8; 32]>::calculate_subarray_size(), 8);
    assert_eq!(DefaultDeque::<[u8; 33]>::calculate_subarray_size(), 4);
}

#[test]
fn map_slides_towards_the_front_before_it_grows() {
    let mut d = DefaultDeque::new();
    assert!(d.has_room());
    for i in 0..319u32 {
        assert!(d.can_push_back());
        assert!(d.can_push_front());
        d.push_back(i);
    }
    assert_eq!((d.begin().current_array, d.end().current_array), (3, 7));
    // the next subarray has no place behind: the three places before go half each way
    d.push_back(319);
    assert_eq!((d.begin().current_array, d.end().current_array), (1, 6));
    assert_eq!(d.ptr_array_size(), 8);
    for i in 320..448u32 {
        d.push_back(i);
    }
    // one place was left before: the subarrays slide by that one
    assert_eq!((d.begin().current_array, d.end().current_array), (0, 7));
    assert_eq!(d.ptr_array_size(), 8);
    for i in 448..512u32 {
        d.push_back(i);
    }
    // no place is left: the array grows to twice its places and two
    assert_eq!((d.begin().current_array, d.end().current_array), (0, 8));
    assert_eq!(d.ptr_array_size(), 18);
    assert_eq!(d.len(), 512);
    assert_eq!(d.front(), Some(&0));
    assert_eq!(d.back(), Some(&511));
    assert_eq!(drain(d), (0..512).collect::<Vec<u32>>());
}

#[test]
fn map_slides_towards_the_back_before_it_grows() {
    let mut d = DefaultDeque::new();
    for i in 0..192u32 {
        d.push_front(i);
    }
    assert_eq!((d.begin().current_array, d.end().current_array), (0, 3));
    // four places are left behind: the subarrays slide by half of them
    d.push_front(192);
    assert_eq!((d.begin().current_array, d.end().current_array), (1, 5));
    assert_eq!(d.ptr_array_size(), 8);
    for i in 193..512u32 {
        d.push_front(i);
    }
    assert_eq!(d.ptr_array_size(), 18);
    assert_eq!(d.len(), 512);
    assert_eq!(d.front(), Some(&511));
    assert_eq!(d.back(), Some(&0));
}

#[test]
fn round_trip_in_both_orders() {
    // first in, first out, with pops between the pushes
    let mut d = DefaultDeque::new();
    let mut popped = Vec::new();
    for i in 0..200u32 {
        d.push_back(i);
        if i % 3 == 0 {
            popped.push(d.pop_front().unwrap());
        }
    }
    while let Some(elem) = d.pop_front() {
        popped.push(elem);
    }
    assert_eq!(popped, (0..200).collect::<Vec<u32>>());
    assert!(d.is_empty());
    assert_eq!(d.len(), 0);

    // last in, first out
    let mut d = DefaultDeque::new();
    d.push_back(1000u32);
    for i in 0..65u32 {
        d.push_back(i);
    }
    for i in (0..65u32).rev() {
        assert_eq!(d.pop_back(), Some(i));
    }
    assert_eq!(d.len(), 1);
    for i in 0..65u32 {
        d.push_front(i);
    }
    for i in (0..65u32).rev() {
        assert_eq!(d.pop_front(), Some(i));
    }
    assert_eq!(d.pop_front(), Some(1000));
    assert!(d.is_empty());
    assert_eq!(d.len(), 0);
}

#[test]
fn length_counts_pushes_less_pops() {
    let mut d = DefaultDeque::new();
    let mut pushed = 0;
    let mut taken = 0;
    for i in 0..300u32 {
        if i % 2 == 0 {
            d.push_back(i);
        } else {
            d.push_front(i);
        }
        pushed += 1;
        if i % 5 == 0 && d.pop_back().is_some() {
            taken += 1;
        }
        if i % 7 == 0 && d.remove(1).is_some() {
            taken += 1;
        }
        assert_eq!(d.len(), pushed - taken);
        assert_eq!(d.is_empty(), d.len() == 0);
    }
    assert_eq!(d.pop_front().is_some(), pushed > taken);
}

#[test]
fn map_growth_keeps_the_order() {
    let mut d = DefaultDeque::new();
    for i in 0..512u32 {
        d.push_back(i);
    }
    for i in 0..512u32 {
        assert_eq!(d.pop_front(), Some(i));
    }
    assert!(d.is_empty());
    for i in 0..512u32 {
        d.push_front(i);
    }
    for i in 0..512u32 {
        assert_eq!(d.pop_back(), Some(i));
    }
    assert!(d.is_empty());
}

#[test]
fn pushes_at_both_ends_in_turn() {
    let mut d = DefaultDeque::new();
    for i in 0..100u32 {
        d.push_front(i);
        d.push_back(1000 + i);
    }
    assert_eq!(d.len(), 200);
    for i in (0..100u32).rev() {
        assert_eq!(d.pop_front(), Some(i));
    }
    for i in (0..100u32).rev() {
        assert_eq!(d.pop_back(), Some(1000 + i));
    }
    assert!(d.is_empty());
}

#[test]
fn remove_across_subarrays() {
    let mut d = collect(0..200);
    assert_eq!(d.remove(70), Some(70));
    assert_eq!(d.remove(150), Some(151));
    assert_eq!(d.remove(198), None);
    assert_eq!(d.len(), 198);
    let rest = drain(d);
    assert_eq!(rest.len(), 198);
    assert_eq!(rest[69], 69);
    assert_eq!(rest[70], 71);
    assert_eq!(rest[149], 150);
    assert_eq!(rest[150], 152);
    assert_eq!(rest[197], 199);
}

#[test]
fn mutable_looks_write_through() {
    let mut d = collect(0..130);
    *d.front_mut().unwrap() = 500;
    *d.back_mut().unwrap() = 600;
    {
        let mut it = d.iter_mut();
        *it.next().unwrap() += 1;
        *it.next().unwrap() = 77;
        *it.next_back().unwrap() += 1;
    }
    assert_eq!(d.front(), Some(&501));
    assert_eq!(d.back(), Some(&601));
    assert_eq!(d.remove(1), Some(77));
    let mut empty = DefaultDeque::<u32>::new();
    assert!(empty.front_mut().is_none());
    assert!(empty.back_mut().is_none());
    assert!(empty.iter_mut().next().is_none());
}

#[test]
fn cursors_come_apart_and_together() {
    let d = collect(0..100);
    let mut it = d.iter();
    assert_eq!(it.next(), Some(&0));
    assert_eq!(it.next_back(), Some(&99));
    assert_eq!(it.len(), 98);
    let (begin, end) = it.into_compat();
    assert_eq!(begin.current, d.begin().current + 1);
    assert_eq!(end.current, d.end().current - 1);
    assert_eq!(begin.end - begin.begin, 64);
    assert_eq!(end.current_array, begin.current_array + 1);
    let mut again = eastl_rs::deque::iter::Iter::from_compat(&d, begin, end).unwrap();
    assert_eq!(again.next(), Some(&1));
    assert_eq!(again.next_back(), Some(&98));
    // a cursor that reaches beyond the elements is not taken
    let mut beyond = end;
    beyond.current += 2;
    assert!(d.iter_from_compat(begin, beyond).is_none());
    // nor one whose bounds do not belong to its subarray
    let mut crooked = begin;
    crooked.begin += 1;
    assert!(d.iter_from_compat(crooked, end).is_none());
    let mut into_iter = d.into_iter();
    assert_eq!(into_iter.len(), 100);
    assert_eq!(into_iter.next(), Some(0));
    assert_eq!(into_iter.next_back(), Some(99));
}

#[test]
fn mutable_cursors_come_together() {
    let mut d = collect(0..100);
    let (begin, end) = {
        let mut it = d.iter_mut();
        *it.next().unwrap() = 7;
        it.next_back();
        it.into_compat_mut()
    };
    assert_eq!(begin.current, d.begin().current + 1);
    assert_eq!(eastl_rs::deque::iter::CompatIter::from(end).current, d.end().current - 1);
    {
        let mut it = d.iter_mut_from_compat(begin, end).unwrap();
        *it.next().unwrap() = 8;
        *it.next_back().unwrap() = 9;
        let (begin, end) = it.into_compat();
        assert_eq!(end.current - begin.current, 96);
    }
    assert_eq!(d.remove(0), Some(7));
    assert_eq!(d.remove(0), Some(8));
    assert_eq!(d.remove(96), Some(9));
    assert_eq!(d.len(), 97);
    let mut beyond = d.end();
    beyond.current += 1;
    let begin = d.begin();
    assert!(d.iter_mut_from_compat(begin, beyond).is_none());
}
