use eastl_rs::vector::DefaultVector;
use std::cell::Cell;
use std::rc::Rc;

#[test]
fn empty_vec() {
    let v: DefaultVector<u32> = DefaultVector::new();
    assert_eq!(v.capacity(), 0);
    assert_eq!(v.len(), 0);
    assert!(v.is_empty());
}

#[test]
fn push_one() {
    let mut v = DefaultVector::new();
    v.push(20);
    assert_eq!(v.capacity(), 1);
    assert_eq!(v.len(), 1);
    assert!(!v.is_empty());
    let arr = &*v;
    assert_eq!(arr.len(), 1);
    assert_eq!(arr[0], 20);
    assert_eq!(v.pop(), Some(20));
    assert_eq!(v.capacity(), 1);
    assert_eq!(v.len(), 0);
    assert!(v.is_empty());
}

#[test]
fn push_two() {
    let mut v = DefaultVector::new();
    v.push(20);
    v.push(25);
    assert_eq!(v.capacity(), 2);
    assert_eq!(v.len(), 2);
    assert!(!v.is_empty());
    assert_eq!(v.as_slice().len(), 2);
    assert_eq!(v.as_slice()[0], 20);
    *v.get_mut(1).unwrap() = 30;
    assert_eq!(v.pop(), Some(30));
    assert_eq!(v.len(), 1);
    assert_eq!(v.pop(), Some(20));
    assert_eq!(v.capacity(), 2);
    assert_eq!(v.len(), 0);
    assert!(v.is_empty());
}

#[test]
fn push_three() {
    let mut v = DefaultVector::new();
    v.push(20);
    v.push(25);
    v.push(30);
    assert_eq!(v.capacity(), 4);
    assert_eq!(v.len(), 3);
    assert!(!v.is_empty());
    assert_eq!(v.pop(), Some(30));
    assert_eq!(v.len(), 2);
    assert_eq!(v.pop(), Some(25));
    assert_eq!(v.len(), 1);
    assert_eq!(v.pop(), Some(20));
    assert_eq!(v.capacity(), 4);
    assert_eq!(v.len(), 0);
    assert!(v.is_empty());
}

#[test]
fn vector_insert() {
    let mut v = DefaultVector::new();
    v.push(1);
    v.push(2);
    v.push(3);
    v.push(4);
    v.insert(2, 5);
    assert_eq!(&*v, &[1, 2, 5, 3, 4]);
    assert_eq!(v.capacity(), 8);
}

#[test]
fn vector_remove() {
    let mut v = DefaultVector::new();
    v.push(1);
    v.push(2);
    v.push(3);
    v.push(4);
    assert_eq!(v.remove(2), Some(3));
    assert_eq!(&*v, &[1, 2, 4]);
}

#[test]
fn vector_iter() {
    let mut v = DefaultVector::new();
    v.push(1);
    v.push(2);
    v.push(3);
    assert_eq!(v.iter().sum::<i32>(), 6);
}

#[test]
fn from() {
    let v = DefaultVector::from(&[1, 2, 3]);
    assert_eq!(v.capacity(), 3);
    assert_eq!(v.len(), 3);
    assert_eq!(&*v, &[1, 2, 3]);
}

#[test]
fn vector_from_iter() {
    let range = 1..4;
    let (lower_bound, _) = range.size_hint();
    let mut v = DefaultVector::with_capacity(lower_bound);
    for elem in range {
        v.push(elem);
    }
    assert_eq!(v.capacity(), 3);
    assert_eq!(v.len(), 3);
    assert_eq!(&*v, &[1, 2, 3]);
}

struct Test<'a> {
    r: &'a Cell<u32>,
}

impl<'a> Drop for Test<'a> {
    fn drop(&mut self) {
        self.r.set(self.r.get() * 2);
    }
}

#[test]
fn vector_drop() {
    let foo = Cell::new(1);
    let bar = Cell::new(1);
    {
        let _ = DefaultVector::from([Test { r: &foo }, Test { r: &bar }]);
    }
    assert_eq!(foo.get(), 2);
    assert_eq!(bar.get(), 2);
}

#[test]
fn vector_clear() {
    let mut v = DefaultVector::from(&[1, 2, 3]);
    assert_eq!(v.capacity(), 3);
    assert_eq!(v.len(), 3);
    assert_eq!(&*v, &[1, 2, 3]);

    // clear the vec
    v.clear();
    assert!(v.is_empty());
    assert_eq!(v.capacity(), 0);
}

#[test]
fn ensure_clone() {
    struct A {
        a: Rc<Cell<u32>>,
    }

    impl A {
        fn new(a: &Rc<Cell<u32>>) -> Self {
            a.set(a.get() + 1);
            Self { a: a.clone() }
        }
    }

    impl Clone for A {
        fn clone(&self) -> Self {
            Self::new(&self.a)
        }
    }

    let i = Rc::new(Cell::new(0));
    let a = [A::new(&i)];

    let _ = DefaultVector::from(&a);

    assert_eq!(i.get(), 2);
}

#[test]
fn append() {
    let mut v = DefaultVector::from(&[1, 2, 3]);

    // append 3 more numbers
    v.append(&[4, 5, 6]);
    assert_eq!(v.len(), 6);
    assert_eq!(v.capacity(), 6);
    assert_eq!(&*v, &[1, 2, 3, 4, 5, 6]);
}

#[test]
fn reserve_adds_to_the_capacity() {
    let mut v = DefaultVector::<u8>::with_capacity(2);
    v.reserve(0);
    assert_eq!(v.capacity(), 2);
    v.reserve(5);
    assert_eq!(v.capacity(), 7);
    assert!(v.is_empty());
    assert!(!v.is_full());
}

#[test]
fn remove_and_pop_miss() {
    let mut v = DefaultVector::from(&[7, 8]);
    assert_eq!(v.remove(2), None);
    assert_eq!(&*v, &[7, 8]);
    assert_eq!(v.get(1), Some(&8));
    assert_eq!(v.get(2), None);
    v.clear();
    assert_eq!(v.pop(), None);
}

#[test]
fn into_iter_from_both_ends() {
    let v = DefaultVector::from(&[1, 2, 3, 4]);
    let mut it = v.into_iter();
    assert_eq!(it.capacity(), 4);
    assert_eq!(it.len(), 4);
    assert_eq!(it.next(), Some(1));
    assert_eq!(it.next_back(), Some(4));
    assert_eq!(it.as_slice(), &[2, 3]);
    assert_eq!(it.next(), Some(2));
    assert_eq!(it.next(), Some(3));
    assert!(it.is_empty());
    assert_eq!(it.next(), None);
    assert_eq!(it.next_back(), None);
}
