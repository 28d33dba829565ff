use eastl_rs::fixed_vector::DefaultFixedVector;

#[test]
fn push() {
    let mut v = DefaultFixedVector::<u32, 10>::new();
    assert_eq!(v.len(), 0);
    assert!(!v.has_overflowed());
    assert!(!v.is_full());
    assert!(v.is_empty());
    v.as_vector_mut().push(64);
    assert_eq!(v.len(), 1);
    assert_eq!(v.as_slice()[0], 64);
    assert!(!v.has_overflowed());
    assert!(!v.is_full());
    assert!(!v.is_empty());
    assert_eq!(v.max_size(), 10);
    assert_eq!(v.capacity(), 10);
}

#[test]
fn overflow() {
    let mut v = DefaultFixedVector::<u32, 10>::new();
    for i in 0..12 {
        v.as_vector_mut().push(i);
    }
    assert_eq!(v.len(), 12);
    assert!(v.has_overflowed());
    assert_eq!(v.as_slice()[11], 11);
    assert_eq!(v.capacity(), 20);
    assert_eq!(v.max_size(), 10);
}

#[test]
fn fixed_vector_iter() {
    let mut v = DefaultFixedVector::<u32, 10>::new();
    v.as_vector_mut().push(1);
    v.as_vector_mut().push(2);
    v.as_vector_mut().push(3);
    assert_eq!(v.iter().sum::<u32>(), 6);
}

#[test]
fn move_stack() {
    let mut v = DefaultFixedVector::<u32, 10>::new();
    v.as_vector_mut().push(1);
    v.as_vector_mut().push(2);
    let target = v;
    assert!(!target.is_full());
    assert!(!target.is_empty());
    assert_eq!(target.len(), 2);
    assert!(!target.has_overflowed());
}

#[test]
fn move_overflow() {
    let mut v = DefaultFixedVector::<u32, 10>::new();
    for i in 0..12 {
        v.as_vector_mut().push(i);
    }
    let target = v;
    assert_eq!(target.len(), 12);
    assert!(target.has_overflowed());
    assert_eq!(target.as_slice()[11], 11);
}

#[test]
fn a_cleared_vector_has_left_its_storage() {
    let mut v = DefaultFixedVector::<u32, 4>::new();
    v.as_vector_mut().push(1);
    v.as_vector_mut().clear();
    assert!(v.has_overflowed());
    assert_eq!(v.capacity(), 0);
    assert_eq!(v.max_size(), 4);
}
