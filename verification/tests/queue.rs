use eastl_rs::queue::DefaultQueue;

#[test]
fn queue_push_pop() {
    let mut q = DefaultQueue::new();

    assert!(q.is_empty());
    assert_eq!(q.len(), 0);

    for i in 0..256 {
        assert!(q.can_push());
        q.push(i);
    }
    assert!(q.has_room());
    assert_eq!(q.top(), Some(&0));
    assert!(!q.is_empty());
    assert_eq!(q.len(), 256);

    for i in 0..256 {
        assert_eq!(q.pop(), Some(i));
    }

    assert!(q.is_empty());
    assert_eq!(q.len(), 0);
}

#[test]
fn queue_iter() {
    let mut q: DefaultQueue<i32> = DefaultQueue::new();
    for i in 0..256 {
        q.push(i);
    }

    let mut it = q.iter();
    for r in 0..256 {
        assert_eq!(it.next(), Some(&r));
    }
    assert_eq!(it.next(), None);

    let mut v: Vec<i32> = Vec::new();
    let mut into_iter = q.into_iter();
    while let Some(elem) = into_iter.next() {
        v.push(elem);
    }

    assert_eq!(v.len(), 256);

    v.iter().zip(0..256).for_each(|(l, r)| assert_eq!(*l, r));
}
