use eastl_rs::list::DefaultList;

#[test]
fn mod_empty() {
    let list = DefaultList::<u32>::new();
    assert!(list.empty());
}

#[test]
fn mod_size_empty() {
    let list = DefaultList::<u32>::new();
    assert_eq!(list.size(), 0);
}

#[test]
fn mod_front_empty() {
    let list = DefaultList::<u32>::new();
    assert_eq!(list.front(), None)
}

#[test]
fn mod_back_empty() {
    let list = DefaultList::<u32>::new();
    assert_eq!(list.back(), None)
}

#[test]
fn mod_push_front_owned_value() {
    let mut list = DefaultList::new();
    let hello = "hello".to_string();
    let world = "world".to_string();
    list.push_front(world.clone());
    assert_eq!(list.size(), 1);
    assert_eq!(list.front(), Some(&world));
    assert_eq!(list.back(), Some(&world));
    list.push_front(hello.clone());
    assert_eq!(list.size(), 2);
    assert_eq!(list.front(), Some(&hello));
    assert_eq!(list.back(), Some(&world));
}

#[test]
fn mod_modify_front() {
    let mut list = DefaultList::new();
    list.push_front("hello".to_string());
    let world = "world".to_string();
    *list.front_mut().unwrap() = world.clone();
    assert_eq!(list.back(), Some(&world));
}


#[test]
fn mod_pop_front() {
    let mut list = DefaultList::new();
    let hello = "hello".to_string();
    let world = "world".to_string();
    list.push_back(hello.clone());
    list.push_back(world.clone());
    assert_eq!(list.size(), 2);
    assert_eq!(list.pop_front(), Some(hello));
    assert_eq!(list.size(), 1);
    assert_eq!(list.pop_front(), Some(world));
    assert!(list.empty());
    assert_eq!(list.pop_front(), None);
}

#[test]
fn mod_pop_back() {
    let mut list = DefaultList::new();
    let hello = "hello".to_string();
    let world = "world".to_string();
    list.push_back(hello.clone());
    list.push_back(world.clone());
    assert_eq!(list.size(), 2);
    assert_eq!(list.pop_back(), Some(world));
    assert_eq!(list.size(), 1);
    assert_eq!(list.pop_back(), Some(hello));
    assert!(list.empty());
    assert_eq!(list.pop_front(), None);
}

#[test]
fn slots_are_used_again() {
    let mut list = DefaultList::new();
    for round in 0..3u32 {
        for i in 0..10u32 {
            list.push_back(round * 10 + i);
            list.push_front(round * 100 + i);
        }
        assert_eq!(list.len(), 20);
        assert!(!list.is_empty());
        for i in (0..10u32).rev() {
            assert_eq!(list.pop_back(), Some(round * 10 + i));
            assert_eq!(list.pop_front(), Some(round * 100 + i));
        }
        assert!(list.is_empty());
    }
    *list.back_mut().unwrap_or(&mut 0) = 1;
    list.push_back(5);
    *list.back_mut().unwrap() = 6;
    assert_eq!(list.front(), Some(&6));
}
