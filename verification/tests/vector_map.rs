use eastl_rs::vector_map::DefaultVectorMap;

fn collect<I: Iterator<Item = (i32, i32)>>(iter: I) -> DefaultVectorMap<i32, i32> {
    // we need to insert individually here to uphold the ordering constraints
    let mut vec = DefaultVectorMap::default();
    iter.for_each(|(k, v)| {
        vec.insert(k, v);
    });
    vec
}

#[test]
fn vector_map_default_state() {
    let vec: DefaultVectorMap<u32, ()> = DefaultVectorMap::default();

    assert!(vec.is_empty());
    assert_eq!(vec.len(), 0);
    assert_eq!(vec.capacity(), 0);
}

#[test]
fn vector_map_insert() {
    let mut vec = DefaultVectorMap::default();

    vec.insert(5, 6);

    assert!(!vec.is_empty());
    assert_eq!(vec.len(), 1);
    assert_eq!(vec.capacity(), 1);
    assert_eq!(&*vec, &[(5, 6)]);
}

#[test]
fn vector_map_from_iter() {
    let vec = collect([(5, 6)].into_iter());

    assert!(!vec.is_empty());
    assert_eq!(vec.len(), 1);
    assert_eq!(vec.capacity(), 1);
    assert_eq!(&*vec, &[(5, 6)]);
}

#[test]
fn vector_map_from_owned() {
    let vec = DefaultVectorMap::from([(5, 6)]);

    assert!(!vec.is_empty());
    assert_eq!(vec.len(), 1);
    assert_eq!(vec.capacity(), 1);
    assert_eq!(&*vec, &[(5, 6)]);
}

#[test]
fn vector_map_from_ref() {
    let vec = DefaultVectorMap::from_slice(&[(5, 6)]);

    assert!(!vec.is_empty());
    assert_eq!(vec.len(), 1);
    assert_eq!(vec.capacity(), 1);
    assert_eq!(&*vec, &[(5, 6)]);
}

#[test]
fn vector_map_get() {
    let vec = DefaultVectorMap::from([(5, 6)]);

    assert_eq!(vec.get(&5), Some(&6));
    assert_eq!(vec.get(&6), None);
}

#[test]
fn vector_map_get_mut() {
    let mut vec = DefaultVectorMap::from([(5, 6)]);

    let val = vec.get_mut(&5).unwrap();
    assert_eq!(val, &mut 6);

    // update the value
    *val = 7;
    assert_eq!(val, &mut 7);
    assert_eq!(vec.get(&5), Some(&7));
    assert_eq!(vec.get_mut(&6), None);
}

#[test]
fn vector_map_insert_less() {
    let mut vec = DefaultVectorMap::default();

    vec.insert(5, 6);
    vec.insert(4, 5);

    assert!(!vec.is_empty());
    assert_eq!(vec.len(), 2);
    assert_eq!(&*vec, &[(4, 5), (5, 6)]);
}

#[test]
fn vector_map_iter() {
    let vec = DefaultVectorMap::from([(5, 6), (4, 7)]);

    assert_eq!(vec.iter().next().unwrap().1, 7);
    assert_eq!(vec.iter().len(), 2);
}

#[test]
fn vector_map_big_test() {
    let vec = collect(
        (0..50)
            .map(|x| x * 2)
            .chain((0..50).map(|x| x * 2 + 1))
            .map(|x| (x, x + 2)),
    );

    // make sure the vec is sorted
    assert!(vec.windows(2).all(|w| w[0].0 < w[1].0));
    assert_eq!(vec.len(), 100);
}

#[test]
fn mod_default_state() {
    let vec: DefaultVectorMap<u32, ()> = DefaultVectorMap::default();

    assert!(vec.is_empty());
    assert_eq!(vec.len(), 0);
    assert_eq!(vec.capacity(), 0);
}

#[test]
fn mod_from_owned() {
    let vec = DefaultVectorMap::from([(5, 6)]);

    assert!(!vec.is_empty());
    assert_eq!(vec.len(), 1);
    assert_eq!(vec.capacity(), 1);
    assert_eq!(&*vec, &[(5, 6)]);
}

#[test]
fn mod_from_ref() {
    let vec = DefaultVectorMap::from_slice(&[(5, 6)]);

    assert!(!vec.is_empty());
    assert_eq!(vec.len(), 1);
    assert_eq!(vec.capacity(), 1);
    assert_eq!(&*vec, &[(5, 6)]);
}

#[test]
fn mod_get() {
    let vec = DefaultVectorMap::from([(5, 6)]);

    assert_eq!(vec.get(&5), Some(&6));
    assert_eq!(vec.get(&6), None);
}

#[test]
fn mod_get_mut() {
    let mut vec = DefaultVectorMap::from([(5, 6)]);

    let val = vec.get_mut(&5).unwrap();
    assert_eq!(val, &mut 6);

    // update the value
    *val = 7;
    assert_eq!(val, &mut 7);
    assert_eq!(vec.get(&5), Some(&7));
    assert_eq!(vec.get_mut(&6), None);
}

#[test]
fn mod_insert_less() {
    let mut vec = DefaultVectorMap::default();

    vec.insert(5, 6);
    vec.insert(4, 5);

    assert!(!vec.is_empty());
    assert_eq!(vec.len(), 2);
    assert_eq!(&*vec, &[(4, 5), (5, 6)]);
}

#[test]
fn mod_big_test() {
    let vec = collect(
        (0..50)
            .map(|x| x * 2)
            .chain((0..50).map(|x| x * 2 + 1))
            .map(|x| (x, x + 2)),
    );

    // make sure the vec is sorted
    assert!(vec.windows(2).all(|w| w[0].0 < w[1].0));
    assert_eq!(vec.len(), 100);
}

#[test]
fn insert_replaces_the_value_of_a_key() {
    let mut vec = DefaultVectorMap::default();
    assert_eq!(vec.insert(3, 'a'), None);
    assert_eq!(vec.insert(1, 'b'), None);
    assert_eq!(vec.insert(3, 'c'), Some('a'));
    assert_eq!(&*vec, &[(1, 'b'), (3, 'c')]);
    assert!(vec.contains_key(&1));
    assert!(!vec.contains_key(&2));
}

#[test]
fn remove_takes_the_pair_of_a_key() {
    let mut vec = DefaultVectorMap::from([(2, 20), (1, 10), (3, 30)]);
    assert_eq!(vec.lower_bound(&0), 0);
    assert_eq!(vec.lower_bound(&2), 1);
    assert_eq!(vec.lower_bound(&4), 3);
    assert_eq!(vec.remove_entry(&2), Some((2, 20)));
    assert_eq!(vec.remove_entry(&2), None);
    assert_eq!(vec.remove(&3), Some(30));
    assert_eq!(vec.remove(&0), None);
    assert_eq!(&*vec, &[(1, 10)]);
    vec.clear();
    assert!(vec.is_empty());
    assert_eq!(vec.capacity(), 0);
}

#[test]
fn a_later_pair_takes_the_place_of_an_earlier_one() {
    let vec = DefaultVectorMap::from_vec(vec![(1, 'x'), (0, 'y'), (1, 'z')]);
    assert_eq!(&*vec, &[(0, 'y'), (1, 'z')]);
    assert_eq!(vec.capacity(), 3);
}

#[test]
fn entry_occupied() {
    let mut vec = DefaultVectorMap::default();

    vec.insert(5, 6);
    let eastl_rs::vector_map::Entry::Occupied(mut entry) = vec.entry(5) else {
        panic!("Expected occupied entry");
    };

    assert_eq!(entry.key(), &5);
    assert_eq!(entry.get(), &6);

    // modify the entry
    *entry.get_mut() = 7;

    assert_eq!(entry.get(), &7);
    assert_eq!(vec.get(&5), Some(&7));
}

#[test]
fn entry_vacant() {
    let mut vec = DefaultVectorMap::default();

    let eastl_rs::vector_map::Entry::Vacant(entry) = vec.entry(5) else {
        panic!("Expected occupied entry");
    };

    assert_eq!(entry.key(), &5);

    // insert the entry
    let val = entry.insert(7);
    assert_eq!(val, &7);

    assert_eq!(vec.get(&5), Some(&7));
    assert_eq!(vec.len(), 1);
}

#[test]
fn a_vacant_entry_gives_its_key_back() {
    let mut vec = DefaultVectorMap::<u32, u32>::default();
    vec.insert(1, 1);
    vec.insert(3, 3);
    match vec.entry(2) {
        eastl_rs::vector_map::Entry::Vacant(entry) => {
            assert_eq!(entry.lower_bound, 1);
            assert_eq!(entry.into_key(), 2);
        }
        eastl_rs::vector_map::Entry::Occupied(_) => panic!("Expected vacant entry"),
    }
    assert_eq!(vec.len(), 2);
}
