use eastl_rs::hash::DefaultHash;
use eastl_rs::string::DefaultString;

fn hash_of<T: ?Sized>(val: &T) -> usize
where
    DefaultHash<T>: eastl_rs::hash::Hash<T>,
{
    <DefaultHash<T> as eastl_rs::hash::Hash<T>>::hash(val)
}

#[test]
fn string_is_empty() {
    let mut s = DefaultString::new();
    assert!(s.is_empty());

    s.push('a');
    assert!(!s.is_empty());

    s.pop();
    assert!(s.is_empty());
}

#[test]
fn string_is_full() {
    let mut s = DefaultString::new();
    assert!(s.is_full());

    s.push('a');
    assert!(s.is_full());

    s.pop();
    assert!(!s.is_full());
}

#[test]
fn string_from_str() {
    let s = DefaultString::from("abc");
    assert_eq!(s.as_str(), "abc");
    assert_eq!(s.capacity(), 3);
}

#[test]
fn string_push_chars() {
    let mut s = DefaultString::new();
    s.push('a');
    s.push('b');
    s.push('c');
    assert_eq!(s.as_str(), "abc");
    assert_eq!(s.capacity(), 3);
}

#[test]
fn string_pop_chars() {
    let mut s = DefaultString::from("ab");
    assert_eq!(s.pop(), Some('b'));
    assert_eq!(s.as_str(), "a");
}

#[test]
fn string_push_pop() {
    let mut s = DefaultString::new();

    for _ in 0..5 {
        s.push('a');
        assert_eq!(s.pop(), Some('a'));
        assert_eq!(s.pop(), None);
    }

    assert!(s.is_empty());
}

#[test]
fn string_insert() {
    let mut s = DefaultString::from("ab");
    s.insert(1, 'c');
    assert_eq!(s.as_str(), "acb");
    assert_eq!(s.capacity(), 5);
}

#[test]
fn string_remove() {
    let mut s = DefaultString::from("ab");
    assert_eq!(s.remove(1), Some('b'));
    assert_eq!(s.remove(1), None);
    assert_eq!(s.as_str(), "a");
}

#[test]
fn mod_is_empty() {
    let mut s = DefaultString::new();
    assert!(s.is_empty());

    s.push('a');
    assert!(!s.is_empty());

    s.pop();
    assert!(s.is_empty());
}

#[test]
fn mod_is_full() {
    let mut s = DefaultString::new();
    assert!(s.is_full());

    s.push('a');
    assert!(s.is_full());

    s.pop();
    assert!(!s.is_full());
}

#[test]
fn mod_from_str() {
    let s = DefaultString::from("abc");
    assert_eq!(s.as_str(), "abc");
}

#[test]
fn mod_push_chars() {
    let mut s = DefaultString::new();
    s.push('a');
    s.push('b');
    s.push('c');
    assert_eq!(s.as_str(), "abc");
}

#[test]
fn mod_pop_chars() {
    let mut s = DefaultString::from("ab");
    assert_eq!(s.pop(), Some('b'));
    assert_eq!(s.as_str(), "a");
}

#[test]
fn mod_push_pop() {
    let mut s = DefaultString::new();

    for _ in 0..5 {
        s.push('a');
        assert_eq!(s.pop(), Some('a'));
        assert_eq!(s.pop(), None);
    }

    assert!(s.is_empty());
}

#[test]
fn null_terminated() {
    let mut s = DefaultString::from("a");
    assert_eq!(s.terminator(), Some(0));

    s.push('a');
    assert_eq!(s.terminator(), Some(0));

    s.pop();
    assert_eq!(s.terminator(), Some(0));

    s.assign("ab");
    assert_eq!(s.terminator(), Some(0));

    s.insert(1, 'c');
    assert_eq!(s.terminator(), Some(0));
}

#[test]
fn equals() {
    let s1 = DefaultString::from("abcd");
    let s2 = DefaultString::from("abcd");
    let s3 = DefaultString::from("abce");

    assert!(s1.eq(&s2));
    assert!(s1.ne(&s3));
}

#[test]
fn test_str() {
    assert_eq!(hash_of::<str>(""), 2166136261);
    assert_eq!(hash_of::<str>("Test"), 556965705);
    assert_eq!(
        hash_of::<str>("The big brown fox jumped over the lazy dog"),
        3003320415
    );
    assert_eq!(
        hash_of(&DefaultString::from("Test")),
        556965705
    );
}

#[test]
fn hash_of_integers() {
    assert_eq!(hash_of::<u8>(&200), 200);
    assert_eq!(hash_of::<i8>(&-1), usize::MAX);
    assert_eq!(hash_of::<u32>(&70000), 70000);
    assert_eq!(hash_of::<i32>(&-2), usize::MAX - 1);
    assert_eq!(hash_of::<usize>(&12), 12);
    assert_eq!(hash_of::<bool>(&true), 1);
    assert_eq!(hash_of::<bool>(&false), 0);
}

#[test]
fn assign_replaces_the_bytes() {
    let mut s = DefaultString::from("hello");
    s.assign("yo");
    assert_eq!(s.as_bytes(), b"yo");
    assert_eq!(s.len(), 2);
    assert_eq!(s.capacity(), 2);
    assert_eq!(s.to_str(), Some("yo"));
}

#[test]
fn with_capacity_leaves_room_for_the_null_byte() {
    let mut s = DefaultString::with_capacity(4);
    assert_eq!(s.capacity(), 4);
    assert_eq!(s.terminator(), None);
    s.push('x');
    assert_eq!(s.capacity(), 4);
    assert_eq!(s.terminator(), Some(0));
    assert!(!s.is_full());
}

#[test]
fn push_keeps_the_low_byte_of_a_char() {
    let mut s = DefaultString::new();
    s.push('\u{141}');
    assert_eq!(s.as_bytes(), &[0x41]);
    s.push('\u{e9}');
    assert_eq!(s.as_bytes(), &[0x41, 0xe9]);
    assert_eq!(s.to_str(), None);
    assert_eq!(s.pop(), Some('\u{e9}'));
}
