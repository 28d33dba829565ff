use eastl_rs::internal::rb_tree::node::{Color, Node, ParentColor};
use eastl_rs::internal::rb_tree::RBTree;
use eastl_rs::{DefaultAllocator, TreeMap, TreeSet};


#[test]
fn empty_parent() {
    let parent_color = ParentColor::default();

    assert_eq!(parent_color.color(), Color::Red);
    assert_eq!(parent_color.ptr(), 0);
}

#[test]
fn non_empty_black_ptr() {
    let node = 6;
    let parent_color = ParentColor::_new(Color::Black, node);

    assert_eq!(parent_color.color(), Color::Black);
    assert_eq!(parent_color.ptr(), node);
}

#[test]
fn non_empty_red_ptr() {
    let node = 6;
    let parent_color = ParentColor::_new(Color::Red, node);

    assert_eq!(parent_color.color(), Color::Red);
    assert_eq!(parent_color.ptr(), node);
}

#[test]
fn empty_node() {
    let node = Node::<u32, u32>::default();

    assert!(node.left().is_none());
    assert!(node.right().is_none());
    assert!(node._parent().is_none());
    assert_eq!(node._color(), Color::Red);
    assert_eq!(node.val(), &0);
}

#[test]
fn node_links_and_color_do_not_touch_each_other() {
    let mut node = Node::<u32, u32>::default();
    assert_eq!(node._set_parent(8), 0);
    node._set_color(Color::Black);
    assert_eq!(node._parent(), Some(8));
    assert_eq!(node._color(), Color::Black);
    assert_eq!(node._set_parent(10), 8);
    assert_eq!(node._color(), Color::Black);
    assert_eq!(node._set_left(2), 0);
    assert_eq!(node._set_right(4), 0);
    assert_eq!(node.left(), Some(2));
    assert_eq!(node.right(), Some(4));
    *node.val_mut() = 9;
    assert_eq!(node.val(), &9);
    assert_eq!(node.key(), &0);
    assert_eq!(Color::from(0), Color::Red);
    assert_eq!(Color::from(1), Color::Black);
}

#[test]
fn an_empty_tree_finds_nothing() {
    let mut tree = RBTree::<u32, u32, DefaultAllocator>::new();
    assert_eq!(tree.get(&3), None);
    assert!(!tree.contains_key(&3));
    assert!(tree.get_mut(&3).is_none());
    tree.clear();
    assert!(tree.is_empty());

    let mut map = TreeMap::<u32, u32, DefaultAllocator>::default();
    assert_eq!(map.get(&1), None);
    assert!(!map.contains_key(&1));
    assert!(map.get_mut(&1).is_none());
    map.clear();
    assert_eq!(map.len(), 0);
    assert!(map.is_empty());

    let mut set = TreeSet::<u32, DefaultAllocator>::default();
    assert!(!set.contains_key(&1));
    set.clear();
    assert_eq!(set.len(), 0);
    assert!(set.is_empty());
}
