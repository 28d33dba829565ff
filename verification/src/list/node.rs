use vstd::prelude::*;

verus! {

/// The links of a node of a list: the node behind it and the node before it.
///
/// A link is zero for the sentinel node of the list, and one more than its slot for a node
/// that holds a value.
#[derive(Clone, Copy, Debug)]
pub struct ListNodeBase {
    /// The link to the node behind this one.
    pub next: usize,
    /// The link to the node before this one.
    pub prev: usize,
}

impl Default for ListNodeBase {
    fn default() -> (base: Self)
        ensures
            base.next == 0,
            base.prev == 0,
    {
        Self { next: 0, prev: 0 }
    }
}

/// The link of the node at place `i` of a list whose nodes lie in the slots `order`, or of
/// the sentinel node where the list has no such place.
pub open spec fn link_at(order: Seq<int>, i: int) -> int {
    if 0 <= i < order.len() {
        order[i] + 1
    } else {
        0
    }
}

/// A node of a list: its links and its value.
pub struct ListNode<T> {
    /// The links of the node.
    pub base: ListNodeBase,
    /// The value of the node.
    pub value: T,
}

impl<T> ListNode<T> {
    /// Get a reference to the contained value.
    pub fn value(&self) -> (value: &T)
        ensures
            *value == self.value,
    {
        &self.value
    }

    /// Get a mutable reference to the contained value.
    pub fn value_mut(&mut self) -> (value: &mut T)
        ensures
            *value == old(self).value,
            final(self).value == *final(value),
            final(self).base == old(self).base,
    {
        &mut self.value
    }
}

} // verus!
