use crate::allocator::Allocator;
use crate::list::node::{link_at, ListNode, ListNodeBase};
use crate::list::{links_ok, node_at, values, List};
use vstd::prelude::*;

verus! {

/// Iterator over a list, yielding references in the list's order.
pub struct Iter<'a, T> {
    nodes: &'a Vec<Vec<ListNode<T>>>,
    sentinel_node: ListNodeBase,
    current_node: usize,
    len: usize,
    order: Ghost<Seq<int>>,
}

impl<'a, T> View for Iter<'a, T> {
    type V = Seq<T>;

    /// The values that are still to come, in the list's order.
    closed spec fn view(&self) -> Seq<T> {
        values(self.nodes@, self.order@).skip(self.order@.len() - self.len)
    }
}

impl<'a, T> Iter<'a, T> {
    /// The iterator stands on the node before the values that are still to come, and the
    /// nodes behind it are linked in the list's order.
    pub closed spec fn wf(&self) -> bool {
        &&& self.len <= self.order@.len()
        &&& self.current_node == link_at(self.order@, self.order@.len() - self.len - 1)
        &&& links_ok(self.nodes@, self.sentinel_node, self.order@)
        &&& forall|i: int|
            0 <= i < self.order@.len() ==> 0 <= #[trigger] self.order@[i] < self.nodes@.len()
                && self.nodes@[self.order@[i]]@.len() == 1
    }

    /// Makes the iterator over the nodes of a list.
    pub(crate) fn new(
        nodes: &'a Vec<Vec<ListNode<T>>>,
        sentinel_node: ListNodeBase,
        len: usize,
        Ghost(order): Ghost<Seq<int>>,
    ) -> (iter: Self)
        requires
            len == order.len(),
            links_ok(nodes@, sentinel_node, order),
            forall|i: int|
                0 <= i < order.len() ==> 0 <= #[trigger] order[i] < nodes@.len()
                    && nodes@[order[i]]@.len() == 1,
        ensures
            iter.wf(),
            iter@ == values(nodes@, order),
    {
        let iter = Self { nodes, sentinel_node, current_node: 0, len, order: Ghost(order) };
        assert(iter@ =~= values(nodes@, order));
        iter
    }

    /// Hands out the next value, or `None` when none is left.
    pub fn next(&mut self) -> (value: Option<&'a T>)
        requires
            old(self).wf(),
        ensures
            final(self).wf(),
            old(self)@.len() == 0 ==> value.is_none() && final(self)@ == old(self)@,
            old(self)@.len() > 0 ==> value == Some(&old(self)@.first()) && final(self)@ == old(
                self)@.drop_first(),
    {
        let ghost done = self.order@.len() - self.len;
        proof {
            if done > 0 {
                assert(0 <= self.order@[done - 1] < self.nodes@.len());
                assert(node_at(self.nodes@, self.order@[done - 1]).base.next == link_at(
                    self.order@,
                    done,
                ));
            }
            if self.len > 0 {
                assert(0 <= self.order@[done] < self.nodes@.len());
            }
        }
        let next = if self.current_node == 0 {
            self.sentinel_node.next
        } else {
            self.nodes[self.current_node - 1][0].base.next
        };
        if next == 0 {
            None
        } else {
            self.len = self.len - 1;
            self.current_node = next;
            let node = &self.nodes[self.current_node - 1][0];
            assert(self@ =~= old(self)@.drop_first());
            Some(node.value())
        }
    }

    /// The number of values that are still to come, as the bounds of a size hint.
    pub fn size_hint(&self) -> (hint: (usize, Option<usize>))
        requires
            self.wf(),
        ensures
            hint.0 == self@.len(),
            hint.1 == Some(hint.0),
    {
        (self.len, Some(self.len))
    }
}

/// Iterator over a list, yielding mutable references in the list's order.
///
/// The iterator holds the list until it is let go. What was written through it is then in
/// the list.
pub struct IterMut<'a, T, A: Allocator> {
    /// The list that the iterator walks over.
    pub list: &'a mut List<T, A>,
    /// The link of the node whose value comes next, or of the sentinel node at the end.
    pub current_node: usize,
    /// The place in the list of the value that comes next.
    pub index: Ghost<int>,
}

impl<'a, T, A: Allocator> View for IterMut<'a, T, A> {
    type V = Seq<T>;

    /// The values that are still to come, in the list's order.
    open spec fn view(&self) -> Seq<T> {
        self.list@.skip(self.index@)
    }
}

impl<'a, T, A: Allocator> IterMut<'a, T, A> {
    /// The list is in order, and the iterator stands on the node at its place.
    pub open spec fn wf(&self) -> bool {
        &&& self.list.wf()
        &&& 0 <= self.index@ <= self.list@.len()
        &&& self.current_node == link_at(self.list.spec_order(), self.index@)
    }

    /// Hands out the next value, or `None` when none is left.
    pub fn next(&mut self) -> (value: Option<&mut T>)
        requires
            old(self).wf(),
        ensures
            final(self).wf(),
            *final(final(self).list) == *final(old(self).list),
            match value {
                None => {
                    &&& old(self)@.len() == 0
                    &&& final(self).index@ == old(self).index@
                    &&& final(self).list@ == old(self).list@
                },
                Some(v) => {
                    &&& old(self)@.len() > 0
                    &&& *v == old(self)@.first()
                    &&& final(self).index@ == old(self).index@ + 1
                    &&& final(self).list@ == old(self).list@.update(old(self).index@, *final(v))
                },
            },
    {
        proof {
            self.list.lemma_links(self.index@);
        }
        if self.current_node == 0 {
            None
        } else {
            let link = self.current_node;
            let ghost at = self.index@;
            self.current_node = self.list.next_link(link, Ghost(at));
            proof {
                self.index@ = at + 1;
            }
            Some(self.list.value_mut_at(link, Ghost(at)))
        }
    }
}

} // verus!
