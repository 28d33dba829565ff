use crate::allocator::{Allocator, DefaultAllocator};
use crate::list::iter::{Iter, IterMut};
use crate::list::node::{link_at, ListNode, ListNodeBase};
use vstd::prelude::*;

pub mod iter;
pub mod node;

verus! {

/// List with the default allocator.
pub type DefaultList<V> = List<V, DefaultAllocator>;

/// A doubly linked list.
/// The API is modelled after `std::collections::LinkedList`.
///
/// The nodes lie in slots, each in a block of its own from the allocator, and name each
/// other by links. A sentinel node closes the ring: the node behind it is the first node,
/// and the node before it is the last.
pub struct List<T, A: Allocator> {
    /// Sentinel node, contains the front and back node links (prev = back, next = front)
    node: ListNodeBase,
    size: u32,
    allocator: A,
    nodes: Vec<Vec<ListNode<T>>>,
    free: Vec<usize>,
    order: Ghost<Seq<int>>,
}

/// The node in slot `slot`.
pub open spec fn node_at<T>(nodes: Seq<Vec<ListNode<T>>>, slot: int) -> ListNode<T> {
    nodes[slot]@[0]
}

/// The values of the nodes in the slots `order`.
pub open spec fn values<T>(nodes: Seq<Vec<ListNode<T>>>, order: Seq<int>) -> Seq<T> {
    Seq::new(order.len(), |i: int| node_at(nodes, order[i]).value)
}

/// The slots `order` hold a node each, no slot twice, and the other slots, which are the
/// slots `free`, hold none.
pub open spec fn slots_ok<T>(nodes: Seq<Vec<ListNode<T>>>, free: Seq<usize>, order: Seq<int>) -> bool {
    &&& nodes.len() == order.len() + free.len()
    &&& forall|i: int|
        0 <= i < order.len() ==> 0 <= #[trigger] order[i] < nodes.len() && nodes[order[i]]@.len()
            == 1
    &&& forall|i: int, j: int|
        0 <= i < order.len() && 0 <= j < order.len() && i != j ==> #[trigger] order[i]
            != #[trigger] order[j]
    &&& forall|k: int|
        0 <= k < free.len() ==> #[trigger] free[k] < nodes.len() && nodes[free[k] as int]@.len()
            == 0
    &&& forall|k: int, m: int|
        0 <= k < free.len() && 0 <= m < free.len() && k != m ==> #[trigger] free[k]
            != #[trigger] free[m]
}

/// Every node names the node behind it and the node before it in `order`, and the sentinel
/// node names the first and the last.
pub open spec fn links_ok<T>(
    nodes: Seq<Vec<ListNode<T>>>,
    sentinel: ListNodeBase,
    order: Seq<int>,
) -> bool {
    &&& forall|i: int|
        0 <= i < order.len() ==> (#[trigger] node_at(nodes, order[i])).base.next == link_at(
            order,
            i + 1,
        ) && node_at(nodes, order[i]).base.prev == link_at(order, i - 1)
    &&& sentinel.next == link_at(order, 0)
    &&& sentinel.prev == link_at(order, order.len() - 1)
}

/// A new node in a slot of its own, linked in at place `at`, keeps the ring in order, and
/// puts its value at that place.
pub proof fn lemma_inserted<T>(
    nodes: Seq<Vec<ListNode<T>>>,
    sentinel: ListNodeBase,
    order: Seq<int>,
    now: Seq<Vec<ListNode<T>>>,
    sentinel_now: ListNodeBase,
    at: int,
    slot: int,
    value: T,
)
    requires
        links_ok(nodes, sentinel, order),
        forall|i: int|
            0 <= i < order.len() ==> 0 <= #[trigger] order[i] < nodes.len() && nodes[order[i]]@.len()
                == 1,
        forall|i: int, j: int|
            0 <= i < order.len() && 0 <= j < order.len() && i != j ==> #[trigger] order[i]
                != #[trigger] order[j],
        0 <= at <= order.len(),
        nodes.len() <= now.len(),
        0 <= slot < now.len(),
        forall|i: int| 0 <= i < order.len() ==> #[trigger] order[i] != slot,
        now[slot]@.len() == 1,
        node_at(now, slot).value == value,
        node_at(now, slot).base.next == link_at(order, at),
        node_at(now, slot).base.prev == link_at(order, at - 1),
        forall|i: int|
            0 <= i < order.len() ==> {
                &&& (#[trigger] now[order[i]])@.len() == 1
                &&& node_at(now, order[i]).value == node_at(nodes, order[i]).value
                &&& node_at(now, order[i]).base.next == if i == at - 1 {
                    slot + 1
                } else {
                    node_at(nodes, order[i]).base.next as int
                }
                &&& node_at(now, order[i]).base.prev == if i == at {
                    slot + 1
                } else {
                    node_at(nodes, order[i]).base.prev as int
                }
            },
        sentinel_now.next == if at == 0 {
            slot + 1
        } else {
            sentinel.next as int
        },
        sentinel_now.prev == if at == order.len() {
            slot + 1
        } else {
            sentinel.prev as int
        },
    ensures
        links_ok(now, sentinel_now, order.insert(at, slot)),
        forall|i: int|
            0 <= i < order.len() + 1 ==> 0 <= #[trigger] order.insert(at, slot)[i] < now.len()
                && now[order.insert(at, slot)[i]]@.len() == 1,
        forall|i: int, j: int|
            0 <= i < order.len() + 1 && 0 <= j < order.len() + 1 && i != j ==> #[trigger] order.insert(
                at,
                slot,
            )[i] != #[trigger] order.insert(at, slot)[j],
        values(now, order.insert(at, slot)) == values(nodes, order).insert(at, value),
{
    let after = order.insert(at, slot);
    assert forall|i: int| 0 <= i < after.len() implies after[i] == if i < at {
        order[i]
    } else if i == at {
        slot
    } else {
        order[i - 1]
    } by {}
    assert forall|i: int| 0 <= i < after.len() implies (#[trigger] node_at(
        now,
        after[i],
    )).base.next == link_at(after, i + 1) && node_at(now, after[i]).base.prev == link_at(
        after,
        i - 1,
    ) by {
        if i < at {
            assert(node_at(nodes, order[i]).base.next == link_at(order, i + 1));
            assert(now[order[i]]@.len() == 1);
        } else if i > at {
            assert(node_at(nodes, order[i - 1]).base.next == link_at(order, i));
            assert(now[order[i - 1]]@.len() == 1);
        }
    }
    assert forall|i: int| 0 <= i < after.len() implies 0 <= #[trigger] after[i] < now.len()
        && now[after[i]]@.len() == 1 by {
        if i < at {
            assert(now[order[i]]@.len() == 1);
        } else if i > at {
            assert(now[order[i - 1]]@.len() == 1);
        }
    }
    assert forall|i: int, j: int|
        0 <= i < after.len() && 0 <= j < after.len() && i != j implies #[trigger] after[i]
        != #[trigger] after[j] by {
        let a = if i < at {
            i
        } else {
            i - 1
        };
        let b = if j < at {
            j
        } else {
            j - 1
        };
        if i != at {
            assert(order[a] != slot);
        }
        if j != at {
            assert(order[b] != slot);
        }
        if i != at && j != at {
            assert(order[a] != order[b]);
        }
    }
    assert forall|i: int| 0 <= i < after.len() implies values(now, after)[i] == values(
        nodes,
        order,
    ).insert(at, value)[i] by {
        if i < at {
            assert(now[order[i]]@.len() == 1);
        } else if i > at {
            assert(now[order[i - 1]]@.len() == 1);
        }
    }
    assert(values(now, after) =~= values(nodes, order).insert(at, value));
}

/// Linking the node at place `at` out keeps the ring of the other nodes in order, and takes
/// its value out of the list.
pub proof fn lemma_removed<T>(
    nodes: Seq<Vec<ListNode<T>>>,
    sentinel: ListNodeBase,
    order: Seq<int>,
    now: Seq<Vec<ListNode<T>>>,
    sentinel_now: ListNodeBase,
    at: int,
)
    requires
        links_ok(nodes, sentinel, order),
        forall|i: int|
            0 <= i < order.len() ==> 0 <= #[trigger] order[i] < nodes.len() && nodes[order[i]]@.len()
                == 1,
        forall|i: int, j: int|
            0 <= i < order.len() && 0 <= j < order.len() && i != j ==> #[trigger] order[i]
                != #[trigger] order[j],
        0 <= at < order.len(),
        nodes.len() == now.len(),
        forall|i: int|
            0 <= i < order.len() && i != at ==> {
                &&& (#[trigger] now[order[i]])@.len() == 1
                &&& node_at(now, order[i]).value == node_at(nodes, order[i]).value
                &&& node_at(now, order[i]).base.next == if i == at - 1 {
                    link_at(order, at + 1)
                } else {
                    node_at(nodes, order[i]).base.next as int
                }
                &&& node_at(now, order[i]).base.prev == if i == at + 1 {
                    link_at(order, at - 1)
                } else {
                    node_at(nodes, order[i]).base.prev as int
                }
            },
        sentinel_now.next == if at == 0 {
            link_at(order, 1)
        } else {
            sentinel.next as int
        },
        sentinel_now.prev == if at == order.len() - 1 {
            link_at(order, at - 1)
        } else {
            sentinel.prev as int
        },
    ensures
        links_ok(now, sentinel_now, order.remove(at)),
        forall|i: int|
            0 <= i < order.len() - 1 ==> 0 <= #[trigger] order.remove(at)[i] < now.len()
                && now[order.remove(at)[i]]@.len() == 1 && order.remove(at)[i] != order[at],
        forall|i: int, j: int|
            0 <= i < order.len() - 1 && 0 <= j < order.len() - 1 && i != j ==> #[trigger] order.remove(
                at,
            )[i] != #[trigger] order.remove(at)[j],
        values(now, order.remove(at)) == values(nodes, order).remove(at),
{
    let after = order.remove(at);
    assert forall|i: int| 0 <= i < after.len() implies after[i] == if i < at {
        order[i]
    } else {
        order[i + 1]
    } by {}
    assert forall|i: int| 0 <= i < after.len() implies (#[trigger] node_at(
        now,
        after[i],
    )).base.next == link_at(after, i + 1) && node_at(now, after[i]).base.prev == link_at(
        after,
        i - 1,
    ) by {
        let from = if i < at {
            i
        } else {
            i + 1
        };
        assert(node_at(nodes, order[from]).base.next == link_at(order, from + 1));
        assert(now[order[from]]@.len() == 1);
    }
    assert forall|i: int| 0 <= i < after.len() implies 0 <= #[trigger] after[i] < now.len()
        && now[after[i]]@.len() == 1 && after[i] != order[at] by {
        let from = if i < at {
            i
        } else {
            i + 1
        };
        assert(now[order[from]]@.len() == 1);
        assert(order[from] != order[at]);
    }
    assert forall|i: int, j: int|
        0 <= i < after.len() && 0 <= j < after.len() && i != j implies #[trigger] after[i]
        != #[trigger] after[j] by {
        let a = if i < at {
            i
        } else {
            i + 1
        };
        let b = if j < at {
            j
        } else {
            j + 1
        };
        assert(order[a] != order[b]);
    }
    assert forall|i: int| 0 <= i < after.len() implies values(now, after)[i] == values(
        nodes,
        order,
    ).remove(at)[i] by {
        let from = if i < at {
            i
        } else {
            i + 1
        };
        assert(now[order[from]]@.len() == 1);
    }
    assert(values(now, after) =~= values(nodes, order).remove(at));
}

impl<T, A: Allocator> View for List<T, A> {
    type V = Seq<T>;

    /// The values from the front to the back.
    closed spec fn view(&self) -> Seq<T> {
        values(self.nodes@, self.order@)
    }
}

impl<T, A: Allocator + Default> List<T, A> {
    /// Create a new, empty list.
    pub fn new() -> (list: Self)
        ensures
            list.wf(),
            list@ == Seq::<T>::empty(),
    {
        Self::new_in(A::default())
    }
}

impl<T, A: Allocator> List<T, A> {
    /// The nodes of the list make one ring with the sentinel node, and the size counts them.
    pub closed spec fn wf(&self) -> bool {
        &&& self.order@.len() == self.size
        &&& slots_ok(self.nodes@, self.free@, self.order@)
        &&& links_ok(self.nodes@, self.node, self.order@)
    }

    /// The slots of the nodes, from the front to the back.
    pub closed spec fn spec_order(&self) -> Seq<int> {
        self.order@
    }

    /// The link to the node behind the node that `link` names.
    pub closed spec fn next_of(&self, link: usize) -> usize {
        if link == 0 {
            self.node.next
        } else {
            node_at(self.nodes@, link - 1).base.next
        }
    }

    /// The links of the places of a list: every place has a node, whose link is not that
    /// of the sentinel node, and the node behind it is the node at the next place.
    pub proof fn lemma_links(&self, at: int)
        requires
            self.wf(),
        ensures
            self.spec_order().len() == self@.len(),
            0 <= at < self@.len() ==> link_at(self.spec_order(), at) != 0 && self.next_of(
                link_at(self.spec_order(), at) as usize,
            ) == link_at(self.spec_order(), at + 1),
            self.next_of(0) == link_at(self.spec_order(), 0),
    {
        if 0 <= at < self@.len() {
            assert(self.nodes.len() == self.nodes@.len());
            assert(0 <= self.order@[at] < self.nodes@.len());
            assert(node_at(self.nodes@, self.order@[at]).base.next == link_at(
                self.order@,
                at + 1,
            ));
        }
    }

    /// Create a new, empty list.
    pub fn new_in(allocator: A) -> (list: Self)
        ensures
            list.wf(),
            list@ == Seq::<T>::empty(),
    {
        let mut this = Self {
            node: ListNodeBase::default(),
            size: 0,
            allocator,
            nodes: Vec::new(),
            free: Vec::new(),
            order: Ghost(Seq::empty()),
        };
        this.init_sentinel_node();
        assert(this@ =~= Seq::<T>::empty());
        this
    }

    /// Get a reference to the last value, if any.
    pub fn back(&self) -> (value: Option<&T>)
        requires
            self.wf(),
        ensures
            self@.len() == 0 ==> value.is_none(),
            self@.len() > 0 ==> value == Some(&self@.last()),
    {
        if self.node.prev != 0 {
            proof {
                assert(0 <= self.order@[self.order@.len() - 1] < self.nodes@.len());
            }
            Some(self.nodes[self.node.prev - 1][0].value())
        } else {
            None
        }
    }

    /// Get a mutable reference to the last value, if any.
    pub fn back_mut(&mut self) -> (value: Option<&mut T>)
        requires
            old(self).wf(),
        ensures
            final(self).wf(),
            match value {
                None => old(self)@.len() == 0 && final(self)@ == old(self)@,
                Some(v) => {
                    &&& old(self)@.len() > 0
                    &&& *v == old(self)@.last()
                    &&& final(self)@ == old(self)@.update(old(self)@.len() - 1, *final(v))
                },
            },
    {
        if self.node.prev != 0 {
            let link = self.node.prev;
            Some(self.value_mut_at(link, Ghost(self.size as int - 1)))
        } else {
            None
        }
    }

    /// Remove all elements from this list.
    pub fn clear(&mut self)
        requires
            old(self).wf(),
        ensures
            final(self).wf(),
            final(self)@ == Seq::<T>::empty(),
    {
        while self.node.next != 0
            invariant
                self.wf(),
            decreases self.size,
        {
            // Unlink the node at the front, drop the value and give the block back
            let _ = self.remove_node(self.node.next, Ghost(0));
        }
        self.init_sentinel_node();
        assert(self@ =~= Seq::<T>::empty());
    }

    /// If the list is empty or not.
    pub fn empty(&self) -> (empty: bool)
        requires
            self.wf(),
        ensures
            empty == (self@.len() == 0),
    {
        self.size() == 0
    }

    /// Get a reference to the first value, if any.
    pub fn front(&self) -> (value: Option<&T>)
        requires
            self.wf(),
        ensures
            self@.len() == 0 ==> value.is_none(),
            self@.len() > 0 ==> value == Some(&self@.first()),
    {
        if self.node.next != 0 {
            proof {
                assert(0 <= self.order@[0] < self.nodes@.len());
            }
            Some(self.nodes[self.node.next - 1][0].value())
        } else {
            None
        }
    }

    /// Get a mutable reference to the first value, if any.
    pub fn front_mut(&mut self) -> (value: Option<&mut T>)
        requires
            old(self).wf(),
        ensures
            final(self).wf(),
            match value {
                None => old(self)@.len() == 0 && final(self)@ == old(self)@,
                Some(v) => {
                    &&& old(self)@.len() > 0
                    &&& *v == old(self)@.first()
                    &&& final(self)@ == old(self)@.update(0, *final(v))
                },
            },
    {
        if self.node.next != 0 {
            let link = self.node.next;
            Some(self.value_mut_at(link, Ghost(0)))
        } else {
            None
        }
    }

    /// Return a forward iterator for this list.
    pub fn iter(&self) -> (iter: Iter<'_, T>)
        requires
            self.wf(),
        ensures
            iter.wf(),
            iter@ == self@,
    {
        Iter::new(&self.nodes, self.node, self.size(), Ghost(self.order@))
    }

    /// Return a mutable forward iterator for this list.
    pub fn iter_mut(&mut self) -> (iter: IterMut<'_, T, A>)
        requires
            old(self).wf(),
        ensures
            iter.wf(),
            iter@ == old(self)@,
            iter.index@ == 0,
            *iter.list == *old(self),
            *final(self) == *final(iter.list),
    {
        let link = self.node.next;
        assert(self@.skip(0) =~= self@);
        IterMut { list: self, current_node: link, index: Ghost(0) }
    }

    /// Returns true if the list contains no elements.
    pub fn is_empty(&self) -> (empty: bool)
        requires
            self.wf(),
        ensures
            empty == (self@.len() == 0),
    {
        self.len() == 0
    }

    /// Returns the length of the list, in elements.
    pub fn len(&self) -> (len: u32)
        requires
            self.wf(),
        ensures
            len == self@.len(),
    {
        self.size
    }

    /// Removes the last element in the list, returning its value.
    pub fn pop_back(&mut self) -> (value: Option<T>)
        requires
            old(self).wf(),
        ensures
            final(self).wf(),
            old(self)@.len() == 0 ==> value.is_none() && final(self)@ == old(self)@,
            old(self)@.len() > 0 ==> value == Some(old(self)@.last()) && final(self)@ == old(
                self)@.drop_last(),
    {
        if self.node.prev != 0 {
            let value = self.remove_node(self.node.prev, Ghost(self.size as int - 1));
            assert(old(self)@.remove(old(self)@.len() - 1) =~= old(self)@.drop_last());
            Some(value)
        } else {
            None
        }
    }

    /// Removes the first element in the list, returning its value.
    pub fn pop_front(&mut self) -> (value: Option<T>)
        requires
            old(self).wf(),
        ensures
            final(self).wf(),
            old(self)@.len() == 0 ==> value.is_none() && final(self)@ == old(self)@,
            old(self)@.len() > 0 ==> value == Some(old(self)@.first()) && final(self)@ == old(
                self)@.drop_first(),
    {
        if self.node.next != 0 {
            let value = self.remove_node(self.node.next, Ghost(0));
            assert(old(self)@.remove(0) =~= old(self)@.drop_first());
            Some(value)
        } else {
            None
        }
    }

    /// Push a value to the back of the list.
    pub fn push_back(&mut self, value: T)
        requires
            old(self).wf(),
            old(self)@.len() < u32::MAX,
        ensures
            final(self).wf(),
            final(self)@ == old(self)@.push(value),
    {
        let ghost at = self.size as int;
        self.insert_node(0, value, Ghost(at));
        assert(old(self)@.insert(at, value) =~= old(self)@.push(value));
    }

    /// Push a value to the front of the list.
    pub fn push_front(&mut self, value: T)
        requires
            old(self).wf(),
            old(self)@.len() < u32::MAX,
        ensures
            final(self).wf(),
            final(self)@ == seq![value] + old(self)@,
    {
        self.insert_node(self.node.next, value, Ghost(0));
        assert(old(self)@.insert(0, value) =~= seq![value] + old(self)@);
    }

    /// Get the list's size.
    pub fn size(&self) -> (size: usize)
        requires
            self.wf(),
        ensures
            size == self@.len(),
    {
        self.size as usize
    }

    /// Returns the links of the node that `link` names.
    fn base(&self, link: usize) -> (base: ListNodeBase)
        requires
            link == 0 || (link - 1 < self.nodes@.len() && self.nodes@[link - 1]@.len() == 1),
        ensures
            link == 0 ==> base == self.node,
            link != 0 ==> base == node_at(self.nodes@, link - 1).base,
    {
        if link == 0 {
            self.node
        } else {
            self.nodes[link - 1][0].base
        }
    }

    /// Sets the links of the node that `link` names.
    fn set_base(&mut self, link: usize, base: ListNodeBase)
        requires
            link == 0 || (link - 1 < old(self).nodes@.len() && old(self).nodes@[link - 1]@.len()
                == 1),
        ensures
            final(self).size == old(self).size,
            final(self).free == old(self).free,
            final(self).order == old(self).order,
            final(self).nodes@.len() == old(self).nodes@.len(),
            link == 0 ==> final(self).node == base,
            link != 0 ==> final(self).node == old(self).node,
            forall|slot: int|
                0 <= slot < old(self).nodes@.len() && slot != link - 1 ==> #[trigger] final(
                    self).nodes@[slot] == old(self).nodes@[slot],
            link != 0 ==> final(self).nodes@[link - 1]@.len() == 1 && node_at(
                final(self).nodes@,
                link - 1,
            ).base == base && node_at(final(self).nodes@, link - 1).value == node_at(
                old(self).nodes@,
                link - 1,
            ).value,
    {
        if link == 0 {
            self.node = base;
        } else {
            let block = &mut self.nodes[link - 1];
            block[0].base = base;
        }
    }

    /// Allocate and initialise a new node, in a vacant slot or in a new one.
    fn create_node(&mut self, base: ListNodeBase, value: T) -> (slot: usize)
        requires
            slots_ok(old(self).nodes@, old(self).free@, old(self).order@),
            old(self).order@.len() < u32::MAX,
        ensures
            final(self).size == old(self).size,
            final(self).node == old(self).node,
            final(self).order == old(self).order,
            slot < final(self).nodes@.len(),
            slot + 1 <= usize::MAX,
            final(self).nodes@.len() >= old(self).nodes@.len(),
            forall|i: int| 0 <= i < old(self).order@.len() ==> #[trigger] old(self).order@[i] != slot,
            forall|other: int|
                0 <= other < old(self).nodes@.len() && other != slot ==> #[trigger] final(
                    self).nodes@[other] == old(self).nodes@[other],
            final(self).nodes@[slot as int]@.len() == 1,
            node_at(final(self).nodes@, slot as int).base == base,
            node_at(final(self).nodes@, slot as int).value == value,
            final(self).nodes@.len() == old(self).order@.len() + final(self).free@.len() + 1,
            forall|k: int|
                0 <= k < final(self).free@.len() ==> #[trigger] final(self).free@[k] < final(
                    self).nodes@.len() && final(self).free@[k] != slot && final(
                    self).nodes@[final(self).free@[k] as int]@.len() == 0,
            forall|k: int, m: int|
                0 <= k < final(self).free@.len() && 0 <= m < final(self).free@.len() && k != m
                    ==> #[trigger] final(self).free@[k] != #[trigger] final(self).free@[m],
    {
        let mut block = self.allocator.allocate::<ListNode<T>>(1);
        block.clear();
        block.push(ListNode { base, value });
        let ghost free = self.free@;
        let ghost nodes = self.nodes@;
        let count = self.nodes.len();
        match self.free.pop() {
            Some(slot) => {
                proof {
                    assert(free[free.len() - 1] == slot);
                    assert(nodes[slot as int]@.len() == 0);
                    assert forall|i: int| 0 <= i < self.order@.len() implies #[trigger] self.order@[i]
                        != slot by {
                        assert(nodes[self.order@[i]]@.len() == 1);
                    }
                }
                self.nodes[slot] = block;
                proof {
                    assert forall|k: int| 0 <= k < self.free@.len() implies #[trigger] self.free@[k]
                        < self.nodes@.len() && self.free@[k] != slot
                        && self.nodes@[self.free@[k] as int]@.len() == 0 by {
                        assert(self.free@[k] == free[k]);
                        assert(free[k] != free[free.len() - 1]);
                        assert(nodes[free[k] as int]@.len() == 0);
                    }
                    assert forall|k: int, m: int|
                        0 <= k < self.free@.len() && 0 <= m < self.free@.len() && k
                            != m implies #[trigger] self.free@[k] != #[trigger] self.free@[m] by {
                        assert(self.free@[k] == free[k]);
                        assert(self.free@[m] == free[m]);
                    }
                }
                slot
            },
            None => {
                let slot = self.nodes.len();
                assert(free.len() == 0);
                self.nodes.push(block);
                slot
            },
        }
    }

    /// Init list sentinel node.
    fn init_sentinel_node(&mut self)
        ensures
            final(self).node.next == 0,
            final(self).node.prev == 0,
            final(self).size == old(self).size,
            final(self).nodes == old(self).nodes,
            final(self).free == old(self).free,
            final(self).order == old(self).order,
    {
        self.node.prev = 0;
        self.node.next = 0;
    }

    /// Inserts a node with `value` in the list before the node that `next` names.
    fn insert_node(&mut self, next: usize, value: T, Ghost(at): Ghost<int>)
        requires
            old(self).wf(),
            old(self)@.len() < u32::MAX,
            0 <= at <= old(self)@.len(),
            next == link_at(old(self).order@, at),
        ensures
            final(self).wf(),
            final(self)@ == old(self)@.insert(at, value),
    {
        let ghost order = self.order@;
        let ghost nodes = self.nodes@;
        let ghost sentinel = self.node;
        let slot = self.link_in(next, value, Ghost(at));
        self.size = self.size + 1;
        proof {
            lemma_inserted(nodes, sentinel, order, self.nodes@, self.node, at, slot as int, value);
            self.order@ = order.insert(at, slot as int);
        }
    }

    /// Makes a node with `value` and links it in before the node that `next` names: the
    /// node names its two neighbours, and they name it.
    fn link_in(&mut self, next: usize, value: T, Ghost(at): Ghost<int>) -> (slot: usize)
        requires
            old(self).wf(),
            old(self)@.len() < u32::MAX,
            0 <= at <= old(self)@.len(),
            next == link_at(old(self).order@, at),
        ensures
            final(self).order == old(self).order,
            final(self).size == old(self).size,
            old(self).nodes@.len() <= final(self).nodes@.len(),
            slot < final(self).nodes@.len(),
            forall|i: int| 0 <= i < old(self).order@.len() ==> #[trigger] old(self).order@[i] != slot,
            final(self).nodes@[slot as int]@.len() == 1,
            node_at(final(self).nodes@, slot as int).value == value,
            node_at(final(self).nodes@, slot as int).base.next == link_at(old(self).order@, at),
            node_at(final(self).nodes@, slot as int).base.prev == link_at(
                old(self).order@,
                at - 1,
            ),
            forall|i: int|
                0 <= i < old(self).order@.len() ==> {
                    &&& (#[trigger] final(self).nodes@[old(self).order@[i]])@.len() == 1
                    &&& node_at(final(self).nodes@, old(self).order@[i]).value == node_at(
                        old(self).nodes@,
                        old(self).order@[i],
                    ).value
                    &&& node_at(final(self).nodes@, old(self).order@[i]).base.next == if i == at
                        - 1 {
                        slot + 1
                    } else {
                        node_at(old(self).nodes@, old(self).order@[i]).base.next as int
                    }
                    &&& node_at(final(self).nodes@, old(self).order@[i]).base.prev == if i == at {
                        slot + 1
                    } else {
                        node_at(old(self).nodes@, old(self).order@[i]).base.prev as int
                    }
                },
            final(self).node.next == if at == 0 {
                slot + 1
            } else {
                old(self).node.next as int
            },
            final(self).node.prev == if at == old(self).order@.len() {
                slot + 1
            } else {
                old(self).node.prev as int
            },
            final(self).nodes@.len() == old(self).order@.len() + final(self).free@.len() + 1,
            forall|k: int|
                0 <= k < final(self).free@.len() ==> #[trigger] final(self).free@[k] < final(
                    self).nodes@.len() && final(self).free@[k] != slot && final(
                    self).nodes@[final(self).free@[k] as int]@.len() == 0,
            forall|k: int, m: int|
                0 <= k < final(self).free@.len() && 0 <= m < final(self).free@.len() && k != m
                    ==> #[trigger] final(self).free@[k] != #[trigger] final(self).free@[m],
    {
        let ghost order = self.order@;
        let ghost nodes = self.nodes@;
        proof {
            if at < order.len() {
                assert(0 <= order[at] < nodes.len());
                assert(node_at(nodes, order[at]).base.prev == link_at(order, at - 1));
            }
            if at > 0 {
                assert(0 <= order[at - 1] < nodes.len());
                assert(node_at(nodes, order[at - 1]).base.next == link_at(order, at));
            }
        }
        let prev = self.base(next).prev;
        let slot = self.create_node(ListNodeBase { next, prev }, value);
        let link = slot + 1;
        let ghost created = self.nodes@;
        let ghost free = self.free@;
        proof {
            assert forall|i: int| 0 <= i < order.len() implies (#[trigger] created[order[i]])
                == nodes[order[i]] by {
                assert(order[i] != slot);
            }
        }

        let mut before = self.base(prev);
        before.next = link;
        self.set_base(prev, before);
        let ghost linked = self.nodes@;
        proof {
            assert forall|i: int| 0 <= i < order.len() && i != at - 1 implies (
            #[trigger] linked[order[i]]) == nodes[order[i]] by {
                assert(created[order[i]] == nodes[order[i]]);
                if at > 0 {
                    assert(order[i] != order[at - 1]);
                }
            }
            assert forall|k: int| 0 <= k < free.len() implies linked[(#[trigger] free[k]) as int]
                == created[free[k] as int] by {
                if at > 0 {
                    assert(created[order[at - 1]] == nodes[order[at - 1]]);
                }
            }
            if at > 0 {
                assert(order[at - 1] != slot);
            }
        }
        let mut behind = self.base(next);
        behind.prev = link;
        self.set_base(next, behind);
        proof {
            let now = self.nodes@;
            assert forall|k: int| 0 <= k < free.len() implies now[(#[trigger] free[k]) as int]
                == created[free[k] as int] by {
                assert(linked[free[k] as int] == created[free[k] as int]);
                if at < order.len() {
                    assert(created[order[at]] == nodes[order[at]]);
                }
            }
            if at < order.len() {
                assert(order[at] != slot);
            }
            assert forall|i: int| 0 <= i < order.len() implies {
                &&& (#[trigger] now[order[i]])@.len() == 1
                &&& node_at(now, order[i]).value == node_at(nodes, order[i]).value
                &&& node_at(now, order[i]).base.next == if i == at - 1 {
                    slot + 1
                } else {
                    node_at(nodes, order[i]).base.next as int
                }
                &&& node_at(now, order[i]).base.prev == if i == at {
                    slot + 1
                } else {
                    node_at(nodes, order[i]).base.prev as int
                }
            } by {
                assert(created[order[i]] == nodes[order[i]]);
                assert(order[i] != slot);
                if i != at - 1 {
                    assert(linked[order[i]] == nodes[order[i]]);
                }
                if i != at && at < order.len() {
                    assert(order[i] != order[at]);
                }
            }
        }
        slot
    }

    /// Removes the node that `node` names, extracting its value.
    fn remove_node(&mut self, node: usize, Ghost(at): Ghost<int>) -> (value: T)
        requires
            old(self).wf(),
            0 <= at < old(self)@.len(),
            node == link_at(old(self).order@, at),
        ensures
            final(self).wf(),
            value == old(self)@[at],
            final(self)@ == old(self)@.remove(at),
            final(self).size == old(self).size - 1,
    {
        let ghost order = self.order@;
        let ghost nodes = self.nodes@;
        let ghost sentinel = self.node;
        let ghost free = self.free@;
        let slot = node - 1;
        self.link_out(node, Ghost(at));
        let ghost relinked = self.nodes@;

        let mut block = Vec::new();
        core::mem::swap(&mut self.nodes[slot], &mut block);
        let removed = block.pop().unwrap();
        // Deallocate the memory for the node
        self.allocator.deallocate(block);
        self.free.push(slot);
        self.size = self.size - 1;
        proof {
            let now = self.nodes@;
            assert forall|i: int| 0 <= i < order.len() && i != at implies (#[trigger] now[order[i]])
                == relinked[order[i]] by {
                assert(order[i] != order[at]);
            }
            lemma_removed(nodes, sentinel, order, now, self.node, at);
            self.order@ = order.remove(at);
            assert forall|k: int| 0 <= k < self.free@.len() implies #[trigger] self.free@[k]
                < now.len() && now[self.free@[k] as int]@.len() == 0 by {
                if k < free.len() {
                    assert(self.free@[k] == free[k]);
                    assert(nodes[free[k] as int]@.len() == 0);
                    assert(relinked[free[k] as int]@.len() == 0);
                }
            }
            assert forall|k: int, m: int|
                0 <= k < self.free@.len() && 0 <= m < self.free@.len() && k
                    != m implies #[trigger] self.free@[k] != #[trigger] self.free@[m] by {
                if k < free.len() {
                    assert(self.free@[k] == free[k]);
                    assert(nodes[free[k] as int]@.len() == 0);
                }
                if m < free.len() {
                    assert(self.free@[m] == free[m]);
                    assert(nodes[free[m] as int]@.len() == 0);
                }
            }
        }
        removed.value
    }

    /// Links the node at place `at` out: its two neighbours name each other.
    fn link_out(&mut self, node: usize, Ghost(at): Ghost<int>)
        requires
            old(self).wf(),
            0 <= at < old(self)@.len(),
            node == link_at(old(self).order@, at),
        ensures
            final(self).order == old(self).order,
            final(self).size == old(self).size,
            final(self).free == old(self).free,
            final(self).nodes@.len() == old(self).nodes@.len(),
            final(self).nodes@[old(self).order@[at]] == old(self).nodes@[old(self).order@[at]],
            forall|k: int|
                0 <= k < old(self).free@.len() ==> final(self).nodes@[(#[trigger] old(
                    self).free@[k]) as int] == old(self).nodes@[old(self).free@[k] as int],
            forall|i: int|
                0 <= i < old(self).order@.len() && i != at ==> {
                    &&& (#[trigger] final(self).nodes@[old(self).order@[i]])@.len() == 1
                    &&& node_at(final(self).nodes@, old(self).order@[i]).value == node_at(
                        old(self).nodes@,
                        old(self).order@[i],
                    ).value
                    &&& node_at(final(self).nodes@, old(self).order@[i]).base.next == if i == at
                        - 1 {
                        link_at(old(self).order@, at + 1)
                    } else {
                        node_at(old(self).nodes@, old(self).order@[i]).base.next as int
                    }
                    &&& node_at(final(self).nodes@, old(self).order@[i]).base.prev == if i == at
                        + 1 {
                        link_at(old(self).order@, at - 1)
                    } else {
                        node_at(old(self).nodes@, old(self).order@[i]).base.prev as int
                    }
                },
            final(self).node.next == if at == 0 {
                link_at(old(self).order@, 1)
            } else {
                old(self).node.next as int
            },
            final(self).node.prev == if at == old(self).order@.len() - 1 {
                link_at(old(self).order@, at - 1)
            } else {
                old(self).node.prev as int
            },
    {
        let ghost order = self.order@;
        let ghost nodes = self.nodes@;
        let ghost free = self.free@;
        proof {
            assert(0 <= order[at] < nodes.len());
            assert(node_at(nodes, order[at]).base.next == link_at(order, at + 1));
            if at + 1 < order.len() {
                assert(0 <= order[at + 1] < nodes.len());
                assert(order[at + 1] != order[at]);
            }
            if at > 0 {
                assert(0 <= order[at - 1] < nodes.len());
                assert(order[at - 1] != order[at]);
            }
        }
        let base = self.base(node);

        let mut behind = self.base(base.next);
        behind.prev = base.prev;
        self.set_base(base.next, behind);
        let ghost unlinked = self.nodes@;
        let mut before = self.base(base.prev);
        before.next = base.next;
        self.set_base(base.prev, before);
        proof {
            let now = self.nodes@;
            assert forall|k: int| 0 <= k < free.len() implies now[(#[trigger] free[k]) as int]
                == nodes[free[k] as int] by {
                assert(nodes[free[k] as int]@.len() == 0);
                assert(unlinked[free[k] as int] == nodes[free[k] as int]);
            }
            assert forall|i: int| 0 <= i < order.len() && i != at implies {
                &&& (#[trigger] now[order[i]])@.len() == 1
                &&& node_at(now, order[i]).value == node_at(nodes, order[i]).value
                &&& node_at(now, order[i]).base.next == if i == at - 1 {
                    link_at(order, at + 1)
                } else {
                    node_at(nodes, order[i]).base.next as int
                }
                &&& node_at(now, order[i]).base.prev == if i == at + 1 {
                    link_at(order, at - 1)
                } else {
                    node_at(nodes, order[i]).base.prev as int
                }
            } by {
                assert(order[i] != order[at]);
                assert(0 <= order[i] < nodes.len());
                assert(node_at(nodes, order[i]).base.prev == link_at(order, i - 1));
                if at + 1 < order.len() && i != at + 1 {
                    assert(order[i] != order[at + 1]);
                    assert(unlinked[order[i]] == nodes[order[i]]);
                }
                if at + 1 >= order.len() {
                    assert(unlinked[order[i]] == nodes[order[i]]);
                }
                if at > 0 && i != at - 1 {
                    assert(order[i] != order[at - 1]);
                    assert(now[order[i]] == unlinked[order[i]]);
                }
                if at == 0 {
                    assert(now[order[i]] == unlinked[order[i]]);
                }
            }
        }
    }

    /// A mutable look at the value of the node that `link` names, at place `at`.
    pub(crate) fn value_mut_at(&mut self, link: usize, Ghost(at): Ghost<int>) -> (value: &mut T)
        requires
            old(self).wf(),
            0 <= at < old(self)@.len(),
            link == link_at(old(self).spec_order(), at),
        ensures
            final(self).wf(),
            *value == old(self)@[at],
            final(self)@ == old(self)@.update(at, *final(value)),
            final(self).spec_order() == old(self).spec_order(),
    {
        let ghost order = self.order@;
        let ghost nodes = self.nodes@;
        let ghost sentinel = self.node;
        let ghost free = self.free@;
        let slot = link - 1;
        proof {
            assert(0 <= order[at] < nodes.len());
            assert forall|now: Seq<Vec<ListNode<T>>>|
                #![trigger now[slot as int]]
                now.len() == nodes.len() && now[slot as int]@.len() == 1 && node_at(
                    now,
                    slot as int,
                ).base == node_at(nodes, slot as int).base && (forall|other: int|
                    0 <= other < nodes.len() && other != slot ==> now[other]
                        == nodes[other]) implies {
                &&& slots_ok(now, free, order)
                &&& links_ok(now, sentinel, order)
                &&& values(now, order) == values(nodes, order).update(
                    at,
                    node_at(now, slot as int).value,
                )
            } by {
                assert forall|i: int| 0 <= i < order.len() implies 0 <= #[trigger] order[i]
                    < now.len() && now[order[i]]@.len() == 1 by {
                    if i != at {
                        assert(order[i] != order[at]);
                    }
                }
                assert forall|k: int| 0 <= k < free.len() implies #[trigger] free[k] < now.len()
                    && now[free[k] as int]@.len() == 0 by {
                    assert(nodes[free[k] as int]@.len() == 0);
                }
                assert forall|i: int| 0 <= i < order.len() implies (#[trigger] node_at(
                    now,
                    order[i],
                )).base.next == link_at(order, i + 1) && node_at(now, order[i]).base.prev
                    == link_at(order, i - 1) by {
                    assert(node_at(nodes, order[i]).base.next == link_at(order, i + 1));
                    if i != at {
                        assert(order[i] != order[at]);
                    }
                }
                assert forall|i: int| 0 <= i < order.len() implies values(now, order)[i] == values(
                    nodes,
                    order,
                ).update(at, node_at(now, slot as int).value)[i] by {
                    if i != at {
                        assert(order[i] != order[at]);
                    }
                }
                assert(values(now, order) =~= values(nodes, order).update(
                    at,
                    node_at(now, slot as int).value,
                ));
            }
        }
        let block = &mut self.nodes[slot];
        block[0].value_mut()
    }

    /// Returns the link to the node behind the node that `link` names.
    pub(crate) fn next_link(&self, link: usize, Ghost(at): Ghost<int>) -> (next: usize)
        requires
            self.wf(),
            0 <= at < self@.len(),
            link == link_at(self.spec_order(), at),
        ensures
            next == link_at(self.spec_order(), at + 1),
    {
        proof {
            self.lemma_links(at);
        }
        self.base(link).next
    }
}

} // verus!
