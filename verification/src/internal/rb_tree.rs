use crate::allocator::Allocator;
use crate::compare::{Compare, Less};
use crate::internal::rb_tree::node::Node;
use vstd::prelude::*;

pub mod node;

verus! {

/// The slot of the node that the link `link` names.
pub open spec fn slot_of(link: usize) -> int {
    link / 2 - 1
}

/// The links from `link` down name nodes that are there, for no more than `height` steps.
pub open spec fn rooted<K, V>(nodes: Seq<Vec<Node<K, V>>>, link: usize, height: nat) -> bool
    decreases height,
{
    link == 0 || {
        &&& height > 0
        &&& link % 2 == 0
        &&& 0 <= slot_of(link) < nodes.len()
        &&& nodes[slot_of(link)]@.len() == 1
        &&& rooted(nodes, nodes[slot_of(link)]@[0].left, (height - 1) as nat)
        &&& rooted(nodes, nodes[slot_of(link)]@[0].right, (height - 1) as nat)
    }
}

/// The link of the node that a search for `key` from `link` down ends at, or zero if it
/// ends at no node: the search goes left where the key comes before the key of a node, and
/// right where the key of the node comes before it.
pub open spec fn found<K, V, C: Compare<K>>(
    nodes: Seq<Vec<Node<K, V>>>,
    link: usize,
    height: nat,
    key: K,
) -> usize
    decreases height,
{
    if link == 0 || height == 0 {
        0
    } else {
        let node = nodes[slot_of(link)]@[0];
        if C::less(&key, &node.key) {
            found::<K, V, C>(nodes, node.left, (height - 1) as nat, key)
        } else if !C::less(&node.key, &key) {
            link
        } else {
            found::<K, V, C>(nodes, node.right, (height - 1) as nat, key)
        }
    }
}

/// A search ends at a node that is there.
pub proof fn lemma_found<K, V, C: Compare<K>>(
    nodes: Seq<Vec<Node<K, V>>>,
    link: usize,
    height: nat,
    key: K,
)
    requires
        rooted(nodes, link, height),
    ensures
        found::<K, V, C>(nodes, link, height, key) != 0 ==> {
            &&& found::<K, V, C>(nodes, link, height, key) % 2 == 0
            &&& 0 <= slot_of(found::<K, V, C>(nodes, link, height, key)) < nodes.len()
            &&& nodes[slot_of(found::<K, V, C>(nodes, link, height, key))]@.len() == 1
        },
    decreases height,
{
    if link != 0 && height != 0 {
        let node = nodes[slot_of(link)]@[0];
        if C::less(&key, &node.key) {
            lemma_found::<K, V, C>(nodes, node.left, (height - 1) as nat, key);
        } else if C::less(&node.key, &key) {
            lemma_found::<K, V, C>(nodes, node.right, (height - 1) as nat, key);
        }
    }
}

/// A search takes the same way through nodes with the same keys and links.
pub proof fn lemma_found_same<K, V, C: Compare<K>>(
    nodes: Seq<Vec<Node<K, V>>>,
    now: Seq<Vec<Node<K, V>>>,
    link: usize,
    height: nat,
    key: K,
)
    requires
        rooted(nodes, link, height),
        now.len() == nodes.len(),
        forall|slot: int|
            0 <= slot < nodes.len() ==> (#[trigger] now[slot])@.len() == nodes[slot]@.len() && (
            nodes[slot]@.len() == 1 ==> now[slot]@[0].key == nodes[slot]@[0].key
                && now[slot]@[0].left == nodes[slot]@[0].left && now[slot]@[0].right
                == nodes[slot]@[0].right),
    ensures
        rooted(now, link, height),
        found::<K, V, C>(now, link, height, key) == found::<K, V, C>(nodes, link, height, key),
    decreases height,
{
    if link != 0 && height != 0 {
        let node = nodes[slot_of(link)]@[0];
        assert(now[slot_of(link)]@.len() == 1);
        lemma_found_same::<K, V, C>(nodes, now, node.left, (height - 1) as nat, key);
        lemma_found_same::<K, V, C>(nodes, now, node.right, (height - 1) as nat, key);
    }
}

/// A tree that keeps its pairs in the order of their keys, with colors at its nodes for a
/// red-black balance. Nothing puts a pair into the tree yet: a tree is made empty, and the
/// search finds in it what its nodes hold.
pub struct RBTree<K: PartialEq, V, A: Allocator, C: Compare<K> = Less<K>> {
    compare: C,
    begin: usize,
    end: usize,
    parent: usize,
    size: usize,
    allocator: A,
    nodes: Vec<Vec<Node<K, V>>>,
    height: Ghost<nat>,
}

impl<K: PartialEq, V, A: Allocator + Default, C: Compare<K> + Default> RBTree<K, V, A, C> {
    /// Returns a default new red-black tree.
    pub fn new() -> (tree: Self)
        ensures
            tree.wf(),
            tree.spec_len() == 0,
            forall|key: K| tree.spec_get(key).is_none(),
    {
        Self::with_allocator_and_compare(A::default(), C::default())
    }
}

impl<K: PartialEq, V, A: Allocator + Default, C: Compare<K> + Default> Default for RBTree<
    K,
    V,
    A,
    C,
> {
    fn default() -> (tree: Self)
        ensures
            tree.wf(),
            tree.spec_len() == 0,
            forall|key: K| tree.spec_get(key).is_none(),
    {
        Self::new()
    }
}

impl<K: PartialEq, V, A: Allocator, C: Compare<K> + Default> RBTree<K, V, A, C> {
    /// Constructs a red-black tree using a specified allocator.
    pub fn with_allocator(allocator: A) -> (tree: Self)
        ensures
            tree.wf(),
            tree.spec_len() == 0,
            forall|key: K| tree.spec_get(key).is_none(),
    {
        Self::with_allocator_and_compare(allocator, C::default())
    }
}

impl<K: PartialEq, V, A: Allocator + Default, C: Compare<K>> RBTree<K, V, A, C> {
    /// Constructs a red-black tree using a specified comparator.
    pub fn with_compare(compare: C) -> (tree: Self)
        ensures
            tree.wf(),
            tree.spec_len() == 0,
            forall|key: K| tree.spec_get(key).is_none(),
    {
        Self::with_allocator_and_compare(A::default(), compare)
    }
}

impl<K: PartialEq, V, A: Allocator, C: Compare<K>> RBTree<K, V, A, C> {
    /// The links from the root down name nodes that are there.
    pub closed spec fn wf(&self) -> bool {
        rooted(self.nodes@, self.parent, self.height@)
    }

    /// The number of pairs that the tree counts.
    pub closed spec fn spec_len(&self) -> usize {
        self.size
    }

    /// The value of the node that a search for `key` from the root ends at.
    pub closed spec fn spec_get(&self, key: K) -> Option<V> {
        let link = found::<K, V, C>(self.nodes@, self.parent, self.height@, key);
        if link == 0 {
            None
        } else {
            Some(self.nodes@[slot_of(link)]@[0].val)
        }
    }

    /// Constructs a red-black tree using a specified allocator
    /// and comparator.
    pub fn with_allocator_and_compare(allocator: A, compare: C) -> (tree: Self)
        ensures
            tree.wf(),
            tree.spec_len() == 0,
            forall|key: K| tree.spec_get(key).is_none(),
    {
        Self {
            compare,
            begin: 0,
            end: 0,
            parent: 0,
            size: 0,
            allocator,
            nodes: Vec::new(),
            height: Ghost(0),
        }
    }

    /// Clears the red-black tree, removing all key-value pairs.
    pub fn clear(&mut self)
        requires
            old(self).wf(),
        ensures
            final(self).wf(),
            final(self).spec_len() == 0,
            forall|key: K| final(self).spec_get(key).is_none(),
    {
        self.free_nodes();
        self.begin = 0;
        self.end = 0;
        self.parent = 0;
        self.size = 0;
    }

    /// Returns true if the red-black tree contains a pair indexed
    /// by the given key.
    pub fn contains_key(&self, key: &K) -> (found: bool)
        requires
            self.wf(),
            C::obeys_compare_spec(),
        ensures
            found == self.spec_get(*key).is_some(),
    {
        self.get(key).is_some()
    }

    /// Fetches the value indexed by the key in the tree.
    pub fn get(&self, key: &K) -> (value: Option<&V>)
        requires
            self.wf(),
            C::obeys_compare_spec(),
        ensures
            value == match self.spec_get(*key) {
                Some(v) => Some(&v),
                None => None,
            },
    {
        match self.find_in_tree(key) {
            Some(slot) => Some(self.nodes[slot][0].val()),
            None => None,
        }
    }

    /// Fetches the value indexed by the key in the tree.
    pub fn get_mut(&mut self, key: &K) -> (value: Option<&mut V>)
        requires
            old(self).wf(),
            C::obeys_compare_spec(),
        ensures
            final(self).wf(),
            final(self).spec_len() == old(self).spec_len(),
            match value {
                Some(v) => old(self).spec_get(*key) == Some(*v) && final(self).spec_get(*key)
                    == Some(*final(v)),
                None => old(self).spec_get(*key).is_none() && final(self).spec_get(*key).is_none(),
            },
    {
        let ghost nodes = self.nodes@;
        let ghost link = found::<K, V, C>(nodes, self.parent, self.height@, *key);
        match self.find_in_tree(key) {
            Some(slot) => {
                proof {
                    assert forall|now: Seq<Vec<Node<K, V>>>|
                        #![trigger now[slot as int]]
                        now.len() == nodes.len() && now[slot as int]@.len() == 1 && now[slot as int]@[0].key
                            == nodes[slot as int]@[0].key && now[slot as int]@[0].left
                            == nodes[slot as int]@[0].left && now[slot as int]@[0].right
                            == nodes[slot as int]@[0].right && (forall|other: int|
                            0 <= other < nodes.len() && other != slot ==> now[other]
                                == nodes[other]) implies rooted(now, self.parent, self.height@)
                        && found::<K, V, C>(now, self.parent, self.height@, *key) == link by {
                        lemma_found_same::<K, V, C>(
                            nodes,
                            now,
                            self.parent,
                            self.height@,
                            *key,
                        );
                    }
                }
                let block = &mut self.nodes[slot];
                Some(block[0].val_mut())
            },
            None => None,
        }
    }

    /// Returns true if the red-black tree contains no elements.
    pub fn is_empty(&self) -> (empty: bool)
        ensures
            empty == (self.spec_len() == 0),
    {
        self.len() == 0
    }

    /// Returns the number of elements in the red-black tree.
    pub fn len(&self) -> (len: usize)
        ensures
            len == self.spec_len(),
    {
        self.size
    }

    /// Finds the slot of the node in the tree that holds the key.
    fn find_in_tree(&self, key: &K) -> (slot: Option<usize>)
        requires
            self.wf(),
            C::obeys_compare_spec(),
        ensures
            match slot {
                Some(slot) => {
                    &&& found::<K, V, C>(self.nodes@, self.parent, self.height@, *key) != 0
                    &&& slot == slot_of(
                        found::<K, V, C>(self.nodes@, self.parent, self.height@, *key),
                    )
                    &&& slot < self.nodes@.len()
                    &&& self.nodes@[slot as int]@.len() == 1
                },
                None => found::<K, V, C>(self.nodes@, self.parent, self.height@, *key) == 0,
            },
    {
        let mut current_node = self.parent;
        let ghost mut height = self.height@;
        while current_node != 0
            invariant
                C::obeys_compare_spec(),
                rooted(self.nodes@, current_node, height),
                found::<K, V, C>(self.nodes@, current_node, height, *key) == found::<K, V, C>(
                    self.nodes@,
                    self.parent,
                    self.height@,
                    *key,
                ),
            decreases height,
        {
            let slot = current_node / 2 - 1;
            let node = &self.nodes[slot][0];
            if C::compare(key, node.key()) {
                current_node = node.left;
                // if the key !< node and node !< key they must be equal
            } else if !C::compare(node.key(), key) {
                return Some(slot);
            } else {
                current_node = node.right;
            }
            proof {
                height = (height - 1) as nat;
            }
        }
        None
    }

    /// Finds the slot of the node under which a new pair with the key would go.
    fn _find_insertion_position(&self, key: &K) -> (slot: Option<usize>)
        requires
            self.wf(),
        ensures
            slot.is_some() == (self.spec_root() != 0),
            slot.is_some() ==> slot.unwrap() < self.spec_slots(),
    {
        let mut current_node = self.parent;
        let mut prev_node: usize = 0;
        let ghost mut height = self.height@;
        while current_node != 0
            invariant
                rooted(self.nodes@, current_node, height),
                rooted(self.nodes@, prev_node, self.height@ + 1),
                height <= self.height@,
                prev_node == 0 ==> current_node == self.parent,
                prev_node != 0 ==> self.parent != 0,
            decreases height,
        {
            prev_node = current_node;
            let node = &self.nodes[current_node / 2 - 1][0];
            let _is_key_less_than_node = C::compare(key, node.key());
            proof {
                Self::lemma_deeper(self.nodes@, current_node, height, self.height@ + 1);
            }
            if _is_key_less_than_node {
                current_node = node.left;
            } else {
                current_node = node.right;
            }
            proof {
                height = (height - 1) as nat;
            }
        }

        if prev_node == 0 {
            None
        } else {
            Some(prev_node / 2 - 1)
        }
    }

    /// The link to the root of the tree.
    pub closed spec fn spec_root(&self) -> usize {
        self.parent
    }

    /// The number of slots of the tree.
    pub closed spec fn spec_slots(&self) -> nat {
        self.nodes@.len()
    }

    /// What is rooted within some height is rooted within a greater one.
    pub proof fn lemma_deeper(nodes: Seq<Vec<Node<K, V>>>, link: usize, height: nat, more: nat)
        requires
            rooted(nodes, link, height),
            height <= more,
        ensures
            rooted(nodes, link, more),
        decreases height,
    {
        if link != 0 {
            let node = nodes[slot_of(link)]@[0];
            Self::lemma_deeper(nodes, node.left, (height - 1) as nat, (more - 1) as nat);
            Self::lemma_deeper(nodes, node.right, (height - 1) as nat, (more - 1) as nat);
        }
    }

    /// Frees all of the nodes in the tree, slot by slot: every slot is empty afterwards, and
    /// the links and the count of the tree stay as they are.
    fn free_nodes(&mut self)
        requires
            old(self).wf(),
        ensures
            final(self).nodes@.len() == old(self).nodes@.len(),
            forall|slot: int|
                0 <= slot < final(self).nodes@.len() ==> (#[trigger] final(self).nodes@[slot])@.len()
                    == 0,
            final(self).begin == old(self).begin,
            final(self).end == old(self).end,
            final(self).parent == old(self).parent,
            final(self).size == old(self).size,
            final(self).compare == old(self).compare,
            final(self).height == old(self).height,
    {
        let mut slot: usize = 0;
        while slot < self.nodes.len()
            invariant
                slot <= self.nodes@.len(),
                self.nodes@.len() == old(self).nodes@.len(),
                forall|done: int| 0 <= done < slot ==> (#[trigger] self.nodes@[done])@.len() == 0,
                self.begin == old(self).begin,
                self.end == old(self).end,
                self.parent == old(self).parent,
                self.size == old(self).size,
                self.compare == old(self).compare,
                self.height == old(self).height,
            decreases self.nodes@.len() - slot,
        {
            let mut block = Vec::new();
            core::mem::swap(&mut self.nodes[slot], &mut block);
            self.allocator.deallocate(block);
            slot = slot + 1;
        }
    }
}

} // verus!
