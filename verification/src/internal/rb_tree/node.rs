use vstd::prelude::*;

verus! {

/// The color of a red-black tree node.
#[derive(Debug, PartialEq, Eq, Structural, Clone, Copy)]
pub enum Color {
    Red,
    Black,
}

impl Color {
    /// The color that the number stands for: zero for red, one for black.
    pub fn from(val: u32) -> (color: Self)
        requires
            val <= 1,
        ensures
            color == Self::spec_from(val as usize),
    {
        assert(0usize & 1 == 0 && 1usize & 1 == 1) by (bit_vector);
        if val == 0 {
            Self::Red
        } else {
            Self::Black
        }
    }

    /// The color that the lowest bit of `bits` stands for.
    pub open spec fn spec_from(bits: usize) -> Self {
        if bits & 1 == 0 {
            Self::Red
        } else {
            Self::Black
        }
    }

    /// The bit that stands for the color.
    pub open spec fn spec_bit(self) -> usize {
        match self {
            Self::Red => 0,
            Self::Black => 1,
        }
    }

    /// Returns the bit that stands for the color.
    pub fn bit(self) -> (bit: usize)
        ensures
            bit == self.spec_bit(),
    {
        match self {
            Self::Red => 0,
            Self::Black => 1,
        }
    }
}

/// A parent-color compressed pair. Combined, the
/// pair takes one machine word: the link to the parent is an even number, and the color
/// takes the lowest bit.
#[derive(Debug, Clone, Copy)]
pub struct ParentColor {
    packed: usize,
}

impl ParentColor {
    /// The color of the pair.
    pub closed spec fn spec_color(&self) -> Color {
        Color::spec_from(self.packed)
    }

    /// The link of the pair.
    pub closed spec fn spec_ptr(&self) -> usize {
        self.packed & !1usize
    }

    /// Creates a new parent-color compressed pair.
    pub fn _new(color: Color, parent_ptr: usize) -> (pair: Self)
        requires
            parent_ptr & 1 == 0,
        ensures
            pair.spec_color() == color,
            pair.spec_ptr() == parent_ptr,
    {
        let mut this = Self::default();
        this._set_color(color);
        this._set_ptr(parent_ptr);
        this
    }

    /// Fetches the color of the parent-color compressed pair.
    pub fn color(&self) -> (color: Color)
        ensures
            color == self.spec_color(),
    {
        let raw = self.packed;
        let bit = raw & 1;
        assert(bit <= 1) by (bit_vector)
            requires
                bit == raw & 1,
        ;
        if bit == 0 {
            Color::Red
        } else {
            Color::Black
        }
    }

    /// Fetches the link stored in the parent-color compressed pair.
    pub fn ptr(&self) -> (ptr: usize)
        ensures
            ptr == self.spec_ptr(),
            ptr & 1 == 0,
    {
        let raw = self.packed;
        assert((raw & !1usize) & 1 == 0) by (bit_vector);
        self.packed & !1
    }

    /// Sets the color of the node.
    pub fn _set_color(&mut self, color: Color)
        ensures
            final(self).spec_color() == color,
            final(self).spec_ptr() == old(self).spec_ptr(),
    {
        let raw = self.packed;
        let bit = color.bit();
        assert(((raw & !1usize) | bit) & 1 == bit && ((raw & !1usize) | bit) & !1usize == raw
            & !1usize) by (bit_vector)
            requires
                bit <= 1,
        ;
        assert(0usize & 1 == 0 && 1usize & 1 == 1) by (bit_vector);
        self.packed = (self.packed & !1) | bit;
    }

    /// Sets the parent link of the node.
    pub fn _set_ptr(&mut self, parent_ptr: usize)
        requires
            parent_ptr & 1 == 0,
        ensures
            final(self).spec_color() == old(self).spec_color(),
            final(self).spec_ptr() == parent_ptr,
    {
        let raw = self.packed;
        assert(((raw & 1) | parent_ptr) & 1 == raw & 1 && ((raw & 1) | parent_ptr) & !1usize
            == parent_ptr) by (bit_vector)
            requires
                parent_ptr & 1 == 0,
        ;
        self.packed = (self.packed & 1) | parent_ptr;
    }
}

impl Default for ParentColor {
    fn default() -> (pair: Self)
        ensures
            pair.spec_color() == Color::Red,
            pair.spec_ptr() == 0,
    {
        assert(0usize & 1 == 0 && 0usize & !1usize == 0) by (bit_vector);
        Self { packed: 0 }
    }
}

/// A node of a red-black tree. The links name nodes by even numbers: zero is no node, and
/// twice the slot plus two is the node in that slot.
#[derive(Debug)]
pub struct Node<K, V> {
    /// The link to the right child.
    pub right: usize,
    /// The link to the left child.
    pub left: usize,
    /// The link to the parent, and the color.
    pub parent: ParentColor,
    /// The key of the node.
    pub key: K,
    /// The value of the node.
    pub val: V,
}

impl<K: Default, V: Default> Default for Node<K, V> {
    fn default() -> (node: Self)
        ensures
            node.right == 0,
            node.left == 0,
            node.parent.spec_color() == Color::Red,
            node.parent.spec_ptr() == 0,
    {
        Self {
            right: 0,
            left: 0,
            parent: ParentColor::default(),
            key: K::default(),
            val: V::default(),
        }
    }
}

impl<K, V> Node<K, V> {
    /// The color of the node.
    pub fn _color(&self) -> (color: Color)
        ensures
            color == self.parent.spec_color(),
    {
        self.parent.color()
    }

    /// Sets the color of the node.
    pub fn _set_color(&mut self, color: Color)
        ensures
            final(self).parent.spec_color() == color,
            final(self).parent.spec_ptr() == old(self).parent.spec_ptr(),
            final(self).left == old(self).left,
            final(self).right == old(self).right,
            final(self).key == old(self).key,
            final(self).val == old(self).val,
    {
        self.parent._set_color(color)
    }

    /// The link to the left child of the node, if it has one.
    pub fn left(&self) -> (link: Option<usize>)
        ensures
            link == if self.left == 0 {
                None
            } else {
                Some(self.left)
            },
    {
        if self.left == 0 {
            None
        } else {
            Some(self.left)
        }
    }

    /// Sets the left child of the node, returning the old left child.
    pub fn _set_left(&mut self, left: usize) -> (old_left: usize)
        ensures
            old_left == old(self).left,
            final(self).left == left,
            final(self).right == old(self).right,
            final(self).parent == old(self).parent,
            final(self).key == old(self).key,
            final(self).val == old(self).val,
    {
        let old_left = self.left;
        self.left = left;
        old_left
    }

    /// The link to the parent of the node, if it has one.
    pub fn _parent(&self) -> (link: Option<usize>)
        ensures
            link == if self.parent.spec_ptr() == 0 {
                None
            } else {
                Some(self.parent.spec_ptr())
            },
    {
        let ptr = self.parent.ptr();
        if ptr == 0 {
            None
        } else {
            Some(ptr)
        }
    }

    /// Sets the parent of the node, returning the old parent.
    pub fn _set_parent(&mut self, parent: usize) -> (old_parent: usize)
        requires
            parent & 1 == 0,
        ensures
            old_parent == old(self).parent.spec_ptr(),
            final(self).parent.spec_ptr() == parent,
            final(self).parent.spec_color() == old(self).parent.spec_color(),
            final(self).left == old(self).left,
            final(self).right == old(self).right,
            final(self).key == old(self).key,
            final(self).val == old(self).val,
    {
        let old_parent = self.parent.ptr();
        self.parent._set_ptr(parent);
        old_parent
    }

    /// The link to the right child of the node, if it has one.
    pub fn right(&self) -> (link: Option<usize>)
        ensures
            link == if self.right == 0 {
                None
            } else {
                Some(self.right)
            },
    {
        if self.right == 0 {
            None
        } else {
            Some(self.right)
        }
    }

    /// Sets the right child of the node, returning the old right child.
    pub fn _set_right(&mut self, right: usize) -> (old_right: usize)
        ensures
            old_right == old(self).right,
            final(self).right == right,
            final(self).left == old(self).left,
            final(self).parent == old(self).parent,
            final(self).key == old(self).key,
            final(self).val == old(self).val,
    {
        let old_right = self.right;
        self.right = right;
        old_right
    }

    /// The key stored in the node.
    pub fn key(&self) -> (key: &K)
        ensures
            *key == self.key,
    {
        &self.key
    }

    /// The value stored in the node.
    pub fn val(&self) -> (val: &V)
        ensures
            *val == self.val,
    {
        &self.val
    }

    /// The value stored in the node.
    pub fn val_mut(&mut self) -> (val: &mut V)
        ensures
            *val == old(self).val,
            final(self).val == *final(val),
            final(self).key == old(self).key,
            final(self).left == old(self).left,
            final(self).right == old(self).right,
            final(self).parent == old(self).parent,
    {
        &mut self.val
    }
}

} // verus!
