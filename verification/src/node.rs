use vstd::prelude::*;

verus! {

/// A binary tree node owning its children.
#[derive(Debug)]
pub struct Node {
    pub value: i32,
    pub left: Option<Box<Node>>,
    pub right: Option<Box<Node>>,
}

impl Node {
    /// A leaf holding the given value.
    pub fn new(value: i32) -> (n: Node)
        ensures
            n.value == value,
            n.left is None,
            n.right is None,
    {
        Node { value, left: None, right: None }
    }

    /// Attaches a new leaf as the left child if that slot is free, else as
    /// the right child if that one is, and reports whether a slot was found.
    pub fn add_child(&mut self, value: i32) -> (added: bool)
        ensures
            final(self).value == old(self).value,
            old(self).left is None ==> {
                &&& added
                &&& final(self).right == old(self).right
                &&& match final(self).left {
                    Some(l) => l.value == value && l.left is None && l.right is None,
                    None => false,
                }
            },
            old(self).left is Some && old(self).right is None ==> {
                &&& added
                &&& final(self).left == old(self).left
                &&& match final(self).right {
                    Some(r) => r.value == value && r.left is None && r.right is None,
                    None => false,
                }
            },
            old(self).left is Some && old(self).right is Some ==> !added && *final(self) == *old(
                self,
            ),
    {
        if self.left.is_none() {
            self.left = Some(Box::new(Node::new(value)));
            true
        } else if self.right.is_none() {
            self.right = Some(Box::new(Node::new(value)));
            true
        } else {
            false
        }
    }

    /// The value stored at this node.
    pub fn get_value(&self) -> (v: i32)
        ensures
            v == self.value,
    {
        self.value
    }

    /// The left child slot.
    pub fn get_left(&self) -> (l: &Option<Box<Node>>)
        ensures
            l == &self.left,
    {
        &self.left
    }

    /// The right child slot.
    pub fn get_right(&self) -> (r: &Option<Box<Node>>)
        ensures
            r == &self.right,
    {
        &self.right
    }
}

} // verus!
