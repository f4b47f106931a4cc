use vstd::prelude::*;

verus! {

/// A tree whose leaves hold values of type `T` and whose inner nodes hold
/// an ordered sequence of children.
#[derive(Debug, PartialEq, Eq)]
pub enum Tree<T> {
    Leaf(T),
    Branch(Vec<Tree<T>>),
}

impl<T> Tree<T> {
    pub fn is_leaf(&self) -> (r: bool)
        ensures
            r == (self is Leaf),
    {
        match self {
            Tree::Leaf(_) => true,
            _ => false,
        }
    }

    pub fn is_branch(&self) -> (r: bool)
        ensures
            r == (self is Branch),
    {
        !self.is_leaf()
    }

    /// The value held by a leaf.
    pub fn get_ref_leaf(&self) -> (r: &T)
        requires
            self is Leaf,
        ensures
            *r == self->Leaf_0,
    {
        match self {
            Tree::Leaf(val) => val,
            Tree::Branch(_) => unreached(),
        }
    }

    /// The children of a branch, taking the tree apart.
    pub fn unwrap_branch(self) -> (r: Vec<Tree<T>>)
        requires
            self is Branch,
        ensures
            r == self->Branch_0,
    {
        match self {
            Tree::Branch(val) => val,
            Tree::Leaf(_) => unreached(),
        }
    }

    /// A borrowed view of the children of a branch.
    pub fn get_ref_branch(&self) -> (r: &Vec<Tree<T>>)
        requires
            self is Branch,
        ensures
            *r == self->Branch_0,
    {
        match self {
            Tree::Branch(val) => val,
            Tree::Leaf(_) => unreached(),
        }
    }
}

} // verus!
