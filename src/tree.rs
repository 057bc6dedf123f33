use vstd::prelude::*;

use crate::iter::{derefs, TreeNode};
use crate::iter_mut::{currents, TreeNodeMut};

verus! {

/// A tree node: a value and the subtrees below it, in order. Equality and
/// hashing go through the value and the whole subtree.
#[derive(Debug, PartialEq, Eq, Hash)]
pub struct Node<T> {
    /// The value held at this node.
    pub value: T,
    /// The subtrees below this node, in order.
    pub children: Vec<Node<T>>,
}

/// The number of nodes in a sequence of trees.
pub open spec fn node_count<T>(roots: Seq<Node<T>>) -> nat
    decreases roots,
{
    if roots.len() == 0 {
        0
    } else {
        let last = roots.last();
        proof {
            assert(decreases_to!(roots => roots[roots.len() - 1]));
            assert(decreases_to!(last => last.children));
            assert(decreases_to!(last.children => last.children@));
        }
        node_count(roots.drop_last()) + 1 + node_count(last.children@)
    }
}

impl<T> Node<T> {
    /// A node without children.
    pub fn new(value: T) -> (r: Node<T>)
        ensures
            r.value == value,
            r.children@.len() == 0,
    {
        Node { value, children: Vec::new() }
    }
}

impl<T> TreeNode for Node<T> {
    open spec fn spec_children(&self) -> Seq<Self> {
        self.children@
    }

    open spec fn subtree_size(&self) -> nat {
        1 + node_count(self.children@)
    }

    proof fn lemma_subtree_size(&self) {
        lemma_node_count_fold(self.children@);
    }

    fn children(&self) -> (r: Vec<&Self>) {
        let mut r: Vec<&Self> = Vec::new();
        let mut i: usize = 0;
        while i < self.children.len()
            invariant
                i <= self.children@.len(),
                r@.len() == i,
                forall|j: int| 0 <= j < i ==> *r@[j] == self.children@[j],
            decreases self.children@.len() - i,
        {
            r.push(&self.children[i]);
            i = i + 1;
        }
        assert(derefs(r@) =~= self.children@);
        r
    }
}

/// Counting the nodes of a sequence of trees adds up the subtree sizes.
pub proof fn lemma_node_count_fold<T>(roots: Seq<Node<T>>)
    ensures
        node_count(roots) == roots.fold_left(
            0nat,
            |total: nat, c: Node<T>| total + c.subtree_size(),
        ),
    decreases roots.len(),
{
    if roots.len() > 0 {
        lemma_node_count_fold(roots.drop_last());
    }
}

} // verus!

verus! {

impl<T> TreeNodeMut for Node<T> {
    open spec fn same_apart_from_children(&self, other: Self) -> bool {
        self.value == other.value
    }

    fn children_mut(&mut self) -> (r: Vec<&mut Self>) {
        let ghost done = final(self).children@;
        let mut rest: &mut [Node<T>] = self.children.as_mut_slice();
        let mut r: Vec<&mut Node<T>> = Vec::new();
        while rest.len() > 0
            invariant
                old(self).children@ == currents(r@) + rest@,
                done == r@.map_values(|c: &mut Node<T>| *final(c)) + final(rest)@,
            decreases rest@.len(),
        {
            let (head, tail) = rest.split_at_mut(1);
            let h = head.first_mut().unwrap();
            r.push(h);
            rest = tail;
        }
        r
    }
}

} // verus!
