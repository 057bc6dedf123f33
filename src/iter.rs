use std::collections::VecDeque;
use std::marker::PhantomData;
use vstd::prelude::*;

use crate::traversal::traversal;
use crate::traversal_order::{enqueue, BreadthFirst, TraversalOrder};

verus! {

/// A tree that can list its children, read-only.
pub trait TreeNode: Sized {
    /// The children of this node, in order.
    spec fn spec_children(&self) -> Seq<Self>;

    /// The number of nodes in the subtree rooted at this node. It bounds
    /// what a traversal from this node yields, so every finite tree has one.
    spec fn subtree_size(&self) -> nat;

    /// A node counts once in its subtree, besides its children's subtrees.
    proof fn lemma_subtree_size(&self)
        ensures
            self.subtree_size() == 1 + self.spec_children().fold_left(
                0nat,
                |total: nat, c: Self| total + c.subtree_size(),
            ),
    ;

    /// References to the children of this node, in order.
    fn children(&self) -> (r: Vec<&Self>)
        ensures
            derefs(r@) == self.spec_children(),
    ;

    /// A read-only traversal of the tree rooted at this node.
    fn iter<T: TraversalOrder>(&self) -> (r: TreeIter<'_, Self, T>)
        ensures
            r.frontier() == seq![*self],
    {
        let mut roots: Vec<&Self> = Vec::new();
        roots.push(self);
        TreeIter::new(roots)
    }
}

/// The values behind a sequence of shared references.
pub open spec fn derefs<N>(s: Seq<&N>) -> Seq<N> {
    s.map_values(|r: &N| *r)
}

/// The number of nodes in the subtrees of a sequence of roots.
pub open spec fn forest_size<N: TreeNode>(roots: Seq<N>) -> nat {
    roots.fold_left(0nat, |total: nat, c: N| total + c.subtree_size())
}

/// Two read-only traversals that start from the same roots in the same order
/// yield the same nodes: what a traversal yields depends on its roots alone.
pub proof fn lemma_traversal_repeatable<'a, N: TreeNode, T: TraversalOrder>(
    roots: Seq<N>,
    first: TreeIter<'a, N, T>,
    second: TreeIter<'a, N, T>,
)
    requires
        first.frontier() == roots,
        second.frontier() == roots,
    ensures
        first.remaining() == second.remaining(),
        first.remaining() == traversal(T::is_depth_first(), roots),
{
}

/// A read-only traversal: yields references to the nodes of one or more
/// trees, in the order `T`.
pub struct TreeIter<'a, N, T> {
    /// The nodes discovered and not yet yielded.
    nodes: VecDeque<&'a N>,
    _order: PhantomData<T>,
}

impl<'a, N, T: TraversalOrder> TreeIter<'a, N, T> {
    /// The nodes discovered and not yet yielded, in the order in which they
    /// stand in the frontier.
    pub closed spec fn frontier(&self) -> Seq<N> {
        derefs(self.nodes@)
    }

    /// A traversal of the trees rooted at `roots`, in the given order.
    pub fn new(roots: Vec<&'a N>) -> (r: Self)
        ensures
            r.frontier() == derefs(roots@),
    {
        let mut nodes: VecDeque<&'a N> = VecDeque::new();
        BreadthFirst::enqueue_children(&mut nodes, roots);
        assert(nodes@ =~= roots@);
        TreeIter { nodes, _order: PhantomData }
    }
}

impl<'a, N: TreeNode, T: TraversalOrder> TreeIter<'a, N, T> {
    /// The nodes that this traversal has still to yield, in order.
    pub open spec fn remaining(&self) -> Seq<N> {
        traversal(T::is_depth_first(), self.frontier())
    }

    /// Yields the next node: takes the first node of the frontier and puts
    /// its children into the frontier as the order requires. `None` when the
    /// frontier is empty, which then stays empty.
    pub fn next(&mut self) -> (r: Option<&'a N>)
        ensures
            old(self).frontier().len() == 0 ==> r is None && final(self).frontier().len() == 0,
            old(self).frontier().len() > 0 ==> {
                &&& r is Some
                &&& *r.unwrap() == old(self).frontier()[0]
                &&& final(self).frontier() == enqueue(
                    T::is_depth_first(),
                    old(self).frontier().drop_first(),
                    r.unwrap().spec_children(),
                )
                &&& old(self).remaining() == seq![*r.unwrap()] + final(self).remaining()
            },
    {
        match self.nodes.pop_front() {
            None => None,
            Some(node) => {
                let children = node.children();
                proof {
                    assert(derefs(self.nodes@) =~= derefs(old(self).nodes@).drop_first());
                }
                let ghost before = self.nodes@;
                T::enqueue_children(&mut self.nodes, children);
                proof {
                    assert(derefs(self.nodes@) =~= enqueue(T::is_depth_first(), derefs(before), derefs(children@)));
                }
                Some(node)
            },
        }
    }

    /// Yields every node left, in order.
    pub fn into_vec(self) -> (r: Vec<&'a N>)
        ensures
            derefs(r@) == self.remaining(),
    {
        let mut it = self;
        let mut r: Vec<&'a N> = Vec::new();
        loop
            invariant
                derefs(r@) + it.remaining() == self.remaining(),
            decreases it.remaining().len(),
        {
            match it.next() {
                None => {
                    assert(it.remaining() =~= Seq::<N>::empty());
                    assert(derefs(r@) + it.remaining() =~= derefs(r@));
                    return r;
                },
                Some(node) => {
                    r.push(node);
                    assert(derefs(r@) + it.remaining() =~= self.remaining());
                },
            }
        }
    }
}

} // verus!
