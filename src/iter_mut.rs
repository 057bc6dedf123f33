use std::collections::VecDeque;
use std::marker::PhantomData;
use vstd::prelude::*;

use crate::iter::TreeNode;
use crate::traversal_order::{enqueue, BreadthFirst, TraversalOrder};

verus! {

/// The values behind a sequence of mutable references, as they stand now.
pub open spec fn currents<N>(s: Seq<&mut N>) -> Seq<N> {
    s.map_values(|r: &mut N| *r)
}

/// A tree whose children can be handed out for mutation.
pub trait TreeNodeMut: TreeNode {
    /// Whether `self` and `other` hold the same apart from their children.
    spec fn same_apart_from_children(&self, other: Self) -> bool;

    /// Exclusive references to the children of this node, in order. What is
    /// done through them is what the children of this node become.
    fn children_mut(&mut self) -> (r: Vec<&mut Self>)
        ensures
            currents(r@) == old(self).spec_children(),
            final(self).spec_children() == r@.map_values(|c: &mut Self| *final(c)),
            old(self).same_apart_from_children(*final(self)),
    ;

    /// A mutating traversal of the tree rooted at this node.
    fn iter_mut<T: TraversalOrder>(&mut self) -> (r: TreeIterMut<'_, Self, T>)
        ensures
            r.pending().len() == 1,
            *r.pending()[0] == *old(self),
            *final(self) == *final(r.pending()[0]),
            r.visiting() is None,
    {
        let mut roots: Vec<&mut Self> = Vec::new();
        roots.push(self);
        TreeIterMut::new(roots)
    }
}

/// The references that a release added to a frontier that stood at `before`
/// and now stands at `after`.
pub open spec fn added<X>(depth_first: bool, before: Seq<X>, after: Seq<X>) -> Seq<X> {
    if depth_first {
        after.take(after.len() - before.len())
    } else {
        after.skip(before.len() as int)
    }
}

/// A mutating traversal: hands out exclusive access to the nodes of one or
/// more trees, one node at a time, in the order `T`.
///
/// The children of a node are read when its visit ends, that is at
/// [`TreeIterMut::release`] or at the next call of [`TreeIterMut::next`], so
/// that changes made to them during the visit are honoured.
pub struct TreeIterMut<'a, N, T> {
    /// The nodes discovered and not yet visited.
    nodes: VecDeque<&'a mut N>,
    /// The node under visit, whose children are not yet in the frontier.
    current: Option<&'a mut N>,
    _order: PhantomData<T>,
}

impl<'a, N, T: TraversalOrder> TreeIterMut<'a, N, T> {
    /// References to the nodes discovered and not yet visited, in frontier
    /// order.
    pub closed spec fn pending(&self) -> Seq<&'a mut N> {
        self.nodes@
    }

    /// The reference to the node under visit, if any.
    pub closed spec fn visiting(&self) -> Option<&'a mut N> {
        self.current
    }

    /// The nodes discovered and not yet visited, as they stand now.
    pub open spec fn frontier(&self) -> Seq<N> {
        currents(self.pending())
    }

    /// A traversal of the trees rooted at `roots`, in the given order.
    pub fn new(roots: Vec<&'a mut N>) -> (r: Self)
        ensures
            r.pending() == roots@,
            r.visiting() is None,
    {
        let mut nodes: VecDeque<&'a mut N> = VecDeque::new();
        BreadthFirst::enqueue_children(&mut nodes, roots);
        assert(nodes@ =~= roots@);
        TreeIterMut { nodes, current: None, _order: PhantomData }
    }
}

impl<'a, N: TreeNodeMut, T: TraversalOrder> TreeIterMut<'a, N, T> {
    /// The frontier once the visit under way has ended: the children of the
    /// node under visit, as that node stands now, are then in it.
    pub open spec fn released_frontier(&self) -> Seq<N> {
        match self.visiting() {
            None => self.frontier(),
            Some(c) => enqueue(T::is_depth_first(), self.frontier(), (*c).spec_children()),
        }
    }

    /// Ends the visit under way, if any: the children of the node under
    /// visit, as they stand now, go into the frontier as the order requires.
    /// What is later done through their references is what the children of
    /// that node become.
    pub fn release(&mut self)
        ensures
            final(self).visiting() is None,
            final(self).frontier() == old(self).released_frontier(),
            old(self).visiting() is None ==> final(self).pending() == old(self).pending(),
            old(self).visiting() is Some ==> {
                let c = old(self).visiting().unwrap();
                let k = added(T::is_depth_first(), old(self).pending(), final(self).pending());
                &&& final(self).pending() == enqueue(T::is_depth_first(), old(self).pending(), k)
                &&& currents(k) == (*c).spec_children()
                &&& (*final(c)).spec_children() == k.map_values(|x: &mut N| *final(x))
                &&& (*c).same_apart_from_children(*final(c))
            },
    {
        match self.current.take() {
            None => {},
            Some(node) => {
                let children = node.children_mut();
                T::enqueue_children(&mut self.nodes, children);
            },
        }
    }

    /// Starts the visit of the next node and hands it out: first ends the
    /// visit under way, as [`TreeIterMut::release`] does, then takes the first
    /// node of the frontier. `None` when no node is left, which stays so.
    pub fn next(&mut self) -> (r: Option<&mut N>)
        ensures
            old(self).released_frontier().len() == 0 ==> {
                &&& r is None
                &&& final(self).visiting() is None
                &&& final(self).frontier().len() == 0
            },
            old(self).released_frontier().len() > 0 ==> {
                &&& r is Some
                &&& *r.unwrap() == old(self).released_frontier()[0]
                &&& final(self).frontier() == old(self).released_frontier().drop_first()
                &&& final(self).visiting() is Some
                &&& *final(self).visiting().unwrap() == *final(r.unwrap())
            },
            ({
                // The frontier right after the release, and what became of it:
                // the reference handed out stands first, with its current
                // value changed by the caller.
                let df = T::is_depth_first();
                let after = match final(self).visiting() {
                    Some(v) => seq![v] + final(self).pending(),
                    None => final(self).pending(),
                };
                let k = added(df, old(self).pending(), after);
                let released = match old(self).visiting() {
                    Some(c) => enqueue(df, old(self).pending(), k),
                    None => old(self).pending(),
                };
                &&& after.len() == released.len()
                &&& after.len() > 0 ==> {
                    &&& after.drop_first() == released.drop_first()
                    &&& *final(after[0]) == *final(released[0])
                }
                &&& old(self).visiting() is Some ==> {
                    let c = old(self).visiting().unwrap();
                    &&& (*final(c)).spec_children() == k.map_values(|x: &mut N| *final(x))
                    &&& (*c).same_apart_from_children(*final(c))
                }
            }),
    {
        self.release();
        match self.nodes.pop_front() {
            None => None,
            Some(node) => {
                self.current = Some(node);
                match &mut self.current {
                    Some(c) => Some(&mut **c),
                    None => None,
                }
            },
        }
    }
}

} // verus!
