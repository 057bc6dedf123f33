use std::collections::VecDeque;
use vstd::prelude::*;

mod seal;

verus! {

/// Breadth-first order: all nodes of a depth before any node of the next
/// one. The children of a visited node go to the back of the frontier.
pub struct BreadthFirst;

/// Depth-first order (pre-order): a node, then the whole subtree of each of
/// its children from left to right. The children of a visited node go to the
/// front of the frontier, first child first.
pub struct DepthFirst;

/// Where the children of a visited node go in the frontier: after the pending
/// nodes (breadth-first) or before them, in their own order (depth-first).
pub open spec fn enqueue<X>(depth_first: bool, frontier: Seq<X>, children: Seq<X>) -> Seq<X> {
    if depth_first {
        children + frontier
    } else {
        frontier + children
    }
}

/// The discipline of a traversal's frontier. Only [`BreadthFirst`] and
/// [`DepthFirst`] implement it.
pub trait TraversalOrder: seal::Sealed {
    /// Whether this order is depth-first.
    spec fn is_depth_first() -> bool;

    /// Puts `children` into `frontier` as this order requires.
    fn enqueue_children<X>(frontier: &mut VecDeque<X>, children: Vec<X>)
        ensures
            final(frontier)@ == enqueue(Self::is_depth_first(), old(frontier)@, children@),
    ;
}

impl TraversalOrder for BreadthFirst {
    open spec fn is_depth_first() -> bool {
        false
    }

    fn enqueue_children<X>(frontier: &mut VecDeque<X>, children: Vec<X>) {
        let mut children = children;
        let ghost start = frontier@;
        let ghost all = children@;
        let mut reversed: Vec<X> = Vec::new();
        while children.len() > 0
            invariant
                children@ == all.take(children.len() as int),
                reversed.len() + children.len() == all.len(),
                forall|i: int| 0 <= i < reversed.len() ==> reversed@[i] == all[all.len() - 1 - i],
                frontier@ == start,
            decreases children.len(),
        {
            let c = children.pop().unwrap();
            reversed.push(c);
        }
        while reversed.len() > 0
            invariant
                reversed.len() <= all.len(),
                forall|i: int| 0 <= i < reversed.len() ==> reversed@[i] == all[all.len() - 1 - i],
                frontier@ == start + all.take(all.len() - reversed.len()),
            decreases reversed.len(),
        {
            let c = reversed.pop().unwrap();
            frontier.push_back(c);
            assert(frontier@ =~= start + all.take(all.len() - reversed.len()));
        }
        assert(all.take(all.len() as int) =~= all);
        assert(frontier@ == start + all);
        assert(enqueue(Self::is_depth_first(), start, all) == start + all);
        assert(start == old(frontier)@);
    }
}

impl TraversalOrder for DepthFirst {
    open spec fn is_depth_first() -> bool {
        true
    }

    fn enqueue_children<X>(frontier: &mut VecDeque<X>, children: Vec<X>) {
        let mut children = children;
        let ghost start = frontier@;
        let ghost all = children@;
        while children.len() > 0
            invariant
                children.len() <= all.len(),
                children@ == all.take(children.len() as int),
                frontier@ == all.skip(children.len() as int) + start,
            decreases children.len(),
        {
            let c = children.pop().unwrap();
            assert(children@ =~= all.take(children.len() as int));
            frontier.push_front(c);
            assert(frontier@ =~= all.skip(children.len() as int) + start);
        }
        assert(all.skip(0) =~= all);
    }
}

} // verus!
