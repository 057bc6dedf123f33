use vstd::prelude::*;

use crate::iter::{forest_size, TreeNode};
use crate::traversal_order::enqueue;

verus! {

/// The nodes that a traversal yields from `frontier` on, in order: the first
/// node, then what the rest of the frontier yields once that node's children
/// were put into it.
pub open spec fn traversal<N: TreeNode>(depth_first: bool, frontier: Seq<N>) -> Seq<N>
    decreases forest_size(frontier),
{
    if frontier.len() == 0 {
        seq![]
    } else {
        let node = frontier[0];
        let rest = frontier.drop_first();
        proof {
            lemma_forest_size_enqueue(depth_first, rest, node.spec_children());
            node.lemma_subtree_size();
            assert(frontier =~= seq![node] + rest);
            lemma_forest_size_concat(seq![node], rest);
            assert(seq![node].drop_last() =~= Seq::<N>::empty());
        }
        seq![node] + traversal(depth_first, enqueue(depth_first, rest, node.spec_children()))
    }
}

/// The size of a concatenated forest is the sum of the sizes of its parts.
pub proof fn lemma_forest_size_concat<N: TreeNode>(a: Seq<N>, b: Seq<N>)
    ensures
        forest_size(a + b) == forest_size(a) + forest_size(b),
    decreases b.len(),
{
    if b.len() > 0 {
        assert((a + b).drop_last() =~= a + b.drop_last());
        lemma_forest_size_concat(a, b.drop_last());
    } else {
        assert(a + b =~= a);
    }
}

/// Putting children into a frontier adds their sizes, in either order.
pub proof fn lemma_forest_size_enqueue<N: TreeNode>(
    depth_first: bool,
    frontier: Seq<N>,
    children: Seq<N>,
)
    ensures
        forest_size(enqueue(depth_first, frontier, children)) == forest_size(frontier)
            + forest_size(children),
{
    lemma_forest_size_concat(frontier, children);
    lemma_forest_size_concat(children, frontier);
}

/// Unfolds one step of a traversal of a non-empty frontier, with the
/// measure that bounds it.
proof fn lemma_step<N: TreeNode>(depth_first: bool, frontier: Seq<N>)
    requires
        frontier.len() > 0,
    ensures
        ({
            let node = frontier[0];
            let next = enqueue(depth_first, frontier.drop_first(), node.spec_children());
            &&& traversal(depth_first, frontier) == seq![node] + traversal(depth_first, next)
            &&& forest_size(next) < forest_size(frontier)
        }),
{
    let node = frontier[0];
    let rest = frontier.drop_first();
    lemma_forest_size_enqueue(depth_first, rest, node.spec_children());
    node.lemma_subtree_size();
    assert(frontier =~= seq![node] + rest);
    lemma_forest_size_concat(seq![node], rest);
    assert(seq![node].drop_last() =~= Seq::<N>::empty());
}

/// A root without children yields itself alone, in either order.
pub proof fn lemma_single_node<N: TreeNode>(depth_first: bool, root: N)
    requires
        root.spec_children().len() == 0,
    ensures
        traversal(depth_first, seq![root]) == seq![root],
{
    lemma_step(depth_first, seq![root]);
    let next = enqueue(depth_first, seq![root].drop_first(), root.spec_children());
    assert(next =~= Seq::<N>::empty());
    assert(seq![root] + Seq::<N>::empty() =~= seq![root]);
}

/// Depth-first, a forest yields the whole of its first part before anything
/// of the rest: each root's subtree is complete before the next root starts.
pub proof fn lemma_depth_first_forest<N: TreeNode>(first: Seq<N>, rest: Seq<N>)
    ensures
        traversal(true, first + rest) == traversal(true, first) + traversal(true, rest),
    decreases forest_size(first),
{
    if first.len() == 0 {
        assert(first + rest =~= rest);
        assert(traversal(true, first) =~= Seq::<N>::empty());
        assert(Seq::<N>::empty() + traversal(true, rest) =~= traversal(true, rest));
    } else {
        let node = first[0];
        let kids = node.spec_children();
        lemma_step(true, first);
        lemma_step(true, first + rest);
        assert((first + rest)[0] == node);
        assert(kids + (first + rest).drop_first() =~= (kids + first.drop_first()) + rest);
        lemma_depth_first_forest(kids + first.drop_first(), rest);
        assert(seq![node] + (traversal(true, kids + first.drop_first()) + traversal(true, rest))
            =~= (seq![node] + traversal(true, kids + first.drop_first())) + traversal(true, rest));
    }
}

/// Breadth-first, a traversal starts with the whole frontier it was given,
/// in order: all roots come before any of their children.
pub proof fn lemma_breadth_first_roots_first<N: TreeNode>(roots: Seq<N>)
    ensures
        traversal(false, roots).len() >= roots.len(),
        traversal(false, roots).take(roots.len() as int) == roots,
    decreases forest_size(roots),
{
    if roots.len() > 0 {
        let node = roots[0];
        let next = roots.drop_first() + node.spec_children();
        lemma_step(false, roots);
        lemma_breadth_first_roots_first(next);
        let all = traversal(false, roots);
        let after = traversal(false, next);
        assert forall|i: int| 0 < i < roots.len() implies all[i] == roots[i] by {
            assert(all[i] == after[i - 1]);
            assert(after.take(next.len() as int)[i - 1] == next[i - 1]);
        }
        assert(all.take(roots.len() as int) =~= roots);
    } else {
        assert(traversal(false, roots).take(0) =~= roots);
    }
}

} // verus!
