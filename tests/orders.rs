use tree_iter::iter::{TreeIter, TreeNode};
use tree_iter::traversal_order::{BreadthFirst, DepthFirst};
use tree_iter::tree::Node;

type TestNode<T> = Node<T>;

#[test]
fn test_traversal_order_trait_bounds() {
    let node = TestNode {
        value: 1,
        children: vec![],
    };

    // Engines can be built with either order.
    let df_iter = TreeIter::<_, DepthFirst>::new(vec![&node]);
    let bf_iter = TreeIter::<_, BreadthFirst>::new(vec![&node]);
    assert_eq!(df_iter.into_vec().len(), 1);
    assert_eq!(bf_iter.into_vec()[0].value, 1);
    assert!(node.children.is_empty());
}

#[test]
fn test_sealed_trait() {
    // Only the crate's own orders implement the sealed trait; an outside
    // `impl TraversalOrder for CustomOrder {}` does not compile, which a test
    // at run time cannot show. The two orders that exist are usable:
    let node = TestNode {
        value: 7,
        children: vec![],
    };
    assert_eq!(node.iter::<DepthFirst>().into_vec()[0].value, 7);
    assert_eq!(node.iter::<BreadthFirst>().into_vec()[0].value, 7);
}
