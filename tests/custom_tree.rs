use tree_iter::iter::{TreeIter, TreeNode};
use tree_iter::traversal_order::{BreadthFirst, DepthFirst};
use tree_iter::tree::Node;

// The trait's contract is stated in Verus and implemented in the crate, so the
// trees here are built from the crate's own node type.
type TestTree<T> = Node<T>;

fn with_children<T>(value: T, children: Vec<Node<T>>) -> Node<T> {
    Node { value, children }
}

fn sample() -> TestTree<i32> {
    //      1
    //     / \
    //    2   3
    //   / \
    //  4   5
    with_children(
        1,
        vec![
            with_children(2, vec![TestTree::new(4), TestTree::new(5)]),
            TestTree::new(3),
        ],
    )
}

#[test]
fn test_custom_tree_depth_first() {
    let tree = sample();
    let values: Vec<i32> = tree
        .iter::<DepthFirst>()
        .into_vec()
        .iter()
        .map(|node| node.value)
        .collect();
    assert_eq!(values, vec![1, 2, 4, 5, 3]);
}

#[test]
fn test_custom_tree_breadth_first() {
    let tree = sample();
    let values: Vec<i32> = tree
        .iter::<BreadthFirst>()
        .into_vec()
        .iter()
        .map(|node| node.value)
        .collect();
    assert_eq!(values, vec![1, 2, 3, 4, 5]);
}

#[test]
fn test_empty_custom_tree() {
    let tree = TestTree::<i32>::new(42);

    let df_values: Vec<i32> = tree
        .iter::<DepthFirst>()
        .into_vec()
        .iter()
        .map(|node| node.value)
        .collect();
    assert_eq!(df_values, vec![42]);

    let bf_values: Vec<i32> = tree
        .iter::<BreadthFirst>()
        .into_vec()
        .iter()
        .map(|node| node.value)
        .collect();
    assert_eq!(bf_values, vec![42]);
}

#[test]
fn test_forest_traversal() {
    let tree1 = with_children(1, vec![TestTree::new(2)]);
    let tree2 = with_children(3, vec![TestTree::new(4)]);

    let forest_iter = TreeIter::<_, DepthFirst>::new(vec![&tree1, &tree2]);
    let values: Vec<i32> = forest_iter
        .into_vec()
        .iter()
        .map(|node| node.value)
        .collect();

    // The first tree is complete before the second starts.
    assert_eq!(values, vec![1, 2, 3, 4]);
}

#[test]
fn forest_breadth_first_yields_roots_first() {
    let tree1 = with_children(1, vec![TestTree::new(2)]);
    let tree2 = with_children(3, vec![TestTree::new(4)]);

    let forest_iter = TreeIter::<_, BreadthFirst>::new(vec![&tree1, &tree2]);
    let values: Vec<i32> = forest_iter
        .into_vec()
        .iter()
        .map(|node| node.value)
        .collect();
    assert_eq!(values, vec![1, 3, 2, 4]);
}

#[test]
fn empty_forest_is_exhausted_at_once() {
    let mut iter = TreeIter::<TestTree<i32>, DepthFirst>::new(Vec::new());
    assert!(iter.next().is_none());
    assert!(iter.next().is_none());
}
