use ds210::tree::BinaryTree;
use ds210::node::Node;
use ds210::tree_ops::calculate_diameter;

#[test]
fn test_small_tree_diameter() {
    let mut tree = BinaryTree::new(5);

    tree.nodes[0].children = vec![1, 2];
    tree.nodes[1].children = vec![3, 4];

    assert_eq!(tree.compute_diameter(), 3);
}

#[test]
fn test_tree_creation() {
    let tree = BinaryTree::new(120);
    assert_eq!(tree.nodes.len(), 120);
    assert_eq!(tree.root, 0);
}

#[test]
fn test_empty_tree() {
    let tree = BinaryTree::new(0);
    assert_eq!(tree.find_diameter(), 0);
    assert_eq!(tree.get_root_value(), None);
}

#[test]
fn test_single_node_tree() {
    let mut tree = BinaryTree::new(0);
    tree.build_random_tree(1);
    assert_eq!(tree.find_diameter(), 0);
    assert_eq!(tree.get_root_value(), Some(0));
}

#[test]
fn test_two_node_tree() {
    let mut tree = BinaryTree::new(0);
    tree.build_random_tree(2);
    let diameter = tree.find_diameter();
    assert_eq!(diameter, 1);
    assert_eq!(tree.get_root_value(), Some(0));
}

#[test]
fn test_three_node_tree() {
    let mut tree = BinaryTree::new(0);
    tree.build_random_tree(3);
    let diameter = tree.find_diameter();
    assert!(diameter >= 1 && diameter <= 2);
    assert_eq!(tree.get_root_value(), Some(0));
}

#[test]
fn test_large_tree() {
    let mut tree = BinaryTree::new(0);
    tree.build_random_tree(120);
    let diameter = tree.find_diameter();
    assert!(diameter > 0);
    assert!(diameter <= 119);
    assert_eq!(tree.get_root_value(), Some(0));
}

#[test]
fn test_tree_construction() {
    let mut tree = BinaryTree::new(0);
    tree.build_random_tree(5);
    assert_eq!(tree.get_root_value(), Some(0));
    let diameter = tree.find_diameter();
    assert!(diameter >= 0 && diameter <= 4);
}

#[test]
fn find_parent_reports_the_first_lister() {
    let mut tree = BinaryTree::new(5);
    tree.nodes[0].children = vec![1, 2];
    tree.nodes[1].children = vec![3, 4];
    tree.nodes[2].children = vec![];
    tree.nodes[3].children = vec![];
    tree.nodes[4].children = vec![];
    assert_eq!(tree.find_parent(3), Some(1));
    assert_eq!(tree.find_parent(1), Some(0));
    assert_eq!(tree.find_parent(0), None);
}

#[test]
fn linked_node_diameter_is_exact() {
    // A root with a chain of two on the left and one leaf on the right:
    // the longest path has four nodes, so three edges.
    let mut root = Node::new(10);
    assert!(root.add_child(20));
    assert!(root.add_child(30));
    assert_eq!(root.get_value(), 10);
    let left = root.get_left().as_ref().map(|n| n.get_value());
    assert_eq!(left, Some(20));
    assert_eq!(calculate_diameter(&Some(Box::new(root))), 2);

    let lonely: Option<Box<Node>> = None;
    assert_eq!(calculate_diameter(&lonely), 0);
}

#[test]
fn node_rejects_a_third_child() {
    let mut node = Node::new(1);
    assert!(node.add_child(2));
    assert!(node.add_child(3));
    assert!(!node.add_child(4));
    assert!(node.get_left().is_some());
    assert!(node.get_right().is_some());
}
