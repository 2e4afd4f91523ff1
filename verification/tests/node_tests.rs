use bst::tree::Node;

fn sample_node() -> Node {
    let mut node = Node::new(10);
    node.insert(5);
    node.insert(15);
    node.insert(2);
    node.insert(7);
    node
}

#[test]
fn fresh_node_is_a_leaf() {
    let node = Node::new(42);
    assert_eq!(node.value, 42);
    assert!(node.left.is_none());
    assert!(node.right.is_none());
    let mut nodes: i32 = 0;
    let mut leaves: i32 = 0;
    node.count_nodes_and_leaves(&mut nodes, &mut leaves);
    assert_eq!(nodes, 1);
    assert_eq!(leaves, 1);
}

#[test]
fn node_insert_places_by_order() {
    let node = sample_node();
    assert_eq!(node.value, 10);
    let left = node.left.as_ref().unwrap();
    let right = node.right.as_ref().unwrap();
    assert_eq!(left.value, 5);
    assert_eq!(right.value, 15);
    assert_eq!(left.left.as_ref().unwrap().value, 2);
    assert_eq!(left.right.as_ref().unwrap().value, 7);
}

#[test]
fn node_extremes() {
    let node = sample_node();
    assert_eq!(*node.min_value(), 2);
    assert_eq!(*node.max_value(), 15);
}

#[test]
fn node_census_accumulates_into_counters() {
    let node = sample_node();
    let mut nodes: i32 = 0;
    let mut leaves: i32 = 0;
    node.count_nodes_and_leaves(&mut nodes, &mut leaves);
    assert_eq!(nodes, 5);
    assert_eq!(leaves, 3);
    // The counters are added to, not replaced.
    node.count_nodes_and_leaves(&mut nodes, &mut leaves);
    assert_eq!(nodes, 10);
    assert_eq!(leaves, 6);
}

#[test]
fn node_traversal_helpers_append() {
    let node = sample_node();
    let mut out: Vec<i64> = vec![99];
    node.push_in_order(&mut out);
    assert_eq!(out, vec![99, 2, 5, 7, 10, 15]);
    let mut pre: Vec<i64> = Vec::new();
    node.push_pre_order(&mut pre);
    assert_eq!(pre, vec![10, 5, 2, 7, 15]);
    let mut post: Vec<i64> = Vec::new();
    node.push_post_order(&mut post);
    assert_eq!(post, vec![2, 7, 5, 15, 10]);
    let mut shape: Vec<(i64, usize)> = Vec::new();
    node.push_structure(1, &mut shape);
    assert_eq!(shape, vec![(10, 1), (5, 2), (2, 3), (7, 3), (15, 2)]);
}
