use bst::tree::BinaryTree;

fn build(values: &[i64]) -> BinaryTree {
    let mut tree = BinaryTree::new();
    for &v in values {
        tree.insert(v);
    }
    tree
}

const SAMPLE: [i64; 11] = [10, 5, 15, 2, 7, 12, 20, 4, 6, 9, 1];

#[test]
fn empty_tree_reports_empty() {
    let tree = BinaryTree::new();
    assert_eq!(tree.min_value(), None);
    assert_eq!(tree.max_value(), None);
    assert!(tree.in_order().is_empty());
    assert!(tree.pre_order().is_empty());
    assert!(tree.post_order().is_empty());
    assert!(tree.structure().is_empty());
    assert_eq!(tree.nodes, 0);
    assert_eq!(tree.leaves, 0);
}

#[test]
fn census_on_empty_tree_keeps_counters() {
    let mut tree = BinaryTree::new();
    tree.count_nodes_and_leaves();
    assert_eq!(tree.nodes, 0);
    assert_eq!(tree.leaves, 0);
}

#[test]
fn single_value_scenario() {
    let mut tree = build(&[42]);
    tree.count_nodes_and_leaves();
    assert_eq!(tree.nodes, 1);
    assert_eq!(tree.leaves, 1);
    assert_eq!(tree.in_order(), vec![42]);
    assert_eq!(tree.pre_order(), vec![42]);
    assert_eq!(tree.post_order(), vec![42]);
    assert_eq!(tree.min_value(), Some(&42));
    assert_eq!(tree.max_value(), Some(&42));
}

#[test]
fn repeated_value_kept_once() {
    let mut tree = build(&[5, 5, 5]);
    tree.count_nodes_and_leaves();
    assert_eq!(tree.nodes, 1);
    assert_eq!(tree.leaves, 1);
    assert_eq!(tree.in_order(), vec![5]);
}

#[test]
fn sample_scenario_in_order() {
    let tree = build(&SAMPLE);
    assert_eq!(tree.in_order(), vec![1, 2, 4, 5, 6, 7, 9, 10, 12, 15, 20]);
}

#[test]
fn sample_scenario_pre_and_post_order() {
    let tree = build(&SAMPLE);
    assert_eq!(tree.pre_order(), vec![10, 5, 2, 1, 4, 7, 6, 9, 15, 12, 20]);
    let post = tree.post_order();
    assert_eq!(post, vec![1, 4, 2, 6, 9, 7, 5, 12, 20, 15, 10]);
    assert_eq!(*post.last().unwrap(), 10);
}

#[test]
fn sample_scenario_census_and_extremes() {
    let mut tree = build(&SAMPLE);
    tree.count_nodes_and_leaves();
    assert_eq!(tree.nodes, 11);
    assert_eq!(tree.leaves, 6);
    assert_eq!(tree.min_value(), Some(&1));
    assert_eq!(tree.max_value(), Some(&20));
}

#[test]
fn sample_scenario_structure() {
    let tree = build(&SAMPLE);
    let expected: Vec<(i64, usize)> = vec![
        (10, 0),
        (5, 1),
        (2, 2),
        (1, 3),
        (4, 3),
        (7, 2),
        (6, 3),
        (9, 3),
        (15, 1),
        (12, 2),
        (20, 2),
    ];
    assert_eq!(tree.structure(), expected);
}

#[test]
fn duplicate_insert_is_idempotent() {
    let mut tree = build(&SAMPLE);
    tree.count_nodes_and_leaves();
    let nodes_before = tree.nodes;
    let leaves_before = tree.leaves;
    let in_order_before = tree.in_order();
    tree.insert(7);
    tree.insert(20);
    tree.count_nodes_and_leaves();
    assert_eq!(tree.nodes, nodes_before);
    assert_eq!(tree.leaves, leaves_before);
    assert_eq!(tree.in_order(), in_order_before);
}

#[test]
fn in_order_is_strictly_ascending() {
    let tree = build(&[3, 1, 2, 3, 2, 10, -5, 0, -5, 7]);
    let seq = tree.in_order();
    assert_eq!(seq, vec![-5, 0, 1, 2, 3, 7, 10]);
    for pair in seq.windows(2) {
        assert!(pair[0] < pair[1]);
    }
}

#[test]
fn census_splits_nodes_into_leaves_and_internal() {
    let mut tree = build(&SAMPLE);
    tree.count_nodes_and_leaves();
    // Internal nodes of the sample shape: 10, 5, 15, 2 and 7.
    assert_eq!(tree.nodes - tree.leaves, 5);
    assert!(tree.nodes >= tree.leaves);
    assert!(tree.leaves >= 0);
}

#[test]
fn counters_stay_stale_until_recomputed() {
    let mut tree = build(&[2]);
    tree.count_nodes_and_leaves();
    assert_eq!(tree.nodes, 1);
    assert_eq!(tree.leaves, 1);
    tree.insert(1);
    tree.insert(3);
    assert_eq!(tree.nodes, 1);
    assert_eq!(tree.leaves, 1);
    tree.count_nodes_and_leaves();
    assert_eq!(tree.nodes, 3);
    assert_eq!(tree.leaves, 2);
}

#[test]
fn degenerate_chain_extremes_and_counts() {
    let mut tree = build(&[5, 4, 3, 2, 1]);
    tree.count_nodes_and_leaves();
    assert_eq!(tree.nodes, 5);
    assert_eq!(tree.leaves, 1);
    assert_eq!(tree.min_value(), Some(&1));
    assert_eq!(tree.max_value(), Some(&5));
    assert_eq!(tree.in_order(), vec![1, 2, 3, 4, 5]);
    let expected: Vec<(i64, usize)> =
        vec![(5, 0), (4, 1), (3, 2), (2, 3), (1, 4)];
    assert_eq!(tree.structure(), expected);
}
