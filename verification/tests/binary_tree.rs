use statekit::data_structures::binary_tree::BinaryTree;

#[test]
fn new() {
    let tree = BinaryTree::new(0);
    assert_eq!(tree.size(), 1);
    let asvec: Vec<usize> = tree.into();
    assert_eq!(asvec.len(), 1);
    assert_eq!(asvec[0], 0);
}

#[test]
fn feature() {
    let mut tree = BinaryTree::new(0);

    tree.insert(9);
    tree.insert(2);
    tree.insert(-1);
    tree.insert(-100);
    tree.insert(0);
    tree.insert(0);

    let asvec: Vec<i32> = tree.into();

    assert_eq!(asvec.len(), 7);

    assert_eq!(asvec[0], -100);
    assert_eq!(asvec[1], -1);
    assert_eq!(asvec[2], 0);
    assert_eq!(asvec[3], 0);
    assert_eq!(asvec[4], 0);
    assert_eq!(asvec[5], 2);
    assert_eq!(asvec[6], 9);
}

use statekit::data_structures::binary_tree::Node;

fn items(tree: BinaryTree<i32>) -> Vec<i32> {
    tree.into()
}

#[test]
fn insert_keeps_the_items_sorted() {
    let mut tree = BinaryTree::new(5);
    for value in [3, 8, 1, 4, 7, 9, 5, 5, 0] {
        tree.insert(value);
    }
    assert_eq!(tree.size(), 10);
    assert_eq!(items(tree), vec![0, 1, 3, 4, 5, 5, 5, 7, 8, 9]);
}

#[test]
fn insert_in_ascending_and_descending_order() {
    let mut up = BinaryTree::new(0);
    let mut down = BinaryTree::new(9);
    for value in 1..10 {
        up.insert(value);
        down.insert(9 - value);
    }
    assert_eq!(items(up), (0..10).collect::<Vec<i32>>());
    assert_eq!(items(down), (0..10).collect::<Vec<i32>>());
}

#[test]
fn equal_items_keep_the_order_in_which_they_came() {
    let mut tree = BinaryTree::new((1, 'a'));
    tree.insert((0, 'b'));
    tree.insert((0, 'a'));
    tree.insert((1, 'b'));
    let pairs: Vec<(i32, char)> = tree.into();
    assert_eq!(pairs, vec![(0, 'a'), (0, 'b'), (1, 'a'), (1, 'b')]);
}

#[test]
fn node_counts_and_populates_left_to_right() {
    let mut node = Node::new(5);
    node.insert_left(3);
    node.insert_right(8);
    node.insert_left(4);
    node.insert_left(1);
    node.insert_right(6);

    let mut count = 10;
    node.count(&mut count);
    assert_eq!(count, 16);

    let mut values = vec![-1];
    node.populate(&mut values);
    assert_eq!(values, vec![-1, 1, 3, 4, 5, 6, 8]);
}

#[test]
fn nodes_compare_by_item_then_left_then_right() {
    assert!(Node::new(1) < Node::new(2));
    assert!(Node::new(2) > Node::new(1));
    assert!(Node::new(2) == Node::new(2));

    let bare = Node::new(5);
    let mut with_left = Node::new(5);
    with_left.insert_left(1);
    let mut with_right = Node::new(5);
    with_right.insert_right(7);
    let mut with_greater_left = Node::new(5);
    with_greater_left.insert_left(2);

    assert!(bare < with_left);
    assert!(bare < with_right);
    assert!(with_right < with_left);
    assert!(with_left < with_greater_left);
    assert!(bare == with_left);
    assert_eq!(bare.partial_cmp(&Node::new(5)), Some(std::cmp::Ordering::Equal));
}

#[test]
fn nodes_of_incomparable_items_do_not_compare() {
    let one = Node::new(f64::NAN);
    let other = Node::new(1.0);
    assert_eq!(one.partial_cmp(&other), None);
}
