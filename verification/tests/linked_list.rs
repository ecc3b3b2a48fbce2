use statekit::data_structures::linked_list::{LinkedList, Node, NodeIterator};

#[test]
fn pop() {
    let mut list = LinkedList::new();
    list.push(1);
    list.push(2);
    list.push(3);

    assert_eq!(Some(3), list.pop());
    list.push(5);
    assert_eq!(Some(5), list.pop());
    assert_eq!(Some(2), list.pop());
    assert_eq!(Some(1), list.pop());
    assert_eq!(None, list.pop());
    assert_eq!(None, list.pop());
    assert_eq!(None, list.pop());
}

#[test]
fn deref() {
    let node = Node::new(5);
    assert_eq!(5, *node);
}

#[test]
fn len() {
    let mut node = Node::new(5);
    assert_eq!(1, node.len());

    node.push(2);
    assert_eq!(2, node.len());

    node.push(3);
    assert_eq!(3, node.len());
}

#[test]
fn iter() {
    let mut node = Node::new(5);
    node.push(2);
    node.push(3);

    let mut iter = NodeIterator::new(&node);

    assert_eq!(Some(&5), iter.next());
    assert_eq!(Some(&2), iter.next());
    assert_eq!(Some(&3), iter.next());
}

#[test]
fn list_len_follows_push_and_pop() {
    let mut list = LinkedList::new();
    assert_eq!(list.len(), 0);
    list.push('a');
    list.push('b');
    assert_eq!(list.len(), 2);
    assert_eq!(list.pop(), Some('b'));
    assert_eq!(list.len(), 1);
    assert_eq!(list.pop(), Some('a'));
    assert_eq!(list.len(), 0);
}

#[test]
fn node_has_next_set_and_clear() {
    let mut node = Node::new(1);
    assert_eq!(node.has_next(), false);
    assert!(node.next_as_ref().is_none());

    node.push(2);
    node.push(3);
    assert_eq!(node.has_next(), true);
    let next = node.next_as_ref().unwrap();
    assert_eq!(**next, 2);
    assert_eq!(next.len(), 2);

    node.set(9);
    assert_eq!(*node, 9);
    assert_eq!(node.len(), 3);

    node.clear();
    assert_eq!(node.has_next(), false);
    assert_eq!(node.len(), 1);
    assert_eq!(*node, 9);
}

#[test]
fn iterator_ends_with_none() {
    let mut node = Node::new(5);
    node.push(2);

    let mut iter = NodeIterator::new(&node);
    assert_eq!(Some(&5), iter.next());
    assert_eq!(Some(&2), iter.next());
    assert_eq!(None, iter.next());
    assert_eq!(None, iter.next());
}
