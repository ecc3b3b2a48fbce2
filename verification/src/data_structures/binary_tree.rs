//! A binary tree that keeps its items in order.

use core::cmp::Ordering;
use vstd::prelude::*;
use vstd::std_specs::cmp::PartialEqSpec;
use vstd::std_specs::cmp::PartialEqSpecImpl;
use vstd::std_specs::cmp::PartialOrdIs;
use vstd::std_specs::cmp::PartialOrdSpec;
use vstd::std_specs::cmp::PartialOrdSpecImpl;
use vstd::std_specs::convert::FromSpecImpl;

verus! {

/// Whether `a` is less than `b` in the order of `T`.
pub open spec fn less<T: PartialOrd>(a: T, b: T) -> bool {
    a.is_lt(&b)
}

/// Whether the comparison of `T` does what its specification says, and that
/// specification is a strict weak order: no two items are each less than
/// the other, and where `a` is not less than `b` nor `b` less than `c`, `a`
/// is not less than `c`.
pub open spec fn is_weak_order<T: PartialOrd>() -> bool {
    &&& T::obeys_partial_cmp_spec()
    &&& forall|a: T, b: T| !(#[trigger] less(a, b) && less(b, a))
    &&& forall|a: T, b: T, c: T|
        !#[trigger] less(a, b) && !#[trigger] less(b, c) ==> !less(a, c)
}

/// Whether no item of `items` is less than an item before it.
pub open spec fn is_sorted<T: PartialOrd>(items: Seq<T>) -> bool {
    forall|i: int, j: int| 0 <= i < j < items.len() ==> !less(#[trigger] items[j], #[trigger] items[i])
}

/// The place of `value` in `items`: the index of the first item that
/// `value` is less than, or the length of `items` where there is none. In
/// sorted `items` it is the place behind every item that is not greater
/// than `value`.
pub open spec fn place_of<T: PartialOrd>(items: Seq<T>, value: T) -> int
    decreases items.len(),
{
    if items.len() == 0 || less(value, items.first()) {
        0
    } else {
        1 + place_of(items.drop_first(), value)
    }
}

/// Whether `after` is `before` with `value` put in at some place; and, where
/// the order of `T` is a weak order and `before` is sorted, at the place of
/// `value`, so that `after` is sorted too.
pub open spec fn is_insertion<T: PartialOrd>(before: Seq<T>, value: T, after: Seq<T>) -> bool {
    &&& exists|i: int| 0 <= i <= before.len() && after == #[trigger] before.insert(i, value)
    &&& is_weak_order::<T>() && is_sorted(before) ==> {
        &&& after == before.insert(place_of(before, value), value)
        &&& is_sorted(after)
    }
}

/// The place of `value` is within `items`; `value` is less than no item
/// before its place, and less than the item at its place.
pub proof fn lemma_place_of<T: PartialOrd>(items: Seq<T>, value: T)
    ensures
        0 <= place_of(items, value) <= items.len(),
        forall|k: int| 0 <= k < place_of(items, value) ==> !less(value, #[trigger] items[k]),
        place_of(items, value) < items.len() ==> less(value, items[place_of(items, value)]),
    decreases items.len(),
{
    if items.len() != 0 && !less(value, items.first()) {
        let rest = items.drop_first();
        lemma_place_of(rest, value);
        assert forall|k: int| 0 <= k < place_of(items, value) implies !less(
            value,
            #[trigger] items[k],
        ) by {
            if k > 0 {
                assert(items[k] == rest[k - 1]);
            }
        }
    }
}

/// The place of `value` in two sequences joined: its place in the first
/// where `value` is less than one of its items, else its place in the second
/// behind the whole first.
pub proof fn lemma_place_of_joined<T: PartialOrd>(front: Seq<T>, back: Seq<T>, value: T)
    ensures
        place_of(front + back, value) == if place_of(front, value) < front.len() {
            place_of(front, value)
        } else {
            front.len() + place_of(back, value)
        },
    decreases front.len(),
{
    lemma_place_of(front, value);
    if front.len() == 0 {
        assert(front + back == back);
    } else {
        assert((front + back).first() == front.first());
        assert((front + back).drop_first() == front.drop_first() + back);
        if !less(value, front.first()) {
            lemma_place_of_joined(front.drop_first(), back, value);
        }
    }
}

/// Putting `value` at its place into sorted items leaves them sorted.
pub proof fn lemma_insert_keeps_sorted<T: PartialOrd>(items: Seq<T>, value: T)
    requires
        is_weak_order::<T>(),
        is_sorted(items),
    ensures
        is_sorted(items.insert(place_of(items, value), value)),
{
    let place = place_of(items, value);
    let after = items.insert(place, value);
    lemma_place_of(items, value);
    assert forall|i: int, j: int| 0 <= i < j < after.len() implies !less(
        #[trigger] after[j],
        #[trigger] after[i],
    ) by {
        if j == place {
            assert(after[i] == items[i]);
        } else if i == place {
            assert(after[j] == items[j - 1]);
            assert(less(value, items[place]));
            assert(!less(items[place], value));
            if j - 1 > place {
                assert(!less(items[j - 1], items[place]));
            }
            assert(!less(items[j - 1], value));
        } else {
            let before_i = if i < place { i } else { i - 1 };
            let before_j = if j < place { j } else { j - 1 };
            assert(after[i] == items[before_i]);
            assert(after[j] == items[before_j]);
        }
    }
}

/// A part of sorted items is sorted.
pub proof fn lemma_sorted_part<T: PartialOrd>(items: Seq<T>, from: int, to: int)
    requires
        is_sorted(items),
        0 <= from <= to <= items.len(),
    ensures
        is_sorted(items.subrange(from, to)),
{
    let part = items.subrange(from, to);
    assert forall|i: int, j: int| 0 <= i < j < part.len() implies !less(
        #[trigger] part[j],
        #[trigger] part[i],
    ) by {
        assert(part[i] == items[from + i]);
        assert(part[j] == items[from + j]);
    }
}

/// An insertion into the items left of `item` is an insertion into the
/// whole, where `value` is less than `item`.
proof fn lemma_insertion_on_the_left<T: PartialOrd>(
    left: Seq<T>,
    item: T,
    right: Seq<T>,
    value: T,
    left_after: Seq<T>,
)
    requires
        is_insertion(left, value, left_after),
        is_weak_order::<T>() ==> less(value, item),
    ensures
        is_insertion(left + seq![item] + right, value, left_after + seq![item] + right),
{
    let before = left + seq![item] + right;
    let after = left_after + seq![item] + right;
    let i = choose|i: int| 0 <= i <= left.len() && left_after == #[trigger] left.insert(i, value);
    assert(after == before.insert(i, value));
    if is_weak_order::<T>() && is_sorted(before) {
        assert(left == before.subrange(0, left.len() as int));
        lemma_sorted_part(before, 0, left.len() as int);
        lemma_place_of_joined(left, seq![item] + right, value);
        assert(before == left + (seq![item] + right));
        assert((seq![item] + right).first() == item);
        lemma_place_of(left, value);
        assert(after == before.insert(place_of(before, value), value));
        lemma_insert_keeps_sorted(before, value);
    }
}

/// An insertion into the items right of `item` is an insertion into the
/// whole, where `value` is not less than `item`.
proof fn lemma_insertion_on_the_right<T: PartialOrd>(
    left: Seq<T>,
    item: T,
    right: Seq<T>,
    value: T,
    right_after: Seq<T>,
)
    requires
        is_insertion(right, value, right_after),
        is_weak_order::<T>() ==> !less(value, item),
    ensures
        is_insertion(left + seq![item] + right, value, left + seq![item] + right_after),
{
    let before = left + seq![item] + right;
    let after = left + seq![item] + right_after;
    let front = left + seq![item];
    let i = choose|i: int| 0 <= i <= right.len() && right_after == #[trigger] right.insert(i, value);
    assert(after == before.insert(front.len() + i, value));
    if is_weak_order::<T>() && is_sorted(before) {
        assert(right == before.subrange(front.len() as int, before.len() as int));
        lemma_sorted_part(before, front.len() as int, before.len() as int);
        assert forall|k: int| 0 <= k < front.len() implies !less(value, #[trigger] front[k]) by {
            if k < left.len() {
                assert(before[k] == front[k]);
                assert(before[left.len() as int] == item);
                assert(!less(item, front[k]));
            }
        }
        lemma_place_of(front, value);
        if place_of(front, value) < front.len() {
            assert(less(value, front[place_of(front, value)]));
        }
        lemma_place_of_joined(front, right, value);
        lemma_place_of(right, value);
        assert(before == front + right);
        assert(right_after == right.insert(place_of(right, value), value));
        assert(after == before.insert(front.len() + place_of(right, value), value));
        lemma_insert_keeps_sorted(before, value);
    }
}

/// A binary search tree. Read from left to right its items are sorted, and
/// items that compare as equal stand in the order in which they came in.
pub struct BinaryTree<T> where T: PartialOrd {
    root: Node<T>,
}

/// A node with its item, the subtree of the items that were less than it,
/// and the subtree of the others.
pub struct Node<T> where T: PartialOrd {
    value: Box<T>,
    left: Option<Box<Node<T>>>,
    right: Option<Box<Node<T>>>,
}

/// The items of an optional subtree, left to right.
spec fn subtree_items<T: PartialOrd>(subtree: Option<Box<Node<T>>>) -> Seq<T>
    decreases subtree,
{
    match subtree {
        None => Seq::empty(),
        Some(node) => node.in_order(),
    }
}

impl<T: PartialOrd> Node<T> {
    /// The item of the node.
    pub closed spec fn value(self) -> T {
        *self.value
    }

    /// The items of the left subtree, left to right.
    pub closed spec fn left_items(self) -> Seq<T> {
        subtree_items(self.left)
    }

    /// The items of the right subtree, left to right.
    pub closed spec fn right_items(self) -> Seq<T> {
        subtree_items(self.right)
    }

    /// The items in and below the node, left to right: those of the left
    /// subtree, the node's own, those of the right subtree.
    pub closed spec fn in_order(self) -> Seq<T>
        decreases self,
    {
        subtree_items(self.left) + seq![*self.value] + subtree_items(self.right)
    }

    /// The items in order are those of the left subtree, the node's own
    /// item, and those of the right subtree.
    pub proof fn lemma_in_order(self)
        ensures
            self.in_order() == self.left_items() + seq![self.value()] + self.right_items(),
    {
    }

    /// A node without subtrees that holds `value`.
    pub fn new(value: T) -> (node: Self)
        ensures
            node.value() == value,
            node.left_items() == Seq::<T>::empty(),
            node.right_items() == Seq::<T>::empty(),
            node@ == seq![value],
    {
        Self { value: Box::new(value), left: None, right: None }
    }

    /// Adds the number of items in and below the node to `result`.
    pub fn count(&self, result: &mut usize)
        requires
            *old(result) + self@.len() <= usize::MAX,
        ensures
            *final(result) == *old(result) + self@.len(),
        decreases self,
    {
        *result += 1;
        if let Some(left) = &self.left {
            left.count(result)
        }
        if let Some(right) = &self.right {
            right.count(result)
        }
    }

    /// Pushes the items in and below the node to `vec`, left to right.
    pub fn populate(self, vec: &mut Vec<T>)
        ensures
            final(vec)@ == old(vec)@ + self@,
        decreases self,
    {
        if let Some(left) = self.left {
            left.populate(vec)
        }
        vec.push(*self.value);
        if let Some(right) = self.right {
            right.populate(vec)
        }
    }

    /// Puts `value` into the left subtree.
    pub fn insert_left(&mut self, value: T)
        ensures
            final(self).value() == old(self).value(),
            final(self).right_items() == old(self).right_items(),
            is_insertion(old(self).left_items(), value, final(self).left_items()),
        decreases *old(self), 0nat,
    {
        match &mut self.left {
            Some(node) => {
                let ghost before = **node;
                if value < *node.value {
                    node.insert_left(value);
                    proof {
                        lemma_insertion_on_the_left(
                            before.left_items(),
                            before.value(),
                            before.right_items(),
                            value,
                            node.left_items(),
                        );
                    }
                } else {
                    node.insert_right(value);
                    proof {
                        lemma_insertion_on_the_right(
                            before.left_items(),
                            before.value(),
                            before.right_items(),
                            value,
                            node.right_items(),
                        );
                    }
                }
            },
            None => {
                self.left = Some(Box::new(Node::new(value)));
                proof {
                    lemma_first_item(value);
                }
            },
        }
    }

    /// Puts `value` into the right subtree.
    pub fn insert_right(&mut self, value: T)
        ensures
            final(self).value() == old(self).value(),
            final(self).left_items() == old(self).left_items(),
            is_insertion(old(self).right_items(), value, final(self).right_items()),
        decreases *old(self), 0nat,
    {
        match &mut self.right {
            Some(node) => {
                let ghost before = **node;
                if value < *node.value {
                    node.insert_left(value);
                    proof {
                        lemma_insertion_on_the_left(
                            before.left_items(),
                            before.value(),
                            before.right_items(),
                            value,
                            node.left_items(),
                        );
                    }
                } else {
                    node.insert_right(value);
                    proof {
                        lemma_insertion_on_the_right(
                            before.left_items(),
                            before.value(),
                            before.right_items(),
                            value,
                            node.right_items(),
                        );
                    }
                }
            },
            None => {
                self.right = Some(Box::new(Node::new(value)));
                proof {
                    lemma_first_item(value);
                }
            },
        }
    }
}

/// Putting `value` into no items gives `value` alone.
proof fn lemma_first_item<T: PartialOrd>(value: T)
    ensures
        is_insertion(Seq::<T>::empty(), value, seq![value]),
{
    assert(seq![value] == Seq::<T>::empty().insert(0, value));
    assert(place_of(Seq::<T>::empty(), value) == 0);
}

impl<T: PartialOrd> BinaryTree<T> {
    /// The tree that holds `value` alone.
    pub fn new(value: T) -> (tree: Self)
        ensures
            tree@ == seq![value],
    {
        Self { root: Node::new(value) }
    }

    /// Puts `value` into the tree: behind every item that is not greater
    /// than it, where the tree is sorted.
    pub fn insert(&mut self, value: T)
        ensures
            is_insertion(old(self)@, value, final(self)@),
    {
        let ghost before = self.root;
        if value < *self.root.value {
            self.root.insert_left(value);
            proof {
                lemma_insertion_on_the_left(
                    before.left_items(),
                    before.value(),
                    before.right_items(),
                    value,
                    self.root.left_items(),
                );
            }
        } else {
            self.root.insert_right(value);
            proof {
                lemma_insertion_on_the_right(
                    before.left_items(),
                    before.value(),
                    before.right_items(),
                    value,
                    self.root.right_items(),
                );
            }
        }
    }

    /// The number of items in the tree.
    pub fn size(&self) -> (count: usize)
        requires
            self@.len() <= usize::MAX,
        ensures
            count == self@.len(),
    {
        let mut result: usize = 0;
        self.root.count(&mut result);
        result
    }
}

impl<T: PartialOrd> View for Node<T> {
    type V = Seq<T>;

    open spec fn view(&self) -> Seq<T> {
        self.in_order()
    }
}

impl<T: PartialOrd> View for BinaryTree<T> {
    type V = Seq<T>;

    /// The items of the tree, left to right.
    closed spec fn view(&self) -> Seq<T> {
        self.root.in_order()
    }
}

/// How two optional subtrees compare: none comes before any, and two that
/// are there compare as their nodes do.
spec fn subtrees_compared<T: PartialOrd>(
    one: Option<Box<Node<T>>>,
    other: Option<Box<Node<T>>>,
) -> Option<Ordering>
    decreases one,
{
    match (one, other) {
        (None, None) => Some(Ordering::Equal),
        (None, Some(_)) => Some(Ordering::Less),
        (Some(_), None) => Some(Ordering::Greater),
        (Some(a), Some(b)) => a.compared(*b),
    }
}

impl<T: PartialOrd> Node<T> {
    /// How the node compares with `other`: by the items of the two nodes;
    /// where those are equal, by their left subtrees; where those are equal
    /// too, by their right subtrees.
    pub closed spec fn compared(self, other: Node<T>) -> Option<Ordering>
        decreases self,
    {
        match (*self.value).partial_cmp_spec(&*other.value) {
            Some(Ordering::Equal) => match subtrees_compared(self.left, other.left) {
                Some(Ordering::Equal) => subtrees_compared(self.right, other.right),
                decided => decided,
            },
            decided => decided,
        }
    }

    /// Compares two optional subtrees.
    fn compare_subtrees(one: &Option<Box<Node<T>>>, other: &Option<Box<Node<T>>>) -> (order:
        Option<Ordering>)
        ensures
            T::obeys_partial_cmp_spec() ==> order == subtrees_compared(*one, *other),
        decreases *one,
    {
        match (one, other) {
            (None, None) => Some(Ordering::Equal),
            (None, Some(_)) => Some(Ordering::Less),
            (Some(_), None) => Some(Ordering::Greater),
            (Some(a), Some(b)) => a.compare_nodes(b),
        }
    }

    /// Compares the node with `other`.
    fn compare_nodes(&self, other: &Node<T>) -> (order: Option<Ordering>)
        ensures
            T::obeys_partial_cmp_spec() ==> order == self.compared(*other),
        decreases *self,
    {
        match (*self.value).partial_cmp(&*other.value) {
            Some(Ordering::Equal) => {},
            ord => return ord,
        }
        match Self::compare_subtrees(&self.left, &other.left) {
            Some(Ordering::Equal) => {},
            ord => return ord,
        }
        Self::compare_subtrees(&self.right, &other.right)
    }
}

impl<T: PartialOrd> PartialEq for Node<T> {
    /// Two nodes are equal when their own items are.
    fn eq(&self, other: &Self) -> (equal: bool) {
        *self.value == *other.value
    }
}

impl<T: PartialOrd> PartialEqSpecImpl for Node<T> {
    open spec fn obeys_eq_spec() -> bool {
        T::obeys_eq_spec()
    }

    open spec fn eq_spec(&self, other: &Self) -> bool {
        self.value().eq_spec(&other.value())
    }
}

impl<T: PartialOrd> PartialOrd for Node<T> {
    /// Nodes compare by their items, then by their left subtrees, then by
    /// their right subtrees.
    fn partial_cmp(&self, other: &Self) -> (order: Option<Ordering>) {
        self.compare_nodes(other)
    }
}

impl<T: PartialOrd> PartialOrdSpecImpl for Node<T> {
    open spec fn obeys_partial_cmp_spec() -> bool {
        T::obeys_partial_cmp_spec()
    }

    open spec fn partial_cmp_spec(&self, other: &Self) -> Option<Ordering> {
        self.compared(*other)
    }
}

impl<T: PartialOrd> From<BinaryTree<T>> for Vec<T> {
    /// The items of the tree, left to right.
    fn from(tree: BinaryTree<T>) -> (items: Vec<T>)
        ensures
            items@ == tree@,
    {
        let mut result = Vec::new();
        tree.root.populate(&mut result);
        result
    }
}

impl<T: PartialOrd> FromSpecImpl<BinaryTree<T>> for Vec<T> {
    /// The conversion is stated by what `from` ensures of the vector's
    /// items; no vector is named as its one result.
    open spec fn obeys_from_spec() -> bool {
        false
    }

    open spec fn from_spec(tree: BinaryTree<T>) -> Vec<T> {
        arbitrary()
    }
}

} // verus!
