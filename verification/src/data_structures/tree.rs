//! A tree whose nodes have any number of children.

use crate::traits::functor::Functor;
use vstd::prelude::*;
use vstd::std_specs::convert::FromSpecImpl;

verus! {

/// A node with its item and its children, first added first.
#[derive(Debug)]
pub struct Node<T> {
    pub value: Box<T>,
    children: Option<Vec<Node<T>>>,
}

/// A tree: its root node.
pub struct Tree<T> {
    pub root: Node<T>,
}

impl<T> Node<T> {
    /// The item of the node.
    pub closed spec fn value(self) -> T {
        *self.value
    }

    /// The children of the node, first added first.
    pub closed spec fn kids(self) -> Seq<Node<T>> {
        match self.children {
            None => Seq::empty(),
            Some(children) => children@,
        }
    }

    /// Whether the node has no children.
    pub open spec fn is_leaf(self) -> bool {
        self.kids().len() == 0
    }

    /// The number of nodes: this one and all below it.
    pub open spec fn count(self) -> nat
        decreases self,
        via Self::kids_are_smaller
    {
        if self.is_leaf() {
            1
        } else {
            1 + Self::count_all(self.kids())
        }
    }

    /// The number of nodes in and below `nodes`.
    pub open spec fn count_all(nodes: Seq<Node<T>>) -> nat
        decreases nodes,
    {
        if nodes.len() == 0 {
            0
        } else {
            Self::count_all(nodes.drop_last()) + nodes.last().count()
        }
    }

    #[via_fn]
    proof fn kids_are_smaller(self) {
        if !self.is_leaf() {
            assert(decreases_to!(self => self.kids()));
        }
    }

    /// The items of the node and of all nodes below it: the node's own item
    /// first, then those of each child in turn.
    pub open spec fn flatten(self) -> Seq<T>
        decreases self,
        via Self::kids_are_smaller_items
    {
        if self.is_leaf() {
            seq![self.value()]
        } else {
            seq![self.value()] + Self::flatten_all(self.kids())
        }
    }

    /// The items in and below `nodes`, node after node.
    pub open spec fn flatten_all(nodes: Seq<Node<T>>) -> Seq<T>
        decreases nodes,
    {
        if nodes.len() == 0 {
            Seq::empty()
        } else {
            Self::flatten_all(nodes.drop_last()) + nodes.last().flatten()
        }
    }

    #[via_fn]
    proof fn kids_are_smaller_items(self) {
        if !self.is_leaf() {
            assert(decreases_to!(self => self.kids()));
        }
    }

    /// Whether `other` has the shape of this node, and the item of each of
    /// its nodes is related by `rel` to the item of the node of `self` in the
    /// same place.
    pub open spec fn relates_to<U>(self, rel: spec_fn(T, U) -> bool, other: Node<U>) -> bool
        decreases self,
        via Self::kids_are_smaller_than_self::<U>
    {
        &&& rel(self.value(), other.value())
        &&& self.kids().len() == other.kids().len()
        &&& forall|i: int|
            0 <= i < self.kids().len() ==> (#[trigger] self.kids()[i]).relates_to(
                rel,
                other.kids()[i],
            )
    }

    #[via_fn]
    proof fn kids_are_smaller_than_self<U>(self, rel: spec_fn(T, U) -> bool, other: Node<U>) {
        assert forall|i: int| 0 <= i < self.kids().len() implies decreases_to!(self => self.kids()[i]) by {
            assert(decreases_to!(self => self.kids()));
        }
    }

    /// Whether the item of the node and the item of every node below it
    /// satisfy `ok`.
    pub open spec fn every_item(self, ok: spec_fn(T) -> bool) -> bool
        decreases self,
        via Self::kids_are_smaller_for_items
    {
        &&& ok(self.value())
        &&& forall|i: int|
            0 <= i < self.kids().len() ==> (#[trigger] self.kids()[i]).every_item(ok)
    }

    #[via_fn]
    proof fn kids_are_smaller_for_items(self, ok: spec_fn(T) -> bool) {
        assert forall|i: int| 0 <= i < self.kids().len() implies decreases_to!(self => self.kids()[i]) by {
            assert(decreases_to!(self => self.kids()));
        }
    }

    /// Where every item satisfies `ok`, and what satisfies `ok` satisfies
    /// `then`, every item satisfies `then`.
    pub proof fn lemma_every_item_weakens(self, ok: spec_fn(T) -> bool, then: spec_fn(T) -> bool)
        requires
            self.every_item(ok),
            forall|item: T| ok(item) ==> #[trigger] then(item),
        ensures
            self.every_item(then),
        decreases self,
    {
        assert forall|i: int| 0 <= i < self.kids().len() implies (#[trigger] self.kids()[i]).every_item(
            then,
        ) by {
            self.lemma_kid_is_smaller(i);
            self.kids()[i].lemma_every_item_weakens(ok, then);
        }
    }

    /// Every child is smaller than its parent: recursion over the children
    /// ends.
    pub proof fn lemma_kid_is_smaller(self, i: int)
        requires
            0 <= i < self.kids().len(),
        ensures
            decreases_to!(self => self.kids()[i]),
    {
        assert(decreases_to!(self => self.kids()));
    }

    /// A leaf that holds `value`.
    pub fn new(value: T) -> (node: Self)
        ensures
            node.value() == value,
            node.is_leaf(),
    {
        Self { value: Box::new(value), children: None }
    }

    /// Adds a leaf that holds `value` behind the children that are there.
    pub fn add(&mut self, value: T)
        ensures
            final(self).value() == old(self).value(),
            final(self).kids().len() == old(self).kids().len() + 1,
            final(self).kids().drop_last() == old(self).kids(),
            final(self).kids().last().value() == value,
            final(self).kids().last().is_leaf(),
    {
        let ghost before = self.kids();
        let new_node = Node::new(value);
        match &mut self.children {
            Some(children) => children.push(new_node),
            None => {
                self.children = Some(vec![new_node]);
            },
        }
        proof {
            assert(self.kids().drop_last() == before);
        }
    }

    /// Nodes of the same shape have the same number of nodes.
    pub proof fn lemma_same_shape_same_count<U>(
        self,
        rel: spec_fn(T, U) -> bool,
        other: Node<U>,
    )
        requires
            self.relates_to(rel, other),
        ensures
            self.count() == other.count(),
        decreases self,
    {
        if !self.is_leaf() {
            Self::lemma_same_shapes_same_count(self, self.kids().len() as int, rel, other);
            assert(self.kids().take(self.kids().len() as int) == self.kids());
            assert(other.kids().take(other.kids().len() as int) == other.kids());
        }
    }

    /// The first `n` children of two nodes of the same shape have the same
    /// number of nodes in and below them.
    proof fn lemma_same_shapes_same_count<U>(
        parent: Self,
        n: int,
        rel: spec_fn(T, U) -> bool,
        other: Node<U>,
    )
        requires
            parent.relates_to(rel, other),
            0 <= n <= parent.kids().len(),
        ensures
            Self::count_all(parent.kids().take(n)) == Node::<U>::count_all(other.kids().take(n)),
        decreases parent, n,
    {
        if n > 0 {
            Self::lemma_same_shapes_same_count(parent, n - 1, rel, other);
            parent.lemma_kid_is_smaller(n - 1);
            parent.kids()[n - 1].lemma_same_shape_same_count(rel, other.kids()[n - 1]);
            assert(parent.kids().take(n).drop_last() == parent.kids().take(n - 1));
            assert(other.kids().take(n).drop_last() == other.kids().take(n - 1));
        }
    }

    /// Nodes of the same shape hold their items in the same order: read node
    /// before children, the two hold equally many items, and item stands
    /// for item.
    pub proof fn lemma_same_shape_same_order<U>(
        self,
        rel: spec_fn(T, U) -> bool,
        other: Node<U>,
    )
        requires
            self.relates_to(rel, other),
        ensures
            self.flatten().len() == other.flatten().len(),
            forall|i: int|
                0 <= i < self.flatten().len() ==> rel(
                    #[trigger] self.flatten()[i],
                    other.flatten()[i],
                ),
        decreases self,
    {
        if !self.is_leaf() {
            Self::lemma_same_shapes_same_order(self, self.kids().len() as int, rel, other);
            assert(self.kids().take(self.kids().len() as int) == self.kids());
            assert(other.kids().take(other.kids().len() as int) == other.kids());
        }
    }

    /// The first `n` children of two nodes of the same shape hold their
    /// items in the same order.
    proof fn lemma_same_shapes_same_order<U>(
        parent: Self,
        n: int,
        rel: spec_fn(T, U) -> bool,
        other: Node<U>,
    )
        requires
            parent.relates_to(rel, other),
            0 <= n <= parent.kids().len(),
        ensures
            Self::flatten_all(parent.kids().take(n)).len() == Node::<U>::flatten_all(
                other.kids().take(n),
            ).len(),
            forall|i: int|
                0 <= i < Self::flatten_all(parent.kids().take(n)).len() ==> rel(
                    #[trigger] Self::flatten_all(parent.kids().take(n))[i],
                    Node::<U>::flatten_all(other.kids().take(n))[i],
                ),
        decreases parent, n,
    {
        if n > 0 {
            Self::lemma_same_shapes_same_order(parent, n - 1, rel, other);
            parent.lemma_kid_is_smaller(n - 1);
            parent.kids()[n - 1].lemma_same_shape_same_order(rel, other.kids()[n - 1]);
            assert(parent.kids().take(n).drop_last() == parent.kids().take(n - 1));
            assert(other.kids().take(n).drop_last() == other.kids().take(n - 1));
        }
    }

    /// The nodes in and below a prefix of `nodes` are no more than those in
    /// and below `nodes`, and adding one node to the prefix adds the nodes
    /// in and below it.
    proof fn lemma_count_prefix(nodes: Seq<Node<T>>, n: int)
        requires
            0 <= n < nodes.len(),
        ensures
            Self::count_all(nodes.take(n + 1)) == Self::count_all(nodes.take(n)) + nodes[n].count(),
            Self::count_all(nodes.take(n + 1)) <= Self::count_all(nodes),
        decreases nodes.len(),
    {
        assert(nodes.take(n + 1).drop_last() == nodes.take(n));
        if n + 1 == nodes.len() {
            assert(nodes.take(n + 1) == nodes);
        } else {
            Self::lemma_count_prefix(nodes.drop_last(), n);
            assert(nodes.drop_last().take(n + 1) == nodes.take(n + 1));
            assert(nodes.drop_last().take(n) == nodes.take(n));
        }
    }

    /// Pushes the items of the node and of all nodes below it to `target`:
    /// the node's own item first, then those of each child in turn.
    fn populate(self, target: &mut Vec<T>)
        ensures
            final(target)@ == old(target)@ + self.flatten(),
        decreases self,
    {
        let ghost kids = self.kids();
        target.push(*self.value);
        if let Some(children) = self.children {
            let ghost before = target@;
            proof {
                assert forall|k: int| 0 <= k < kids.len() implies decreases_to!(self => #[trigger] kids[k]) by {
                    self.lemma_kid_is_smaller(k);
                }
            }
            for child in it: children
                invariant
                    it.seq() == kids,
                    target@ == before + Self::flatten_all(kids.take(it.index() as int)),
                    forall|k: int| 0 <= k < kids.len() ==> decreases_to!(self => #[trigger] kids[k]),
            {
                proof {
                    assert(kids.take(it.index() + 1).drop_last() == kids.take(it.index() as int));
                }
                child.populate(target);
            }
            proof {
                assert(kids.take(kids.len() as int) == kids);
            }
        }
    }

    /// Adds the number of nodes in and below the node to `accum`.
    fn size(&self, accum: &mut usize)
        requires
            *old(accum) + self.count() <= usize::MAX,
        ensures
            *final(accum) == *old(accum) + self.count(),
        decreases self,
    {
        *accum += 1;
        if let Some(children) = &self.children {
            let mut i: usize = 0;
            while i < children.len()
                invariant
                    i <= children@.len(),
                    children@ == self.kids(),
                    *old(accum) + self.count() <= usize::MAX,
                    *accum == *old(accum) + 1 + Self::count_all(children@.take(i as int)),
                decreases children@.len() - i,
            {
                proof {
                    Self::lemma_count_prefix(children@, i as int);
                    self.lemma_kid_is_smaller(i as int);
                }
                children[i].size(accum);
                i += 1;
            }
            proof {
                assert(children@.take(children@.len() as int) == children@);
            }
        }
    }
}

impl<T> Tree<T> {
    /// A tree of one node that holds `root`.
    pub fn new(root: T) -> (tree: Self)
        ensures
            tree.root.value() == root,
            tree.root.is_leaf(),
    {
        Self { root: Node::new(root) }
    }

    /// The tree whose root node is `root`.
    fn with_root(root: Node<T>) -> (tree: Self)
        ensures
            tree.root == root,
    {
        Self { root }
    }

    /// The root node.
    pub fn root(&self) -> (root: &Node<T>)
        ensures
            *root == self.root,
    {
        &self.root
    }

    /// The number of nodes of the tree.
    pub fn size(&self) -> (count: usize)
        requires
            self.root.count() <= usize::MAX,
        ensures
            count == self.root.count(),
    {
        let mut result: usize = 0;
        self.root.size(&mut result);
        result
    }
}

impl<T, U> Functor<T, U> for Tree<T> {
    type Functor = Tree<U>;

    open spec fn all_items(&self, ok: spec_fn(T) -> bool) -> bool {
        <Node<T> as Functor<T, U>>::all_items(&self.root, ok)
    }

    open spec fn maps_to(&self, rel: spec_fn(T, U) -> bool, out: Tree<U>) -> bool {
        self.root.maps_to(rel, out.root)
    }

    fn fmap<F: Fn(&T) -> U>(&self, f: F) -> (out: Tree<U>) {
        Tree::with_root(self.root.fmap(f))
    }
}

impl<T> Node<T> {
    /// The node of the same shape whose items are what `f` returns for the
    /// items of this node and of every node below it.
    fn map_with<U, F: Fn(&T) -> U>(&self, f: &F) -> (out: Node<U>)
        requires
            self.every_item(|item: T| call_requires(*f, (&item,))),
        ensures
            self.relates_to(|item: T, image: U| call_ensures(*f, (&item,), image), out),
        decreases self,
    {
        let ghost ok = |item: T| call_requires(*f, (&item,));
        let ghost rel = |item: T, image: U| call_ensures(*f, (&item,), image);
        assert(ok(self.value()));
        let value = f(&self.value);
        assert(rel(self.value(), value));
        let mut result = Node::new(value);
        match &self.children {
            None => result,
            Some(children) => {
                let mut mapped_children: Vec<Node<U>> = Vec::with_capacity(children.len());
                let mut i: usize = 0;
                while i < children.len()
                    invariant
                        i <= children@.len(),
                        mapped_children@.len() == i,
                        self.children == Some(*children),
                        ok == |item: T| call_requires(*f, (&item,)),
                        rel == |item: T, image: U| call_ensures(*f, (&item,), image),
                        self.every_item(ok),
                        forall|k: int|
                            0 <= k < i ==> (#[trigger] children@[k]).relates_to(
                                rel,
                                mapped_children@[k],
                            ),
                    decreases children@.len() - i,
                {
                    proof {
                        self.lemma_kid_is_smaller(i as int);
                        assert(self.kids()[i as int].every_item(ok));
                    }
                    mapped_children.push(children[i].map_with(f));
                    i += 1;
                }
                result.children = Some(mapped_children);
                result
            },
        }
    }
}

impl<T, U> Functor<T, U> for Node<T> {
    type Functor = Node<U>;

    /// The items held are that of the node and those of every node below it.
    open spec fn all_items(&self, ok: spec_fn(T) -> bool) -> bool {
        self.every_item(ok)
    }

    /// The map keeps the shape: `out` has the shape of the node, and at
    /// every place its item is related to the item of the node there.
    open spec fn maps_to(&self, rel: spec_fn(T, U) -> bool, out: Node<U>) -> bool {
        self.relates_to(rel, out)
    }

    fn fmap<F: Fn(&T) -> U>(&self, f: F) -> (out: Node<U>) {
        self.map_with(&f)
    }
}

impl<T> From<Tree<T>> for Vec<T> {
    /// The items of the tree: that of each node before those of its
    /// children, the children in the order in which they were added.
    fn from(tree: Tree<T>) -> (items: Vec<T>)
        ensures
            items@ == tree.root.flatten(),
    {
        let mut result: Vec<T> = Vec::new();
        tree.root.populate(&mut result);
        result
    }
}

impl<T> FromSpecImpl<Tree<T>> for Vec<T> {
    /// The conversion is stated by what `from` ensures of the vector's
    /// items; no vector is named as its one result.
    open spec fn obeys_from_spec() -> bool {
        false
    }

    open spec fn from_spec(tree: Tree<T>) -> Vec<T> {
        arbitrary()
    }
}

impl<T: Clone> Clone for Node<T> {
    /// The copy has the shape of the node, and each of its items is a clone
    /// of the item in the same place.
    fn clone(&self) -> (copy: Self)
        ensures
            self.relates_to(|item: T, other: T| cloned(item, other), copy),
        decreases self,
    {
        let ghost rel = |item: T, other: T| cloned(item, other);
        let value = (*self.value).clone();
        assert(rel(self.value(), value));
        match &self.children {
            None => Node { value: Box::new(value), children: None },
            Some(children) => {
                let mut copies: Vec<Node<T>> = Vec::with_capacity(children.len());
                let mut i: usize = 0;
                while i < children.len()
                    invariant
                        i <= children@.len(),
                        copies@.len() == i,
                        self.children == Some(*children),
                        rel == |item: T, other: T| cloned(item, other),
                        forall|k: int|
                            0 <= k < i ==> (#[trigger] children@[k]).relates_to(rel, copies@[k]),
                    decreases children@.len() - i,
                {
                    proof {
                        self.lemma_kid_is_smaller(i as int);
                    }
                    copies.push(children[i].clone());
                    i += 1;
                }
                Node { value: Box::new(value), children: Some(copies) }
            },
        }
    }
}

} // verus!
