//! A singly linked list that grows and shrinks at its far end.

use vstd::prelude::*;

verus! {

/// A list of items, each node owning the next. Items are pushed to the end
/// and popped from the end.
pub struct LinkedList<T> {
    first: Option<Box<Node<T>>>,
}

/// A node of a list together with all nodes after it: a list that holds at
/// least one item.
pub struct Node<T> {
    value: T,
    next: Option<Box<Node<T>>>,
}

/// Walks over a chain of nodes from the front.
pub struct NodeIterator<'a, T> {
    current: Option<&'a Node<T>>,
}

/// The items of an optional chain of nodes, front first.
spec fn chain_items<T>(chain: Option<Box<Node<T>>>) -> Seq<T>
    decreases chain,
{
    match chain {
        None => Seq::empty(),
        Some(node) => node.items(),
    }
}

impl<T> Node<T> {
    /// The items of this node and of the nodes after it, front first.
    pub closed spec fn items(self) -> Seq<T>
        decreases self,
    {
        seq![self.value] + chain_items(self.next)
    }
}

impl<T> View for Node<T> {
    type V = Seq<T>;

    /// The items of this node and of the nodes after it, front first.
    open spec fn view(&self) -> Seq<T> {
        self.items()
    }
}

impl<T> View for LinkedList<T> {
    type V = Seq<T>;

    /// The items of the list, front first.
    closed spec fn view(&self) -> Seq<T> {
        chain_items(self.first)
    }
}

impl<'a, T> View for NodeIterator<'a, T> {
    type V = Seq<T>;

    /// The items that are still to come, next first.
    closed spec fn view(&self) -> Seq<T> {
        match self.current {
            None => Seq::empty(),
            Some(node) => node@,
        }
    }
}

impl<T> Node<T> {
    /// A chain of one node that holds `value`.
    pub fn new(value: T) -> (node: Self)
        ensures
            node@ == seq![value],
    {
        Node { value, next: None }
    }

    /// Whether a node follows this one.
    pub fn has_next(&self) -> (has: bool)
        ensures
            self@.len() >= 1,
            has == (self@.len() > 1),
    {
        proof {
            self.lemma_next_node();
        }
        self.next.is_some()
    }

    /// A chain is never empty: its first item is the node's own, and the
    /// rest is the chain of the node behind it.
    proof fn lemma_next_node(&self)
        ensures
            self.next is Some <==> self@.len() > 1,
            self@.len() >= 1,
            self@[0] == self.value,
            self@.skip(1) == chain_items(self.next),
            self.next matches Some(node) ==> node@.len() >= 1 && node@ == self@.skip(1),
        decreases self,
    {
        if let Some(node) = self.next {
            node.lemma_next_node();
        }
        assert(self@.skip(1) == chain_items(self.next));
    }

    /// Appends `value` behind the last node of the chain.
    pub fn push(&mut self, value: T)
        ensures
            final(self)@ == old(self)@.push(value),
        decreases *old(self),
    {
        match &mut self.next {
            None => {
                self.next = Some(Box::new(Node::new(value)));
            },
            Some(node) => { node.push(value) },
        }
    }

    /// Unlinks the node behind this one, with all that follows it, and
    /// returns its item.
    fn take_next(&mut self) -> (taken: Option<T>)
        ensures
            final(self)@ == old(self)@.take(1),
            old(self)@.len() > 1 ==> taken == Some(old(self)@[1]),
            old(self)@.len() == 1 ==> taken is None,
    {
        proof {
            self.lemma_next_node();
        }
        let res = self.next.take();
        match res {
            None => None,
            Some(val) => {
                proof {
                    val.lemma_next_node();
                }
                Some(val.value)
            },
        }
    }

    /// Removes the last node of the chain and returns its item.
    fn pop(&mut self) -> (popped: Option<T>)
        requires
            old(self)@.len() > 1,
        ensures
            popped == Some(old(self)@.last()),
            final(self)@ == old(self)@.drop_last(),
        decreases *old(self),
    {
        proof {
            self.lemma_next_node();
        }
        let ends_here = match &self.next {
            Some(next) => {
                proof {
                    next.lemma_next_node();
                }
                next.next.is_none()
            },
            None => true,
        };
        if ends_here {
            self.take_next()
        } else {
            match &mut self.next {
                Some(next) => next.pop(),
                None => None,
            }
        }
    }

    /// The node behind this one, if there is one.
    pub fn next_as_ref(&self) -> (next: Option<&Node<T>>)
        ensures
            self@.len() == 1 ==> next is None,
            self@.len() > 1 ==> (next matches Some(node) && node@ == self@.skip(1)),
    {
        proof {
            self.lemma_next_node();
        }
        match &self.next {
            None => None,
            Some(v) => Some(&**v),
        }
    }

    /// Replaces the item of this node.
    pub fn set(&mut self, value: T)
        ensures
            final(self)@ == old(self)@.update(0, value),
    {
        self.value = value;
    }

    /// Drops every node behind this one.
    pub fn clear(&mut self)
        ensures
            final(self)@ == old(self)@.take(1),
    {
        proof {
            self.lemma_next_node();
        }
        self.next = None;
    }

    /// Adds the number of nodes of the chain to `counter`.
    fn length_internal(&self, counter: &mut usize)
        requires
            *old(counter) + self@.len() <= usize::MAX,
        ensures
            *final(counter) == *old(counter) + self@.len(),
        decreases self,
    {
        proof {
            self.lemma_next_node();
        }
        *counter += 1;
        if let Some(next) = &self.next {
            next.length_internal(counter);
        }
    }

    /// The number of nodes of the chain.
    pub fn len(&self) -> (count: usize)
        requires
            self@.len() <= usize::MAX,
        ensures
            count == self@.len(),
            count >= 1,
    {
        proof {
            self.lemma_next_node();
        }
        let mut counter: usize = 0;
        self.length_internal(&mut counter);
        counter
    }
}

impl<T> core::ops::Deref for Node<T> {
    type Target = T;

    /// A node dereferences to its own item.
    fn deref(&self) -> (item: &T)
        ensures
            self@.len() >= 1,
            *item == self@[0],
    {
        proof {
            self.lemma_next_node();
        }
        &self.value
    }
}

impl<'a, T> NodeIterator<'a, T> {
    /// An iterator that starts at `node`.
    pub fn new(node: &'a Node<T>) -> (iter: Self)
        ensures
            iter@ == node@,
    {
        Self { current: Some(node) }
    }

    /// The next item, if one is left.
    pub fn next(&mut self) -> (item: Option<&'a T>)
        ensures
            old(self)@.len() == 0 ==> item is None && final(self)@ == old(self)@,
            old(self)@.len() > 0 ==> item == Some(&old(self)@[0]) && final(self)@ == old(
                self,
            )@.skip(1),
    {
        if let Some(result) = self.current {
            proof {
                result.lemma_next_node();
            }
            self.current = result.next_as_ref();
            return Some(&result.value);
        }
        None
    }
}

impl<T> LinkedList<T> {
    /// The empty list.
    pub fn new() -> (list: Self)
        ensures
            list@ == Seq::<T>::empty(),
    {
        Self { first: None }
    }

    /// Appends `value` to the end of the list.
    pub fn push(&mut self, value: T)
        ensures
            final(self)@ == old(self)@.push(value),
    {
        match &mut self.first {
            Some(node) => node.push(value),
            None => self.first = Some(Box::new(Node::new(value))),
        }
    }

    /// Removes the last item of the list and returns it; `None` where the
    /// list is empty.
    pub fn pop(&mut self) -> (popped: Option<T>)
        ensures
            old(self)@.len() == 0 ==> popped is None && final(self)@ == old(self)@,
            old(self)@.len() > 0 ==> popped == Some(old(self)@.last()) && final(self)@ == old(
                self,
            )@.drop_last(),
    {
        let more = match &self.first {
            None => { return None; },
            Some(node) => node.has_next(),
        };
        if more {
            match &mut self.first {
                Some(node) => node.pop(),
                None => None,
            }
        } else {
            let v = self.first.take();
            match v {
                Some(x) => {
                    proof {
                        x.lemma_next_node();
                    }
                    Some(x.value)
                },
                None => None,
            }
        }
    }

    /// The number of items in the list.
    pub fn len(&self) -> (count: usize)
        requires
            self@.len() <= usize::MAX,
        ensures
            count == self@.len(),
    {
        match &self.first {
            None => 0,
            Some(node) => node.len(),
        }
    }
}

} // verus!
