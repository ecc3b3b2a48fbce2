//! Linked data structures: an ordered binary tree, a singly linked list and
//! a tree whose nodes have any number of children.

pub mod binary_tree;
pub mod linked_list;
pub mod tree;
