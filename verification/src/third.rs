//! A persistent stack: lists made from one another share the nodes they have
//! in common, and no list ever changes.

use std::rc::Rc;
use crate::order::{behind, front};
use vstd::prelude::*;

verus! {

/// A link of the chain: a shared handle on the node it leads to, if any.
type Link<T> = Option<Rc<Node<T>>>;

/// One node of the chain: an item and the rest of the chain.
struct Node<T> {
    data: T,
    next: Link<T>,
}

/// A list that shares its nodes with the lists it was made from.
pub struct List<T> {
    ptr: Link<T>,
}

/// The items reachable from `link`, nearest first.
spec fn chain_items<T>(link: Link<T>) -> Seq<T>
    decreases link,
{
    match link {
        None => Seq::empty(),
        Some(node) => seq![node.data] + chain_items(node.next),
    }
}

impl<T> View for List<T> {
    type V = Seq<T>;

    /// The items of the list, head first.
    closed spec fn view(&self) -> Seq<T> {
        chain_items(self.ptr)
    }
}

/// `Rc::clone`: one more handle on the node that `node` leads to. The node
/// itself is neither copied nor changed, so the new handle leads to the same
/// value.
#[verifier::external_body]
fn share<T>(node: &Rc<Node<T>>) -> (shared: Rc<Node<T>>)
    ensures
        shared == *node,
{
    Rc::clone(node)
}

/// `Rc::try_unwrap`: the node itself when `node` is the only handle on it,
/// else the handle back. It does not panic.
#[verifier::external_body]
fn reclaim<T>(node: Rc<Node<T>>) -> (claim: Result<Node<T>, Rc<Node<T>>>)
    ensures
        match claim {
            Ok(owned) => owned == *node,
            Err(shared) => shared == node,
        },
    opens_invariants none
    no_unwind
{
    Rc::try_unwrap(node)
}

impl<T> List<T> {
    /// An empty list.
    pub fn new() -> (list: List<T>)
        ensures
            list@ == Seq::<T>::empty(),
    {
        List { ptr: None }
    }

    /// A list with `data` in front of the items of this one. This list stays
    /// as it is, and the new one shares all of its nodes.
    pub fn prepend(&self, data: T) -> (list: List<T>)
        ensures
            list@ == seq![data] + self@,
    {
        let rest = match &self.ptr {
            None => None,
            Some(node) => Some(share(node)),
        };
        List { ptr: Some(Rc::new(Node { data, next: rest })) }
    }

    /// A list of the items behind the head, sharing their nodes; empty when
    /// this list is empty.
    pub fn tail(&self) -> (list: List<T>)
        ensures
            list@ == behind(self@),
    {
        match &self.ptr {
            None => List { ptr: None },
            Some(node) => {
                assert((seq![node.data] + chain_items(node.next)).skip(1) =~= chain_items(node.next));
                match &node.next {
                    None => List { ptr: None },
                    Some(next) => List { ptr: Some(share(next)) },
                }
            },
        }
    }

    /// The item at the head, if there is one.
    pub fn head(&self) -> (item: Option<&T>)
        ensures
            match item {
                Some(head) => front(self@) == Some(*head),
                None => front(self@) is None,
            },
    {
        match &self.ptr {
            None => None,
            Some(node) => Some(&node.data),
        }
    }
}

impl<T> Drop for List<T> {
    /// Gives up this list's handle on its head. Nodes that no other list
    /// holds are released one at a time, up to the first node that another
    /// list shares, so that the depth of the call stack does not grow with
    /// the length of the list.
    fn drop(&mut self)
        ensures
            final(self)@ == Seq::<T>::empty(),
        opens_invariants none
        no_unwind
    {
        let mut scanner: Link<T> = None;
        std::mem::swap(&mut self.ptr, &mut scanner);
        loop
            decreases scanner,
        {
            match scanner {
                None => {
                    break ;
                },
                Some(node) => {
                    match reclaim(node) {
                        Ok(owned) => {
                            scanner = owned.next;
                        },
                        Err(_) => {
                            break ;
                        },
                    }
                },
            }
        }
    }
}

} // verus!
