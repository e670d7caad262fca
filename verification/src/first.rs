//! A stack as a chain of boxed nodes, each node owning its successor.

use crate::order::{behind, front};
use crate::render::{chain_text, label_texts, labelled, render_labels};
use vstd::prelude::*;
use vstd::string::to_string_from_display_ensures;

verus! {

/// One link of the chain: an item and the rest of the chain.
struct Node<T> {
    data: T,
    next: Option<Box<Node<T>>>,
}

/// A stack whose head node owns the whole chain behind it.
pub struct List<T> {
    ptr: Option<Box<Node<T>>>,
}

/// The items reachable from `link`, nearest first.
spec fn chain_items<T>(link: Option<Box<Node<T>>>) -> Seq<T>
    decreases link,
{
    match link {
        None => Seq::empty(),
        Some(node) => seq![node.data] + chain_items(node.next),
    }
}

impl<T> View for List<T> {
    type V = Seq<T>;

    /// The items of the stack, most recently pushed first.
    closed spec fn view(&self) -> Seq<T> {
        chain_items(self.ptr)
    }
}

impl<T> List<T> {
    /// An empty stack.
    pub fn new() -> (list: Self)
        ensures
            list@ == Seq::<T>::empty(),
    {
        List { ptr: None }
    }

    /// Puts `data` on top of the stack.
    pub fn push(&mut self, data: T)
        ensures
            final(self)@ == seq![data] + old(self)@,
    {
        let rest = self.ptr.take();
        self.ptr = Some(Box::new(Node { data, next: rest }));
    }

    /// Takes the top item off the stack; `None`, and no change, when the
    /// stack is empty.
    pub fn pop(&mut self) -> (top: Option<T>)
        ensures
            top == front(old(self)@),
            final(self)@ == behind(old(self)@),
    {
        match self.ptr.take() {
            None => None,
            Some(node) => {
                let node = *node;
                self.ptr = node.next;
                assert((seq![node.data] + chain_items(node.next)).skip(1) =~= chain_items(node.next));
                Some(node.data)
            },
        }
    }
}

impl<T: std::fmt::Display> List<T> {
    /// The stack as text, top first: `[3 -> 2 -> 1 -> null]`, with each item
    /// written as `Display` writes it.
    pub fn to_string(&self) -> (text: String)
        ensures
            exists|labels: Seq<String>| #[trigger]
                labelled(self@, labels) && text@ == chain_text(label_texts(labels)),
    {
        let mut labels: Vec<String> = Vec::new();
        let mut scanner = &self.ptr;
        loop
            invariant
                labels@.len() <= self@.len(),
                labelled(self@.take(labels@.len() as int), labels@),
                chain_items(*scanner) == self@.skip(labels@.len() as int),
            ensures
                labelled(self@, labels@),
            decreases scanner,
        {
            match scanner {
                None => {
                    assert(self@.take(labels@.len() as int) =~= self@);
                    break ;
                },
                Some(node) => {
                    let ghost seen = labels@;
                    labels.push(node.data.to_string());
                    scanner = &node.next;
                    proof {
                        let n = seen.len() as int;
                        let rest = seq![node.data] + chain_items(node.next);
                        assert(self@.skip(n) == rest);
                        assert(rest.len() > 0);
                        assert(self@[n] == rest[0]);
                        assert(chain_items(node.next) =~= rest.skip(1));
                        assert(self@.skip(n + 1) =~= rest.skip(1));
                        assert forall|i: int| 0 <= i < n + 1 implies to_string_from_display_ensures::<T>(
                            &self@.take(n + 1)[i],
                            #[trigger] labels@[i],
                        ) by {
                            if i < n {
                                assert(self@.take(n)[i] == self@.take(n + 1)[i]);
                                assert(seen[i] == labels@[i]);
                            }
                        }
                    }
                },
            }
        }
        render_labels(&labels)
    }
}

impl<T> Drop for List<T> {
    /// Releases the chain one node at a time, so that the depth of the call
    /// stack does not grow with the length of the list.
    fn drop(&mut self)
        ensures
            final(self)@ == Seq::<T>::empty(),
        opens_invariants none
        no_unwind
    {
        let mut scanner: Option<Box<Node<T>>> = None;
        std::mem::swap(&mut self.ptr, &mut scanner);
        loop
            decreases scanner,
        {
            match scanner {
                None => {
                    break ;
                },
                Some(node) => {
                    let node = *node;
                    scanner = node.next;
                },
            }
        }
    }
}

} // verus!
