//! A stack as a chain of boxed nodes, with peeking and three ways to walk it.

use crate::order::{behind, front};
use crate::render::{chain_text, label_texts, labelled, render_labels};
use vstd::prelude::*;
use vstd::string::to_string_from_display_ensures;

verus! {

/// A link of the chain: the node it leads to, if any.
type Link<T> = Option<Box<Node<T>>>;

/// One node of the chain: an item and the rest of the chain.
pub struct Node<T> {
    data: T,
    next: Link<T>,
}

impl<T> View for Node<T> {
    type V = Seq<T>;

    /// The items from this node to the end of the chain.
    closed spec fn view(&self) -> Seq<T> {
        seq![self.data] + chain_items(self.next)
    }
}

/// A stack whose head node owns the whole chain behind it.
pub struct List<T> {
    ptr: Link<T>,
}

/// The items reachable from `link`, nearest first.
spec fn chain_items<T>(link: Link<T>) -> Seq<T>
    decreases link,
{
    match link {
        None => Seq::empty(),
        Some(node) => seq![node.data] + chain_items(node.next),
    }
}

impl<T> View for List<T> {
    type V = Seq<T>;

    /// The items of the stack, most recently pushed first.
    closed spec fn view(&self) -> Seq<T> {
        chain_items(self.ptr)
    }
}

impl<T> List<T> {
    /// An empty stack.
    pub fn new() -> (list: Self)
        ensures
            list@ == Seq::<T>::empty(),
    {
        List { ptr: None }
    }

    /// Puts `data` on top of the stack.
    pub fn push(&mut self, data: T)
        ensures
            final(self)@ == seq![data] + old(self)@,
    {
        let rest = self.ptr.take();
        self.ptr = Some(Box::new(Node { data, next: rest }));
    }

    /// Takes the top item off the stack; `None`, and no change, when the
    /// stack is empty.
    pub fn pop(&mut self) -> (top: Option<T>)
        ensures
            top == front(old(self)@),
            final(self)@ == behind(old(self)@),
    {
        match self.ptr.take() {
            None => None,
            Some(node) => {
                let node = *node;
                self.ptr = node.next;
                assert((seq![node.data] + chain_items(node.next)).skip(1) =~= chain_items(node.next));
                Some(node.data)
            },
        }
    }

    /// The top item, if there is one.
    pub fn peek(&self) -> (top: Option<&T>)
        ensures
            match top {
                Some(item) => front(self@) == Some(*item),
                None => front(self@) is None,
            },
    {
        match &self.ptr {
            None => None,
            Some(node) => Some(&node.data),
        }
    }

    /// The top item, open to change, if there is one: what the caller leaves
    /// in it is the top item afterwards, and nothing else changes.
    pub fn peek_mut(&mut self) -> (top: Option<&mut T>)
        ensures
            match top {
                Some(item) => front(old(self)@) == Some(*item) && final(self)@ == old(self)@.update(
                    0,
                    *final(item),
                ),
                None => front(old(self)@) is None && final(self)@ == old(self)@,
            },
    {
        match &mut self.ptr {
            None => None,
            Some(node) => Some(&mut node.data),
        }
    }
}

impl<T: std::fmt::Display> List<T> {
    /// The stack as text, top first: `[3 -> 2 -> 1 -> null]`, with each item
    /// written as `Display` writes it.
    pub fn to_string(&self) -> (text: String)
        ensures
            exists|labels: Seq<String>| #[trigger]
                labelled(self@, labels) && text@ == chain_text(label_texts(labels)),
    {
        let mut labels: Vec<String> = Vec::new();
        let mut scanner = &self.ptr;
        loop
            invariant
                labels@.len() <= self@.len(),
                labelled(self@.take(labels@.len() as int), labels@),
                chain_items(*scanner) == self@.skip(labels@.len() as int),
            ensures
                labelled(self@, labels@),
            decreases scanner,
        {
            match scanner {
                None => {
                    assert(self@.take(labels@.len() as int) =~= self@);
                    break ;
                },
                Some(node) => {
                    let ghost seen = labels@;
                    labels.push(node.data.to_string());
                    scanner = &node.next;
                    proof {
                        let n = seen.len() as int;
                        let rest = seq![node.data] + chain_items(node.next);
                        assert(self@.skip(n) == rest);
                        assert(rest.len() > 0);
                        assert(self@[n] == rest[0]);
                        assert(chain_items(node.next) =~= rest.skip(1));
                        assert(self@.skip(n + 1) =~= rest.skip(1));
                        assert forall|i: int| 0 <= i < n + 1 implies to_string_from_display_ensures::<T>(
                            &self@.take(n + 1)[i],
                            #[trigger] labels@[i],
                        ) by {
                            if i < n {
                                assert(self@.take(n)[i] == self@.take(n + 1)[i]);
                                assert(seen[i] == labels@[i]);
                            }
                        }
                    }
                },
            }
        }
        render_labels(&labels)
    }
}

impl<T> Drop for List<T> {
    /// Releases the chain one node at a time, so that the depth of the call
    /// stack does not grow with the length of the list.
    fn drop(&mut self)
        ensures
            final(self)@ == Seq::<T>::empty(),
        opens_invariants none
        no_unwind
    {
        let mut scanner: Link<T> = None;
        std::mem::swap(&mut self.ptr, &mut scanner);
        loop
            decreases scanner,
        {
            match scanner {
                None => {
                    break ;
                },
                Some(node) => {
                    let node = *node;
                    scanner = node.next;
                },
            }
        }
    }
}

/// A walk that empties the stack: each step pops the top item.
pub struct IntoIter<T>(List<T>);

impl<T> View for IntoIter<T> {
    type V = Seq<T>;

    /// The items still to come, next first.
    closed spec fn view(&self) -> Seq<T> {
        self.0@
    }
}

impl<T> List<T> {
    /// Turns the stack into a walk over its items by value, top first.
    pub fn into_iter(self) -> (walk: IntoIter<T>)
        ensures
            walk@ == self@,
    {
        IntoIter(self)
    }
}

impl<T> IntoIter<T> {
    /// The next item, or `None` once the walk is over, from then on.
    pub fn next(&mut self) -> (item: Option<T>)
        ensures
            item == front(old(self)@),
            final(self)@ == behind(old(self)@),
    {
        self.0.pop()
    }
}

/// A walk over the items of a stack by shared reference.
pub struct Iter<'a, T> {
    ptr: Option<&'a Node<T>>,
}

impl<'a, T> View for Iter<'a, T> {
    type V = Seq<T>;

    /// The items still to come, next first.
    closed spec fn view(&self) -> Seq<T> {
        match self.ptr {
            None => Seq::empty(),
            Some(node) => seq![node.data] + chain_items(node.next),
        }
    }
}

impl<T> List<T> {
    /// A walk over the items as they are now, top first. It leaves the stack
    /// as it is, so every call starts again from the top.
    pub fn iter(&self) -> (walk: Iter<'_, T>)
        ensures
            walk@ == self@,
    {
        match &self.ptr {
            None => Iter { ptr: None },
            Some(node) => Iter { ptr: Some(&**node) },
        }
    }
}

impl<'a, T> Iter<'a, T> {
    /// The next item, or `None` once the walk is over, from then on.
    pub fn next(&mut self) -> (item: Option<&'a T>)
        ensures
            match item {
                Some(next) => front(old(self)@) == Some(*next),
                None => front(old(self)@) is None,
            },
            final(self)@ == behind(old(self)@),
    {
        match self.ptr {
            None => None,
            Some(node) => {
                self.ptr = match &node.next {
                    None => None,
                    Some(next) => Some(&**next),
                };
                assert((seq![node.data] + chain_items(node.next)).skip(1) =~= chain_items(node.next));
                Some(&node.data)
            },
        }
    }
}

/// A walk over the items of a stack by mutable reference.
pub struct IterMut<'a, T> {
    ptr: Option<&'a mut Node<T>>,
}

impl<'a, T> IterMut<'a, T> {
    /// The node that the walk stands at; `None` once it is over.
    pub closed spec fn cursor(&self) -> Option<&'a mut Node<T>> {
        self.ptr
    }
}

impl<'a, T> View for IterMut<'a, T> {
    type V = Seq<T>;

    /// The items still to come, next first, as they are now.
    open spec fn view(&self) -> Seq<T> {
        match self.cursor() {
            None => Seq::empty(),
            Some(node) => node@,
        }
    }
}

impl<'a, T> IterMut<'a, T> {
    /// The next item, open to change, or `None` once the walk is over, from
    /// then on. What the walk will have made of the items that were still to
    /// come is what the caller leaves in this one, then what the rest of the
    /// walk makes of the others.
    pub fn next(&mut self) -> (item: Option<&'a mut T>)
        ensures
            match item {
                Some(next) => front(old(self)@) == Some(*next),
                None => front(old(self)@) is None,
            },
            final(self)@ == behind(old(self)@),
            match old(self).cursor() {
                None => final(self).cursor() is None,
                Some(node) => item is Some && final(node)@ == seq![*final(item.unwrap())] + (
                match final(self).cursor() {
                    None => Seq::empty(),
                    Some(next) => final(next)@,
                }),
            },
    {
        match self.ptr.take() {
            None => None,
            Some(node) => {
                self.ptr = match &mut node.next {
                    None => None,
                    Some(next) => Some(&mut **next),
                };
                Some(&mut node.data)
            },
        }
    }

    /// A walk that is given up keeps the items still to come as they are.
    pub proof fn lemma_given_up(self)
        requires
            has_resolved(self),
        ensures
            match self.cursor() {
                None => true,
                Some(node) => final(node)@ == self@,
            },
    {
    }
}

impl<T> List<T> {
    /// A walk over the items by mutable reference, top first. When it has
    /// ended the stack holds what the walk left in each item.
    pub fn iter_mut(&mut self) -> (walk: IterMut<'_, T>)
        ensures
            walk@ == old(self)@,
            final(self)@ == (match walk.cursor() {
                None => Seq::empty(),
                Some(node) => final(node)@,
            }),
    {
        match &mut self.ptr {
            None => IterMut { ptr: None },
            Some(node) => IterMut { ptr: Some(&mut **node) },
        }
    }
}

} // verus!
