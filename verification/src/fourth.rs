//! A first-in, first-out queue as a chain of linked slots, with a cursor on
//! the last slot so that appending takes constant time.
//!
//! The slots live in one arena and name each other by position. The arena
//! alone owns them: `head`, `tail` and the links between slots are cursors,
//! which take part in finding a slot and never in owning it. A slot that an
//! item has left is kept on a spare chain and used again by a later `push`.

use crate::order::{behind, front};
use vstd::prelude::*;

verus! {

/// One slot of the arena. In the queue it holds an item and leads to the
/// slot of the item that came next; spare, it holds nothing and leads to the
/// next spare slot.
struct Slot<T> {
    elem: Option<T>,
    next: Option<usize>,
}

/// A queue: items enter at the tail and leave at the head.
pub struct List<T> {
    slots: Vec<Slot<T>>,
    head: Option<usize>,
    tail: Option<usize>,
    free: Option<usize>,
    chain: Ghost<Seq<usize>>,
    spare: Ghost<Seq<usize>>,
}

/// `order` names slots of which each leads to the next and the last leads
/// nowhere, none of them twice, and `first` is the first of them.
spec fn strung<T>(slots: Seq<Slot<T>>, first: Option<usize>, order: Seq<usize>) -> bool {
    &&& order.no_duplicates()
    &&& first == if order.len() > 0 {
        Some(order[0])
    } else {
        None
    }
    &&& forall|i: int|
        0 <= i < order.len() ==> {
            &&& (#[trigger] order[i]) < slots.len()
            &&& slots[order[i] as int].next == if i + 1 < order.len() {
                Some(order[i + 1])
            } else {
                None
            }
        }
}

impl<T> List<T> {
    /// The queue is sound: the slots that hold its items are strung from
    /// `head` to `tail` in the order in which the items came, the others are
    /// strung on the spare chain, and every slot is on one of the two.
    pub closed spec fn wf(&self) -> bool {
        &&& strung(self.slots@, self.head, self.chain@)
        &&& strung(self.slots@, self.free, self.spare@)
        &&& self.tail == if self.chain@.len() > 0 {
            Some(self.chain@.last())
        } else {
            None
        }
        &&& forall|i: int|
            0 <= i < self.chain@.len() ==> self.slots@[#[trigger] self.chain@[i] as int].elem is Some
        &&& forall|i: int|
            0 <= i < self.spare@.len() ==> self.slots@[#[trigger] self.spare@[i] as int].elem is None
        &&& self.chain@.len() + self.spare@.len() == self.slots@.len()
    }
}

impl<T> View for List<T> {
    type V = Seq<T>;

    /// The items of the queue, oldest first.
    closed spec fn view(&self) -> Seq<T> {
        Seq::new(self.chain@.len(), |i: int| self.slots@[self.chain@[i] as int].elem.unwrap())
    }
}

impl<T> List<T> {
    /// The cursor on the slot of the oldest item; `None` when there is none.
    pub closed spec fn head_cursor(&self) -> Option<usize> {
        self.head
    }

    /// The cursor on the slot of the newest item; `None` when there is none.
    pub closed spec fn tail_cursor(&self) -> Option<usize> {
        self.tail
    }

    /// Where the link of `slot` leads.
    pub closed spec fn next_of(&self, slot: usize) -> Option<usize> {
        if slot < self.slots@.len() {
            self.slots@[slot as int].next
        } else {
            None
        }
    }

    /// Where `steps` links lead from `from`.
    pub open spec fn reached(&self, from: Option<usize>, steps: nat) -> Option<usize>
        decreases steps,
    {
        if steps == 0 {
            from
        } else {
            match from {
                Some(slot) => self.reached(self.next_of(slot), (steps - 1) as nat),
                None => None,
            }
        }
    }

    /// From the slot of one item, links lead to the slots of the items that
    /// came after it, one item a link.
    proof fn lemma_reached(&self, start: int, steps: nat)
        requires
            self.wf(),
            0 <= start,
            start + steps < self.chain@.len(),
        ensures
            self.reached(Some(self.chain@[start]), steps) == Some(self.chain@[start + steps]),
        decreases steps,
    {
        if steps > 0 {
            assert(self.next_of(self.chain@[start]) == Some(self.chain@[start + 1]));
            self.lemma_reached(start + 1, (steps - 1) as nat);
        }
    }

    /// In a sound queue the two cursors are empty together, and exactly when
    /// the queue is. Otherwise `tail` stands on the slot that the links lead
    /// to from `head` in one step less than there are items, and the link of
    /// that slot leads nowhere.
    pub proof fn lemma_tail_is_last(&self)
        requires
            self.wf(),
        ensures
            self.tail_cursor() is None <==> self.head_cursor() is None,
            self.head_cursor() is None <==> self@.len() == 0,
            self@.len() > 0 ==> self.reached(self.head_cursor(), (self@.len() - 1) as nat)
                == self.tail_cursor(),
            self@.len() > 0 ==> self.reached(self.tail_cursor(), 1) is None,
    {
        if self.chain@.len() > 0 {
            self.lemma_reached(0, (self.chain@.len() - 1) as nat);
            let last = self.chain@.last();
            assert(self.next_of(last) is None);
            assert(self.reached(self.next_of(last), 0) is None);
        }
    }
}

impl<T> List<T> {
    /// An empty queue.
    pub fn new() -> (list: Self)
        ensures
            list.wf(),
            list@ == Seq::<T>::empty(),
    {
        let list = List {
            slots: Vec::new(),
            head: None,
            tail: None,
            free: None,
            chain: Ghost(Seq::empty()),
            spare: Ghost(Seq::empty()),
        };
        assert(list@ =~= Seq::<T>::empty());
        list
    }

    /// Puts `elem` at the tail of the queue.
    pub fn push(&mut self, elem: T)
        requires
            old(self).wf(),
        ensures
            final(self).wf(),
            final(self)@ == old(self)@.push(elem),
    {
        let at: usize;
        match self.free {
            Some(spare) => {
                self.free = self.slots[spare].next;
                self.slots[spare].elem = Some(elem);
                self.slots[spare].next = None;
                self.spare = Ghost(self.spare@.skip(1));
                at = spare;
            },
            None => {
                at = self.slots.len();
                self.slots.push(Slot { elem: Some(elem), next: None });
            },
        }
        match self.tail {
            None => {
                self.head = Some(at);
            },
            Some(last) => {
                self.slots[last].next = Some(at);
            },
        }
        self.tail = Some(at);
        self.chain = Ghost(self.chain@.push(at));
        assert(self@ =~= old(self)@.push(elem));
    }

    /// Takes the oldest item out of the queue; `None`, and no change, when
    /// the queue is empty. The slot that the item leaves becomes spare.
    pub fn pop(&mut self) -> (oldest: Option<T>)
        requires
            old(self).wf(),
        ensures
            final(self).wf(),
            oldest == front(old(self)@),
            final(self)@ == behind(old(self)@),
    {
        match self.head {
            None => {
                assert(self@ =~= Seq::<T>::empty());
                None
            },
            Some(first) => {
                let next = self.slots[first].next;
                let mut elem: Option<T> = None;
                std::mem::swap(&mut self.slots[first].elem, &mut elem);
                self.slots[first].next = self.free;
                self.free = Some(first);
                self.head = next;
                if next.is_none() {
                    self.tail = None;
                }
                self.chain = Ghost(self.chain@.skip(1));
                self.spare = Ghost(seq![first] + self.spare@);
                proof {
                    let chain = old(self).chain@;
                    let spare = old(self).spare@;
                    assert(chain[0] == first);
                    assert forall|i: int| 0 <= i < spare.len() implies spare[i] != first by {
                        assert(old(self).slots@[spare[i] as int].elem is None);
                    }
                    assert forall|i: int| 0 <= i < self.chain@.len() implies #[trigger] self.chain@[i]
                        == chain[i + 1] && self.chain@[i] != first by {}
                    assert forall|i: int| 0 < i < self.spare@.len() implies #[trigger] self.spare@[i]
                        == spare[i - 1] by {}
                    assert(strung(self.slots@, self.head, self.chain@));
                    assert(strung(self.slots@, self.free, self.spare@));
                    assert(self@ =~= old(self)@.skip(1));
                }
                elem
            },
        }
    }

    /// The oldest item, if there is one.
    pub fn peek(&self) -> (oldest: Option<&T>)
        requires
            self.wf(),
        ensures
            match oldest {
                Some(item) => front(self@) == Some(*item),
                None => front(self@) is None,
            },
    {
        match self.head {
            None => None,
            Some(first) => self.slots[first].elem.as_ref(),
        }
    }

    /// The oldest item, open to change, if there is one: what the caller
    /// leaves in it is the oldest item afterwards, and nothing else changes.
    pub fn peek_mut(&mut self) -> (oldest: Option<&mut T>)
        requires
            old(self).wf(),
        ensures
            final(self).wf(),
            match oldest {
                Some(item) => front(old(self)@) == Some(*item) && final(self)@ == old(self)@.update(
                    0,
                    *final(item),
                ),
                None => front(old(self)@) is None && final(self)@ == old(self)@,
            },
    {
        match self.head {
            None => None,
            Some(first) => self.slots[first].elem.as_mut(),
        }
    }
}

/// A walk that empties the queue: each step takes the oldest item out.
pub struct IntoIter<T>(List<T>);

impl<T> IntoIter<T> {
    /// The queue that the walk empties is sound.
    pub closed spec fn wf(&self) -> bool {
        self.0.wf()
    }
}

impl<T> View for IntoIter<T> {
    type V = Seq<T>;

    /// The items still to come, next first.
    closed spec fn view(&self) -> Seq<T> {
        self.0@
    }
}

impl<T> List<T> {
    /// Turns the queue into a walk over its items by value, oldest first.
    pub fn into_iter(self) -> (walk: IntoIter<T>)
        requires
            self.wf(),
        ensures
            walk.wf(),
            walk@ == self@,
    {
        IntoIter(self)
    }
}

impl<T> IntoIter<T> {
    /// The next item, or `None` once the walk is over, from then on.
    pub fn next(&mut self) -> (item: Option<T>)
        requires
            old(self).wf(),
        ensures
            final(self).wf(),
            item == front(old(self)@),
            final(self)@ == behind(old(self)@),
    {
        self.0.pop()
    }
}

/// A walk over the items of a queue by shared reference.
pub struct Iter<'a, T> {
    list: &'a List<T>,
    next: Option<usize>,
    done: Ghost<nat>,
}

impl<'a, T> Iter<'a, T> {
    /// The walk stands in a sound queue, at the slot of the first item that
    /// it has not given yet.
    pub closed spec fn wf(&self) -> bool {
        &&& self.list.wf()
        &&& self.done@ <= self.list.chain@.len()
        &&& self.next == if self.done@ < self.list.chain@.len() {
            Some(self.list.chain@[self.done@ as int])
        } else {
            None
        }
    }
}

impl<'a, T> View for Iter<'a, T> {
    type V = Seq<T>;

    /// The items still to come, next first.
    closed spec fn view(&self) -> Seq<T> {
        self.list@.skip(self.done@ as int)
    }
}

impl<T> List<T> {
    /// A walk over the items as they are now, oldest first. It leaves the
    /// queue as it is, so every call starts again from the head.
    pub fn iter(&self) -> (walk: Iter<'_, T>)
        requires
            self.wf(),
        ensures
            walk.wf(),
            walk@ == self@,
    {
        let walk = Iter { list: self, next: self.head, done: Ghost(0) };
        assert(walk@ =~= self@);
        walk
    }
}

impl<'a, T> Iter<'a, T> {
    /// The next item, or `None` once the walk is over, from then on.
    pub fn next(&mut self) -> (item: Option<&'a T>)
        requires
            old(self).wf(),
        ensures
            final(self).wf(),
            match item {
                Some(next) => front(old(self)@) == Some(*next),
                None => front(old(self)@) is None,
            },
            final(self)@ == behind(old(self)@),
    {
        match self.next {
            None => {
                assert(self@ =~= Seq::<T>::empty());
                None
            },
            Some(at) => {
                let list = self.list;
                self.next = list.slots[at].next;
                self.done = Ghost(self.done@ + 1);
                assert(self@ =~= old(self)@.skip(1));
                list.slots[at].elem.as_ref()
            },
        }
    }
}

/// A walk over the items of a queue by mutable reference.
pub struct IterMut<'a, T> {
    list: &'a mut List<T>,
    next: Option<usize>,
    done: Ghost<nat>,
}

impl<'a, T> IterMut<'a, T> {
    /// The queue that the walk goes over.
    pub closed spec fn target(&self) -> &'a mut List<T> {
        self.list
    }

    /// How many items the walk has given.
    pub closed spec fn passed(&self) -> nat {
        self.done@
    }

    /// The walk stands at the slot of the first item that it has not given
    /// yet.
    pub closed spec fn on_course(&self) -> bool {
        &&& self.done@ <= self.list.chain@.len()
        &&& self.next == if self.done@ < self.list.chain@.len() {
            Some(self.list.chain@[self.done@ as int])
        } else {
            None
        }
    }

    /// The queue is sound and the walk has its place in it.
    pub open spec fn wf(&self) -> bool {
        self.target().wf() && self.on_course()
    }

    /// All items of the queue as they are now, oldest first.
    pub open spec fn items(&self) -> Seq<T> {
        (*self.target())@
    }
}

impl<'a, T> View for IterMut<'a, T> {
    type V = Seq<T>;

    /// The items still to come, next first, as they are now.
    open spec fn view(&self) -> Seq<T> {
        self.items().skip(self.passed() as int)
    }
}

impl<T> List<T> {
    /// A walk over the items by mutable reference, oldest first. When it has
    /// ended the queue is what the walk made of it.
    pub fn iter_mut(&mut self) -> (walk: IterMut<'_, T>)
        requires
            old(self).wf(),
        ensures
            walk.wf(),
            walk.items() == old(self)@,
            walk.passed() == 0,
            *final(self) == *final(walk.target()),
    {
        let next = self.head;
        IterMut { list: self, next, done: Ghost(0) }
    }
}

impl<'a, T> IterMut<'a, T> {
    /// The next item, open to change, or `None` once the walk is over, from
    /// then on. What the caller leaves in the item is what the queue holds
    /// in its place.
    pub fn next(&mut self) -> (item: Option<&mut T>)
        requires
            old(self).wf(),
        ensures
            final(self).wf(),
            *final(final(self).target()) == *final(old(self).target()),
            match item {
                Some(next) => {
                    &&& old(self).passed() < old(self).items().len()
                    &&& *next == old(self).items()[old(self).passed() as int]
                    &&& final(self).items() == old(self).items().update(
                        old(self).passed() as int,
                        *final(next),
                    )
                    &&& final(self).passed() == old(self).passed() + 1
                },
                None => {
                    &&& old(self).passed() == old(self).items().len()
                    &&& final(self).items() == old(self).items()
                    &&& final(self).passed() == old(self).passed()
                },
            },
    {
        match self.next {
            None => None,
            Some(at) => {
                self.next = self.list.slots[at].next;
                self.done = Ghost(self.done@ + 1);
                self.list.slots[at].elem.as_mut()
            },
        }
    }

    /// When the walk is given up, the queue is as the walk left it.
    pub proof fn lemma_given_up(self)
        requires
            has_resolved(self),
        ensures
            *final(self.target()) == *self.target(),
    {
    }
}

} // verus!
