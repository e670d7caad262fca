//! The order in which items leave a list. Every list of this crate is
//! specified against the sequence of its items, front first; this module
//! names what happens at the front of such a sequence and proves that items
//! put in front come back last in, first out, and that items put at the back
//! come back first in, first out.

use vstd::prelude::*;

verus! {

/// The item at the front, if there is one.
pub open spec fn front<T>(items: Seq<T>) -> Option<T> {
    if items.len() > 0 {
        Some(items[0])
    } else {
        None
    }
}

/// The items behind the front; none where there is no front.
pub open spec fn behind<T>(items: Seq<T>) -> Seq<T> {
    if items.len() > 0 {
        items.skip(1)
    } else {
        Seq::empty()
    }
}

/// `items` after each of `new` was put in front of it, in order.
pub open spec fn stacked<T>(items: Seq<T>, new: Seq<T>) -> Seq<T>
    decreases new.len(),
{
    if new.len() == 0 {
        items
    } else {
        seq![new.last()] + stacked(items, new.drop_last())
    }
}

/// `items` after each of `new` was put behind it, in order.
pub open spec fn queued<T>(items: Seq<T>, new: Seq<T>) -> Seq<T>
    decreases new.len(),
{
    if new.len() == 0 {
        items
    } else {
        queued(items, new.drop_last()).push(new.last())
    }
}

/// What `n` removals at the front of `items` give, in order.
pub open spec fn taken<T>(items: Seq<T>, n: nat) -> Seq<Option<T>>
    decreases n,
{
    if n == 0 {
        Seq::empty()
    } else {
        seq![front(items)] + taken(behind(items), (n - 1) as nat)
    }
}

/// What `n` removals at the front of `items` leave.
pub open spec fn left<T>(items: Seq<T>, n: nat) -> Seq<T>
    decreases n,
{
    if n == 0 {
        items
    } else {
        left(behind(items), (n - 1) as nat)
    }
}

/// Putting items in front one by one reverses them.
pub proof fn lemma_stacked<T>(items: Seq<T>, new: Seq<T>)
    ensures
        stacked(items, new) == new.reverse() + items,
    decreases new.len(),
{
    if new.len() > 0 {
        lemma_stacked(items, new.drop_last());
        assert(new.reverse() =~= seq![new.last()] + new.drop_last().reverse());
        assert(seq![new.last()] + (new.drop_last().reverse() + items) =~= new.reverse() + items);
    } else {
        assert(new.reverse() + items =~= items);
    }
}

/// Putting items behind one by one keeps their order.
pub proof fn lemma_queued<T>(items: Seq<T>, new: Seq<T>)
    ensures
        queued(items, new) == items + new,
    decreases new.len(),
{
    if new.len() > 0 {
        lemma_queued(items, new.drop_last());
        assert((items + new.drop_last()).push(new.last()) =~= items + new);
    } else {
        assert(items + new =~= items);
    }
}

/// Removals give the items front first for as long as there are any, and
/// nothing from then on; they leave what lies behind the items removed.
pub proof fn lemma_taken<T>(items: Seq<T>, n: nat)
    ensures
        taken(items, n).len() == n,
        forall|i: int|
            0 <= i < n ==> #[trigger] taken(items, n)[i] == if i < items.len() {
                Some(items[i])
            } else {
                None
            },
        left(items, n) == if n <= items.len() {
            items.skip(n as int)
        } else {
            Seq::empty()
        },
    decreases n,
{
    if n > 0 {
        let rest = behind(items);
        let m = (n - 1) as nat;
        lemma_taken(rest, m);
        assert forall|i: int| 0 <= i < n implies #[trigger] taken(items, n)[i] == if i
            < items.len() {
            Some(items[i])
        } else {
            None
        } by {
            if i > 0 {
                assert(taken(items, n)[i] == taken(rest, m)[i - 1]);
            }
        }
        if n <= items.len() {
            assert(rest.skip(m as int) =~= items.skip(n as int));
        }
    } else {
        assert(items.skip(0) =~= items);
    }
}

/// Last in, first out: after the items of `new` were put in front one by
/// one, as many removals give them back in reverse and leave what was there
/// before.
pub proof fn lemma_last_in_first_out<T>(items: Seq<T>, new: Seq<T>)
    ensures
        taken(stacked(items, new), new.len()) == new.reverse().map_values(|item: T| Some(item)),
        left(stacked(items, new), new.len()) == items,
{
    lemma_stacked(items, new);
    lemma_taken(stacked(items, new), new.len());
    assert(taken(stacked(items, new), new.len()) =~= new.reverse().map_values(
        |item: T| Some(item),
    ));
    assert((new.reverse() + items).skip(new.len() as int) =~= items);
}

/// First in, first out: after the items of `new` were put behind `items` one
/// by one, removals give first the items that were there, then those of
/// `new` in the order in which they came, and leave nothing.
pub proof fn lemma_first_in_first_out<T>(items: Seq<T>, new: Seq<T>)
    ensures
        taken(queued(items, new), items.len() + new.len()) == (items + new).map_values(
            |item: T| Some(item),
        ),
        left(queued(items, new), items.len() + new.len()) == Seq::<T>::empty(),
{
    lemma_queued(items, new);
    lemma_taken(queued(items, new), items.len() + new.len());
    assert(taken(queued(items, new), items.len() + new.len()) =~= (items + new).map_values(
        |item: T| Some(item),
    ));
    assert((items + new).skip((items.len() + new.len()) as int) =~= Seq::<T>::empty());
}

/// Nothing comes out of nothing: every removal from an empty sequence gives
/// `None` and leaves it empty, however often it is repeated.
pub proof fn lemma_empty_stays_empty<T>(n: nat)
    ensures
        taken(Seq::<T>::empty(), n) == Seq::new(n, |i: int| None::<T>),
        left(Seq::<T>::empty(), n) == Seq::<T>::empty(),
{
    lemma_taken(Seq::<T>::empty(), n);
    assert(taken(Seq::<T>::empty(), n) =~= Seq::new(n, |i: int| None::<T>));
}

/// An item put in front is at the front, and behind it lies what was there
/// before: taking the front away again undoes putting it there.
pub proof fn lemma_put_in_front<T>(items: Seq<T>, item: T)
    ensures
        front(seq![item] + items) == Some(item),
        behind(seq![item] + items) == items,
{
    assert((seq![item] + items).skip(1) =~= items);
}

} // verus!
