use linked_list::third::List;

#[test]
fn lib_basic() {
    let list = List::new();
    assert_eq!(list.head(), None);

    let list = list.prepend(1).prepend(2).prepend(3);
    assert_eq!(list.head(), Some(&3));

    let list = list.tail();
    assert_eq!(list.head(), Some(&2));

    let list = list.tail();
    assert_eq!(list.head(), Some(&1));

    let list = list.tail();
    assert_eq!(list.head(), None);

    let list = list.tail();
    assert_eq!(list.head(), None);
}

#[test]
fn lib_long_list() {
    let mut lst = List::<u32>::new();
    for i in 0..100000 {
        lst = lst.prepend(i);
    }
}

fn items(list: &List<u32>) -> Vec<u32> {
    let mut out = Vec::new();
    let mut at = list.tail();
    if let Some(head) = list.head() {
        out.push(*head);
    }
    while let Some(head) = at.head() {
        out.push(*head);
        at = at.tail();
    }
    out
}

#[test]
fn tail_shares_and_leaves_the_source_alone() {
    let a = List::new();
    let b = a.prepend(1).prepend(2);
    let c = b.tail();
    assert_eq!(c.head(), Some(&1));
    assert_eq!(b.head(), Some(&2));
    assert_eq!(items(&b), vec![2, 1]);
    assert_eq!(items(&c), vec![1]);
    assert_eq!(a.head(), None);
}

#[test]
fn prepend_leaves_the_source_alone() {
    let base = List::new().prepend(1).prepend(2);
    let left = base.prepend(10);
    let right = base.prepend(20);
    assert_eq!(items(&base), vec![2, 1]);
    assert_eq!(items(&left), vec![10, 2, 1]);
    assert_eq!(items(&right), vec![20, 2, 1]);
}

#[test]
fn walking_by_tail_twice_gives_the_same_items() {
    let list = List::new().prepend(3).prepend(2).prepend(1);
    let once = items(&list);
    let again = items(&list);
    assert_eq!(once, vec![1, 2, 3]);
    assert_eq!(once, again);
}

#[test]
fn tail_of_empty_stays_empty() {
    let list = List::<u32>::new();
    let mut at = list.tail();
    for _ in 0..5 {
        assert_eq!(at.head(), None);
        at = at.tail();
    }
    assert_eq!(list.head(), None);
}

#[test]
fn a_shared_suffix_outlives_the_list_that_made_it() {
    let long = List::new().prepend(1).prepend(2).prepend(3);
    let suffix = long.tail().tail();
    drop(long);
    assert_eq!(items(&suffix), vec![1]);
    let grown = suffix.prepend(9);
    drop(suffix);
    assert_eq!(items(&grown), vec![9, 1]);
}

#[test]
fn dropping_one_of_two_long_lists_keeps_the_other() {
    let mut base = List::<u32>::new();
    for i in 0..100000 {
        base = base.prepend(i);
    }
    let other = base.prepend(7);
    drop(base);
    assert_eq!(other.head(), Some(&7));
    assert_eq!(other.tail().head(), Some(&99999));
    drop(other);
}
