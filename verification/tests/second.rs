use linked_list::second::List;

#[test]
fn second_basic() {
    let mut lst = List::<u32>::new();
    assert!(lst.pop() == None);

    lst.push(1);
    lst.push(2);
    lst.push(3);

    assert!(lst.pop() == Some(3));
    assert!(lst.pop() == Some(2));
    assert!(lst.pop() == Some(1));
    assert!(lst.pop() == None);
}

#[test]
fn peek() {
    let mut lst = List::<u32>::new();
    assert!(lst.peek() == None);

    lst.push(1);
    assert!(lst.peek() == Some(&1));
    assert!(lst.peek_mut() == Some(&mut 1));

    lst.peek_mut().map(|x| {
        *x += 1;
    });
    assert!(lst.peek() == Some(&2))
}

#[test]
fn into_iter() {
    let mut lst = List::<u32>::new();
    lst.push(1);
    lst.push(2);
    lst.push(3);

    let mut iter = lst.into_iter();
    assert!(iter.next() == Some(3));
    assert!(iter.next() == Some(2));
    assert!(iter.next() == Some(1));
    assert!(iter.next() == None);
}

#[test]
fn iter() {
    let mut lst = List::<u32>::new();
    lst.push(1);
    lst.push(2);
    lst.push(3);

    let mut iter = lst.iter();
    assert!(iter.next() == Some(&3));
    assert!(iter.next() == Some(&2));
    assert!(iter.next() == Some(&1));
    assert!(iter.next() == None);

    let mut iter = lst.iter();
    assert!(iter.next() == Some(&3));
    assert!(iter.next() == Some(&2));
    assert!(iter.next() == Some(&1));
    assert!(iter.next() == None);
}

#[test]
fn iter_mut() {
    let mut lst = List::<u32>::new();
    lst.push(1);
    lst.push(2);
    lst.push(3);

    let mut iter = lst.iter_mut();
    assert!(iter.next() == Some(&mut 3));
    assert!(iter.next() == Some(&mut 2));
    assert!(iter.next() == Some(&mut 1));
    assert!(iter.next() == None);

    let mut iter = lst.iter_mut();
    assert!(iter.next() == Some(&mut 3));
    assert!(iter.next() == Some(&mut 2));
    assert!(iter.next() == Some(&mut 1));
    assert!(iter.next() == None);

    let mut iter = lst.iter_mut();
    while let Some(v) = iter.next() {
        *v *= 10;
    }
    assert!("[30 -> 20 -> 10 -> null]" == format!("{lst}", lst = lst.to_string()))
}

#[test]
fn stack_is_last_in_first_out() {
    let mut lst = List::<u32>::new();
    for i in 0..1000 {
        lst.push(i);
    }
    for i in (0..1000).rev() {
        assert_eq!(lst.pop(), Some(i));
    }
    assert_eq!(lst.pop(), None);
}

#[test]
fn empty_stack_stays_empty() {
    let mut lst = List::<u32>::new();
    for _ in 0..5 {
        assert_eq!(lst.pop(), None);
        assert_eq!(lst.peek(), None);
        assert!(lst.peek_mut().is_none());
        assert!(lst.iter().next().is_none());
        assert!(lst.iter_mut().next().is_none());
    }
    assert_eq!(lst.to_string(), "[null]");
    let mut iter = lst.into_iter();
    assert_eq!(iter.next(), None);
    assert_eq!(iter.next(), None);
}

#[test]
fn iter_leaves_the_stack_as_it_is() {
    let mut lst = List::<u32>::new();
    lst.push(1);
    lst.push(2);
    {
        let mut iter = lst.iter();
        assert_eq!(iter.next(), Some(&2));
    }
    let mut seen = Vec::new();
    let mut iter = lst.iter();
    while let Some(v) = iter.next() {
        seen.push(*v);
    }
    assert_eq!(seen, vec![2, 1]);
    assert_eq!(lst.pop(), Some(2));
    assert_eq!(lst.pop(), Some(1));
}

#[test]
fn iter_mut_given_up_early() {
    let mut lst = List::<u32>::new();
    lst.push(1);
    lst.push(2);
    lst.push(3);
    {
        let mut iter = lst.iter_mut();
        let first = iter.next().unwrap();
        let second = iter.next().unwrap();
        *first += 100;
        *second += 200;
    }
    assert_eq!(lst.to_string(), "[103 -> 202 -> 1 -> null]");
}

#[test]
fn second_display() {
    let mut lst = List::<i64>::new();
    assert_eq!(lst.to_string(), "[null]");
    lst.push(-5);
    lst.push(12);
    assert_eq!(lst.to_string(), "[12 -> -5 -> null]");
    let mut words = List::<&str>::new();
    words.push("b");
    words.push("a");
    assert_eq!(words.to_string(), "[a -> b -> null]");
}

#[test]
fn second_long_list() {
    let mut lst = List::<u32>::new();
    for i in 0..100000 {
        lst.push(i);
    }
    assert_eq!(lst.peek(), Some(&99999));
}

#[test]
fn long_list_through_into_iter() {
    let mut lst = List::<u32>::new();
    for i in 0..100000 {
        lst.push(i);
    }
    let mut iter = lst.into_iter();
    assert_eq!(iter.next(), Some(99999));
}
