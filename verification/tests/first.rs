use linked_list::first::List;

#[test]
fn first_basic() {
    let mut lst = List::<u32>::new();
    assert!(lst.pop() == None);

    lst.push(1);
    lst.push(2);
    lst.push(3);

    assert!(lst.pop() == Some(3));
    assert!(lst.pop() == Some(2));
    assert!(lst.pop() == Some(1));
    assert!(lst.pop() == None);
}

#[test]
fn long_list() {
    let mut lst = List::<u32>::new();
    for i in 0..100000 {
        lst.push(i);
    }
}

#[test]
fn display() {
    let mut lst = List::<u32>::new();
    assert!("[null]" == format!("{lst}", lst = lst.to_string()));

    lst.push(1);
    assert!("[1 -> null]" == format!("{lst}", lst = lst.to_string()));
    lst.push(2);
    assert!("[2 -> 1 -> null]" == format!("{lst}", lst = lst.to_string()));
    lst.push(3);
    assert!("[3 -> 2 -> 1 -> null]" == format!("{lst}", lst = lst.to_string()));

    lst.pop();
    assert!("[2 -> 1 -> null]" == format!("{lst}", lst = lst.to_string()));
    lst.pop();
    assert!("[1 -> null]" == format!("{lst}", lst = lst.to_string()));
    lst.pop();
    assert!("[null]" == format!("{lst}", lst = lst.to_string()));
    lst.pop();
    assert!("[null]" == format!("{lst}", lst = lst.to_string()));
}

#[test]
fn first_is_last_in_first_out() {
    let mut lst = List::<u32>::new();
    for i in 0..1000 {
        lst.push(i);
    }
    for i in (0..1000).rev() {
        assert_eq!(lst.pop(), Some(i));
    }
    assert_eq!(lst.pop(), None);
}

#[test]
fn first_empty_stays_empty() {
    let mut lst = List::<u32>::new();
    for _ in 0..5 {
        assert_eq!(lst.pop(), None);
    }
    lst.push(8);
    assert_eq!(lst.pop(), Some(8));
    for _ in 0..5 {
        assert_eq!(lst.pop(), None);
        assert_eq!(lst.to_string(), "[null]");
    }
}
