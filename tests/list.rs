use algos::lists::list::List;

#[test]
fn list_peek() {
    let mut list = List::new();
    assert_eq!(list.peek(), None);
    assert_eq!(list.peek_mut(), None);

    list.push(1);
    assert_eq!(list.peek(), Some(&1));
    assert_eq!(list.peek_mut(), Some(&mut 1));
}

#[test]
fn push_pop() {
    let mut list = List::new();
    list.push(1);
    list.push(2);
    list.push(3);

    assert_eq!(list.len(), 3);

    assert_eq!(list.pop(), Some(3));
    assert_eq!(list.pop(), Some(2));

    list.push(4);
    list.push(5);

    assert_eq!(list.pop(), Some(5));
    assert_eq!(list.pop(), Some(4));
    assert_eq!(list.pop(), Some(1));
    assert_eq!(list.pop(), None);

    assert_eq!(list.len(), 0);
}

#[test]
fn list_iter() {
    let mut list = List::new();

    list.push(1);
    list.push(2);
    list.push(3);

    let mut iter = list.iter();

    assert_eq!(iter.next(), Some(&3));
    assert_eq!(iter.next(), Some(&2));
    assert_eq!(iter.next(), Some(&1));
    assert_eq!(iter.next(), None);
    assert_eq!(iter.next(), None);
}

#[test]
fn list_iter_mut() {
    let mut list = List::new();

    list.push(1);
    list.push(2);
    list.push(3);

    let mut iter = list.iter_mut();

    assert_eq!(iter.next(), Some(&mut 3));
    assert_eq!(iter.next(), Some(&mut 2));
    assert_eq!(iter.next(), Some(&mut 1));
    assert_eq!(iter.next(), None);
    assert_eq!(iter.next(), None);
}

#[test]
fn list_into_iter() {
    let mut list = List::new();
    list.push(1);
    list.push(2);
    list.push(3);

    let mut list_iter = list.into_iter();

    assert_eq!(list_iter.next(), Some(3));
    assert_eq!(list_iter.next(), Some(2));
    assert_eq!(list_iter.next(), Some(1));
    assert_eq!(list_iter.next(), None);
    assert_eq!(list_iter.next(), None);
}

#[test]
fn list_peek_mut_writes_through() {
    let mut list = List::new();
    list.push(1);
    list.push(2);
    if let Some(v) = list.peek_mut() {
        *v = 42;
    }
    assert_eq!(list.pop(), Some(42));
    assert_eq!(list.peek(), Some(&1));
}

#[test]
fn long_stack_drops_without_deep_recursion() {
    let mut list = List::new();
    for i in 0..200_000u32 {
        list.push(i);
    }
    assert_eq!(list.len(), 200_000);
    drop(list);
}
