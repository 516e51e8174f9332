use algos::lists::dlist::DList;
use std::cell::Cell;
use std::rc::Rc;

fn collect(list: &DList<i32>) -> Vec<i32> {
    let mut out = Vec::new();
    let mut it = list.iter();
    while let Some(v) = it.next() {
        out.push(*v);
    }
    out
}

fn from_tail(values: &[i32]) -> DList<i32> {
    let mut list = DList::new();
    for v in values {
        list.push_tail(*v);
    }
    list
}

#[test]
fn push_pop_head() {
    let mut list = DList::new();
    assert_eq!(list.len(), 0);
    assert_eq!(list.pop_head(), None);
    assert_eq!(list.len(), 0);

    list.push_head(1);
    assert_eq!(list.len(), 1);
    assert_eq!(list.pop_head(), Some(1));
    assert_eq!(list.len(), 0);
    assert_eq!(list.pop_head(), None);
    assert_eq!(list.len(), 0);

    list.push_head(2);
    list.push_head(3);

    assert_eq!(list.len(), 2);
    assert_eq!(list.pop_head(), Some(3));
    assert_eq!(list.pop_head(), Some(2));

    list.push_head(4);
    list.push_head(5);

    assert_eq!(list.len(), 2);
    assert_eq!(list.pop_head(), Some(5));
    assert_eq!(list.pop_head(), Some(4));
    assert_eq!(list.pop_head(), None);
    assert_eq!(list.len(), 0);
}

#[test]
fn push_pop_tail() {
    let mut list = DList::new();
    assert_eq!(list.len(), 0);
    assert_eq!(list.pop_tail(), None);
    assert_eq!(list.len(), 0);

    list.push_tail(1);
    assert_eq!(list.len(), 1);
    assert_eq!(list.pop_tail(), Some(1));
    assert_eq!(list.len(), 0);
    assert_eq!(list.pop_tail(), None);
    assert_eq!(list.len(), 0);

    list.push_tail(2);
    list.push_tail(3);

    assert_eq!(list.len(), 2);
    assert_eq!(list.pop_tail(), Some(3));
    assert_eq!(list.pop_tail(), Some(2));

    list.push_tail(4);
    list.push_tail(5);

    assert_eq!(list.len(), 2);
    assert_eq!(list.pop_tail(), Some(5));
    assert_eq!(list.pop_tail(), Some(4));
    assert_eq!(list.pop_tail(), None);
    assert_eq!(list.len(), 0);
}

#[test]
fn push_head_pops_in_reverse_order() {
    let mut list = DList::new();
    for v in [10, 20, 30, 40] {
        list.push_head(v);
    }
    assert_eq!(list.len(), 4);
    assert_eq!(list.pop_head(), Some(40));
    assert_eq!(list.pop_head(), Some(30));
    assert_eq!(list.len(), 2);
    assert_eq!(list.pop_head(), Some(20));
    assert_eq!(list.pop_head(), Some(10));
    assert_eq!(list.pop_head(), None);
    assert_eq!(list.len(), 0);
}

#[test]
fn push_tail_pop_head_is_fifo() {
    let mut list = DList::new();
    list.push_tail(1);
    list.push_tail(2);
    list.push_tail(3);
    assert_eq!(list.pop_head(), Some(1));
    assert_eq!(list.pop_head(), Some(2));
    assert_eq!(list.pop_head(), Some(3));
    assert_eq!(list.pop_head(), None);
}

#[test]
fn reverse_walk_is_reverse_of_forward_walk() {
    let list = from_tail(&[4, 8, 15, 16, 23, 42]);
    let mut back = Vec::new();
    let mut it = list.iter();
    while let Some(v) = it.next_back() {
        back.push(*v);
    }
    let mut forward = collect(&list);
    forward.reverse();
    assert_eq!(back, forward);
    assert_eq!(back, vec![42, 23, 16, 15, 8, 4]);
}

#[test]
fn head_push_scenario_with_splits() {
    let mut list = DList::new();
    list.push_head(1);
    list.push_head(2);
    list.push_head(3);
    assert_eq!(collect(&list), vec![3, 2, 1]);
    assert_eq!(list.len(), 3);
    assert_eq!(list.pop_head(), Some(3));
    assert_eq!(collect(&list), vec![2, 1]);

    let before;
    let after;
    {
        let mut cursor = list.cursor_mut();
        cursor.move_next();
        assert_eq!(cursor.index(), Some(0));
        assert_eq!(cursor.current(), Some(&mut 2));
        before = cursor.split_before();
        assert_eq!(cursor.index(), Some(0));
        after = cursor.split_after();
    }
    assert_eq!(before.len(), 0);
    assert_eq!(collect(&after), vec![1]);
    assert_eq!(collect(&list), vec![2]);
}

#[test]
fn tail_push_scenario_with_back_iteration() {
    let list = from_tail(&[1, 2, 3, 4, 5]);
    assert_eq!(collect(&list), vec![1, 2, 3, 4, 5]);
    let mut it = list.iter();
    assert_eq!(it.next_back(), Some(&5));
    assert_eq!(it.next_back(), Some(&4));
    let mut rest = Vec::new();
    while let Some(v) = it.next() {
        rest.push(*v);
    }
    assert_eq!(rest, vec![1, 2, 3]);
}

#[test]
fn iter_from_both_ends_meets_once() {
    let list = from_tail(&[1, 2, 3]);
    let mut it = list.iter();
    assert_eq!(it.len(), 3);
    assert_eq!(it.next(), Some(&1));
    assert_eq!(it.next_back(), Some(&3));
    assert_eq!(it.next(), Some(&2));
    assert_eq!(it.len(), 0);
    assert_eq!(it.next_back(), None);
    assert_eq!(it.next(), None);
}

#[test]
fn split_before_then_splice_before_restores() {
    for i in 0..5 {
        let mut list = from_tail(&[1, 2, 3, 4, 5]);
        {
            let mut cursor = list.cursor_mut();
            for _ in 0..=i {
                cursor.move_next();
            }
            assert_eq!(cursor.index(), Some(i));
            let front = cursor.split_before();
            assert_eq!(front.len(), i);
            assert_eq!(cursor.index(), Some(0));
            cursor.splice_before(front);
            assert_eq!(cursor.index(), Some(i));
            assert_eq!(cursor.current(), Some(&mut (i as i32 + 1)));
        }
        assert_eq!(collect(&list), vec![1, 2, 3, 4, 5]);
        assert_eq!(list.len(), 5);
    }
}

#[test]
fn split_before_at_ghost_takes_everything() {
    let mut list = from_tail(&[7, 8, 9]);
    let taken;
    {
        let mut cursor = list.cursor_mut();
        assert_eq!(cursor.index(), None);
        taken = cursor.split_before();
        assert_eq!(cursor.index(), None);
        cursor.splice_before(taken);
    }
    assert_eq!(collect(&list), vec![7, 8, 9]);
    let mut cursor = list.cursor_mut();
    let all = cursor.split_after();
    assert_eq!(collect(&all), vec![7, 8, 9]);
    assert_eq!(list.len(), 0);
}

#[test]
fn splice_before_interior_and_ghost() {
    let mut list = from_tail(&[1, 2, 5]);
    {
        let mut cursor = list.cursor_mut();
        cursor.move_prev();
        assert_eq!(cursor.index(), Some(2));
        cursor.splice_before(from_tail(&[3, 4]));
        assert_eq!(cursor.index(), Some(4));
        assert_eq!(cursor.current(), Some(&mut 5));
        assert_eq!(cursor.peek_prev(), Some(&mut 4));
        assert_eq!(cursor.peek_next(), None);
        cursor.move_next();
        assert_eq!(cursor.index(), None);
        cursor.splice_before(from_tail(&[6]));
        cursor.splice_before(DList::new());
    }
    assert_eq!(collect(&list), vec![1, 2, 3, 4, 5, 6]);
}

#[test]
fn cursor_moves_and_writes() {
    let mut list = from_tail(&[1, 2, 3]);
    {
        let mut cursor = list.cursor_mut();
        assert_eq!(cursor.current(), None);
        assert_eq!(cursor.peek_next(), None);
        cursor.move_next();
        cursor.move_next();
        assert_eq!(cursor.index(), Some(1));
        assert_eq!(cursor.peek_next(), Some(&mut 3));
        assert_eq!(cursor.peek_prev(), Some(&mut 1));
        if let Some(v) = cursor.current() {
            *v = 20;
        }
        cursor.move_prev();
        cursor.move_prev();
        assert_eq!(cursor.index(), None);
        cursor.move_prev();
        assert_eq!(cursor.index(), Some(2));
        cursor.move_next();
        assert_eq!(cursor.index(), None);
    }
    assert_eq!(collect(&list), vec![1, 20, 3]);
    let mut empty: DList<i32> = DList::new();
    let mut cursor = empty.cursor_mut();
    cursor.move_next();
    assert_eq!(cursor.index(), None);
    cursor.move_prev();
    assert_eq!(cursor.index(), None);
}

#[test]
fn split_after_in_the_middle() {
    let mut list = from_tail(&[1, 2, 3, 4]);
    let back;
    {
        let mut cursor = list.cursor_mut();
        cursor.move_next();
        cursor.move_next();
        back = cursor.split_after();
        assert_eq!(cursor.index(), Some(1));
        assert_eq!(cursor.peek_next(), None);
    }
    assert_eq!(collect(&list), vec![1, 2]);
    assert_eq!(collect(&back), vec![3, 4]);
    assert_eq!(back.head(), Some(&3));
    assert_eq!(back.tail(), Some(&4));
}

#[test]
fn ends_and_clear() {
    let mut list = from_tail(&[5, 6, 7]);
    assert_eq!(list.head(), Some(&5));
    assert_eq!(list.tail(), Some(&7));
    if let Some(v) = list.head_mut() {
        *v = 50;
    }
    if let Some(v) = list.tail_mut() {
        *v = 70;
    }
    assert_eq!(collect(&list), vec![50, 6, 70]);
    assert!(!list.is_empty());
    list.clear();
    assert!(list.is_empty());
    assert_eq!(list.head(), None);
    assert_eq!(list.tail(), None);
    assert_eq!(list.head_mut(), None);
    list.push_tail(1);
    assert_eq!(collect(&list), vec![1]);
}

#[test]
fn iter_mut_changes_values() {
    let mut list = from_tail(&[1, 2, 3]);
    {
        let mut it = list.iter_mut();
        assert_eq!(it.len(), 3);
        if let Some(v) = it.next() {
            *v *= 10;
        }
        if let Some(v) = it.next_back() {
            *v *= 100;
        }
        assert_eq!(it.next(), Some(&mut 2));
        assert_eq!(it.next(), None);
        assert_eq!(it.next_back(), None);
    }
    assert_eq!(collect(&list), vec![10, 2, 300]);
}

#[test]
fn into_iter_takes_from_both_ends() {
    let list = from_tail(&[1, 2, 3, 4]);
    let mut it = list.into_iter();
    assert_eq!(it.len(), 4);
    assert_eq!(it.next(), Some(1));
    assert_eq!(it.next_back(), Some(4));
    assert_eq!(it.next(), Some(2));
    assert_eq!(it.next_back(), Some(3));
    assert_eq!(it.next(), None);
    assert_eq!(it.next_back(), None);
}

#[test]
fn slots_are_reused_after_pops() {
    let mut list = DList::new();
    for round in 0..100 {
        list.push_tail(round);
        list.push_head(-round);
        assert_eq!(list.pop_tail(), Some(round));
    }
    assert_eq!(list.len(), 100);
    assert_eq!(list.head(), Some(&-99));
    assert_eq!(list.tail(), Some(&0));
}

struct Counted(Rc<Cell<usize>>);

impl Drop for Counted {
    fn drop(&mut self) {
        self.0.set(self.0.get() + 1);
    }
}

#[test]
fn dropping_a_list_drops_each_value_once() {
    let dropped = Rc::new(Cell::new(0));
    {
        let mut list = DList::new();
        for _ in 0..1000 {
            list.push_tail(Counted(dropped.clone()));
        }
        for _ in 0..10 {
            list.pop_head();
        }
        assert_eq!(dropped.get(), 10);
    }
    assert_eq!(dropped.get(), 1000);
}

#[test]
fn long_list_drops_without_deep_recursion() {
    let mut list = DList::new();
    for i in 0..200_000u32 {
        list.push_tail(i);
    }
    assert_eq!(list.len(), 200_000);
    drop(list);
}
