use algos::sort::bubble::{bubble_sort, bubble_sort2};
use algos::sort::insertion::insertion_sort;
use algos::sort::merge::{merge_ind, merge_sort};
use algos::sort::quick::{partition, quicksort};
use algos::sort::selection::selection_sort;

#[test]
fn bubble_sort_works() {
    let mut arr0: [u64; 0] = [];
    let mut arr1 = [1];
    let mut arr = [5, 2, 4, 6, 1, 3];

    bubble_sort(&mut arr0);
    assert_eq!(arr0, []);

    bubble_sort(&mut arr1);
    assert_eq!(arr1, [1]);

    bubble_sort(&mut arr);
    assert_eq!(arr, [1, 2, 3, 4, 5, 6]);
}

#[test]
fn bubble_sort2_works() {
    let mut arr0: [u64; 0] = [];
    let mut arr1 = [1];
    let mut arr = [5, 2, 4, 6, 1, 3];

    bubble_sort2(&mut arr0);
    assert_eq!(arr0, []);

    bubble_sort2(&mut arr1);
    assert_eq!(arr1, [1]);

    bubble_sort2(&mut arr);
    assert_eq!(arr, [1, 2, 3, 4, 5, 6]);
}

#[test]
fn insertion_insertion_works() {
    let mut arr0: [u64; 0] = [];
    let mut arr1 = [1];
    let mut arr = [5, 2, 4, 6, 1, 3];

    insertion_sort(&mut arr0);
    assert_eq!(arr0, []);

    insertion_sort(&mut arr1);
    assert_eq!(arr1, [1]);

    insertion_sort(&mut arr);
    assert_eq!(arr, [1, 2, 3, 4, 5, 6]);
}

#[test]
fn insertion_sort_orders_the_first_two() {
    let mut arr = [2, 1];
    insertion_sort(&mut arr);
    assert_eq!(arr, [1, 2]);
}

#[test]
fn merge_merge_works() {
    let mut arr0: [u64; 0] = [];
    let mut arr1 = [1];
    let mut arr = [5, 2, 4, 6, 1, 3];

    merge_sort(&mut arr0);
    assert_eq!(arr0, []);

    merge_sort(&mut arr1);
    assert_eq!(arr1, [1]);

    merge_sort(&mut arr);
    assert_eq!(arr, [1, 2, 3, 4, 5, 6]);
}

#[test]
fn merge_sort_keeps_every_value() {
    let mut arr = [1, 2, 3];
    merge_sort(&mut arr);
    assert_eq!(arr, [1, 2, 3]);
    let mut arr = [3, 4, 1];
    merge_sort(&mut arr);
    assert_eq!(arr, [1, 3, 4]);
}

#[test]
fn merge_ind_sorts_only_its_range() {
    let mut arr = [9, 5, 2, 7, 1, 0];
    merge_ind(&mut arr, 1, 5);
    assert_eq!(arr, [9, 1, 2, 5, 7, 0]);
}

#[test]
fn partition_works() {
    let mut arr = [5, 2, 4, 6, 1, 3];

    let len = arr.len();
    let pivot = partition(&mut arr, 0, len - 1);

    assert_eq!(&arr[pivot], &3);
    assert_eq!(&arr[..pivot], [2, 1]);
    assert_eq!(&arr[pivot + 1..], [6, 5, 4]);
}

#[test]
fn quicksort_works() {
    let mut arr0: [u64; 0] = [];
    let mut arr1 = [1];
    let mut arr = [5, 2, 4, 6, 1, 3];

    quicksort(&mut arr0);
    assert_eq!(arr0, []);

    quicksort(&mut arr1);
    assert_eq!(arr1, [1]);

    quicksort(&mut arr);
    assert_eq!(arr, [1, 2, 3, 4, 5, 6]);
}

#[test]
fn selection_sort_works() {
    let mut arr0: [u64; 0] = [];
    let mut arr1 = [1];
    let mut arr = [5, 2, 4, 6, 1, 3];

    selection_sort(&mut arr0);
    assert_eq!(arr0, []);

    selection_sort(&mut arr1);
    assert_eq!(arr1, [1]);

    selection_sort(&mut arr);
    assert_eq!(arr, [1, 2, 3, 4, 5, 6]);
}

#[test]
fn sorts_agree_on_duplicates_and_extremes() {
    let input = [u64::MAX, 0, 7, 7, 3, u64::MAX, 0, 1];
    let expected = [0, 0, 1, 3, 7, 7, u64::MAX, u64::MAX];
    let sorters: [fn(&mut [u64]); 6] =
        [bubble_sort, bubble_sort2, insertion_sort, merge_sort, quicksort, selection_sort];
    for sorter in sorters {
        let mut arr = input;
        sorter(&mut arr);
        assert_eq!(arr, expected);
    }
}
