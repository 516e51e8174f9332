use algos::chap1::{self, Order};
use algos::{binary_search, chap2, sort};

#[test]
fn binary_search_binary_search_works() {
    let a = [];
    let b = [1];
    let c = [2, 4, 5, 7, 8, 19, 20, 24, 27, 30];

    assert_eq!(binary_search::binary_search(&a, 1), None);

    assert_eq!(binary_search::binary_search(&b, 1), Some(0));
    assert_eq!(binary_search::binary_search(&b, 2), None);

    assert_eq!(binary_search::binary_search(&c, 20), Some(6));
    assert_eq!(binary_search::binary_search(&c, 18), None);
    assert_eq!(binary_search::binary_search(&c, 7), Some(3));
}

#[test]
fn insertion() {
    let mut arr0: [u64; 0] = [];
    let mut arr1: [u64; 1] = [1];
    let mut arr: [u64; 6] = [5, 2, 4, 6, 1, 3];

    chap1::insertion_sort(&mut arr0, Order::Asc);
    assert_eq!(arr0, []);

    chap1::insertion_sort(&mut arr1, Order::Asc);
    assert_eq!(arr1, [1]);

    chap1::insertion_sort(&mut arr, Order::Asc);
    assert_eq!(arr, [1, 2, 3, 4, 5, 6]);

    chap1::insertion_sort(&mut arr, Order::Desc);
    assert_eq!(arr, [6, 5, 4, 3, 2, 1]);
}

#[test]
fn chap1_sel_works() {
    let mut arr0: [u64; 0] = [];
    let mut arr1: [u64; 1] = [1];
    let mut arr: [u64; 6] = [5, 2, 4, 6, 1, 3];

    chap1::selection_sort(&mut arr0);
    assert_eq!(arr0, []);

    chap1::selection_sort(&mut arr1);
    assert_eq!(arr1, [1]);

    chap1::selection_sort(&mut arr);
    assert_eq!(arr, [1, 2, 3, 4, 5, 6]);
}

#[test]
fn chap1_merge_works() {
    let mut arr0: [u64; 0] = [];
    let mut arr1 = [1];
    let mut arr = [5, 2, 4, 6, 1, 3];

    chap1::merge_sort(&mut arr0);
    assert_eq!(arr0, []);

    chap1::merge_sort(&mut arr1);
    assert_eq!(arr1, [1]);

    chap1::merge_sort(&mut arr);
    assert_eq!(arr, [1, 2, 3, 4, 5, 6]);
}

#[test]
fn chap1_bit_add_works() {
    let a = [1, 0, 1];
    assert_eq!(chap1::bit_add(&a, &a), [0, 1, 0, 1]);

    let a = [1, 0, 1, 0];
    let b = [1, 0, 1, 1];
    assert_eq!(chap1::bit_add(&a, &b), [0, 1, 0, 0, 1]);
}

#[test]
fn chap1_binary_search_works() {
    let a = [];
    let b = [1];
    let c = [2, 4, 5, 7, 8, 19, 20, 24, 27, 30];

    assert_eq!(chap1::binary_search(&a, 1), None);

    assert_eq!(chap1::binary_search(&b, 1), Some(0));
    assert_eq!(chap1::binary_search(&b, 2), None);

    assert_eq!(chap1::binary_search(&c, 20), Some(6));
    assert_eq!(chap1::binary_search(&c, 18), None);
    assert_eq!(chap1::binary_search(&c, 7), Some(3));
}

#[test]
fn chap2_insertion_works() {
    let mut arr0: [u64; 0] = [];
    let mut arr1: [u64; 1] = [1];
    let mut arr: [u64; 6] = [5, 2, 4, 6, 1, 3];

    chap2::insertion_sort(&mut arr0);
    assert_eq!(arr0, []);

    chap2::insertion_sort(&mut arr1);
    assert_eq!(arr1, [1]);

    chap2::insertion_sort(&mut arr);
    assert_eq!(arr, [1, 2, 3, 4, 5, 6]);
}

#[test]
fn chap2_sel_works() {
    let mut arr0: [u64; 0] = [];
    let mut arr1: [u64; 1] = [1];
    let mut arr: [u64; 6] = [5, 2, 4, 6, 1, 3];

    chap2::selection_sort(&mut arr0);
    assert_eq!(arr0, []);

    chap2::selection_sort(&mut arr1);
    assert_eq!(arr1, [1]);

    chap2::selection_sort(&mut arr);
    assert_eq!(arr, [1, 2, 3, 4, 5, 6]);
}

#[test]
fn chap2_merge_works() {
    let mut arr0: [u64; 0] = [];
    let mut arr1 = [1];
    let mut arr = [5, 2, 4, 6, 1, 3];

    chap2::merge_sort(&mut arr0);
    assert_eq!(arr0, []);

    chap2::merge_sort(&mut arr1);
    assert_eq!(arr1, [1]);

    chap2::merge_sort(&mut arr);
    assert_eq!(arr, [1, 2, 3, 4, 5, 6]);
}

#[test]
fn chap2_bit_add_works() {
    let a = [1, 0, 1];
    assert_eq!(chap2::bit_add(&a, &a), [0, 1, 0, 1]);

    let a = [1, 0, 1, 0];
    let b = [1, 0, 1, 1];
    assert_eq!(chap2::bit_add(&a, &b), [0, 1, 0, 0, 1]);
}

#[test]
fn chap2_binary_search_works() {
    let a = [];
    let b = [1];
    let c = [2, 4, 5, 7, 8, 19, 20, 24, 27, 30];

    assert_eq!(chap2::binary_search(&a, 1), None);

    assert_eq!(chap2::binary_search(&b, 1), Some(0));
    assert_eq!(chap2::binary_search(&b, 2), None);

    assert_eq!(chap2::binary_search(&c, 20), Some(6));
    assert_eq!(chap2::binary_search(&c, 18), None);
    assert_eq!(chap2::binary_search(&c, 7), Some(3));
}

#[test]
fn sort_insertion_works() {
    let mut arr0: [u64; 0] = [];
    let mut arr1: [u64; 1] = [1];
    let mut arr: [u64; 6] = [5, 2, 4, 6, 1, 3];

    sort::insertion_sort(&mut arr0);
    assert_eq!(arr0, []);

    sort::insertion_sort(&mut arr1);
    assert_eq!(arr1, [1]);

    sort::insertion_sort(&mut arr);
    assert_eq!(arr, [1, 2, 3, 4, 5, 6]);
}

#[test]
fn sort_sel_works() {
    let mut arr0: [u64; 0] = [];
    let mut arr1: [u64; 1] = [1];
    let mut arr: [u64; 6] = [5, 2, 4, 6, 1, 3];

    sort::selection_sort(&mut arr0);
    assert_eq!(arr0, []);

    sort::selection_sort(&mut arr1);
    assert_eq!(arr1, [1]);

    sort::selection_sort(&mut arr);
    assert_eq!(arr, [1, 2, 3, 4, 5, 6]);
}

#[test]
fn sort_merge_works() {
    let mut arr0: [u64; 0] = [];
    let mut arr1 = [1];
    let mut arr = [5, 2, 4, 6, 1, 3];

    sort::merge_sort(&mut arr0);
    assert_eq!(arr0, []);

    sort::merge_sort(&mut arr1);
    assert_eq!(arr1, [1]);

    sort::merge_sort(&mut arr);
    assert_eq!(arr, [1, 2, 3, 4, 5, 6]);
}

#[test]
fn sort_binary_search_works() {
    let a = [];
    let b = [1];
    let c = [2, 4, 5, 7, 8, 19, 20, 24, 27, 30];

    assert_eq!(sort::binary_search(&a, 1), None);

    assert_eq!(sort::binary_search(&b, 1), Some(0));
    assert_eq!(sort::binary_search(&b, 2), None);

    assert_eq!(sort::binary_search(&c, 20), Some(6));
    assert_eq!(sort::binary_search(&c, 18), None);
    assert_eq!(sort::binary_search(&c, 7), Some(3));
}

#[test]
fn bubble_works() {
    let mut arr0: [u64; 0] = [];
    let mut arr1: [u64; 1] = [1];
    let mut arr: [u64; 6] = [5, 2, 4, 6, 1, 3];

    sort::bubble_sort(&mut arr0);
    assert_eq!(arr0, []);

    sort::bubble_sort(&mut arr1);
    assert_eq!(arr1, [1]);

    sort::bubble_sort(&mut arr);
    assert_eq!(arr, [1, 2, 3, 4, 5, 6]);
}

#[test]
fn linear_search_finds_first_match() {
    let a = [3, 1, 4, 1, 5];
    assert_eq!(chap1::linear_search(&a, 1), Some(1));
    assert_eq!(chap1::linear_search(&a, 5), Some(4));
    assert_eq!(chap1::linear_search(&a, 9), None);
    assert_eq!(chap2::linear_search(&[], 9), None);
}

#[test]
fn bit_add_carries_through() {
    assert_eq!(chap1::bit_add(&[1, 1, 1], &[1, 0, 0]), [0, 0, 0, 1]);
    assert_eq!(chap1::bit_add(&[1, 1], &[1, 1]), [0, 1, 1]);
    assert_eq!(chap1::bit_add(&[], &[]), [0]);
}

#[test]
fn ordered_insertion_sort_handles_first_pair() {
    let mut arr = [2, 1, 3];
    chap1::insertion_sort(&mut arr, Order::Asc);
    assert_eq!(arr, [1, 2, 3]);
    let mut arr = [1, 2, 2, 0];
    chap1::insertion_sort(&mut arr, Order::Desc);
    assert_eq!(arr, [2, 2, 1, 0]);
}

#[test]
fn binary_search_on_duplicates_hits_a_match() {
    let a = [1, 2, 2, 2, 3];
    let i = binary_search::binary_search(&a, 2).unwrap();
    assert_eq!(a[i], 2);
}
