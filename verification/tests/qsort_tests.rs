use pathtracer::qsort::{partition, quick_sort};

fn less(a: &i64, b: &i64) -> bool {
    *a < *b
}

#[test]
fn sorts_a_small_vector() {
    let mut v: Vec<i64> = vec![5, 3, 8, 1, 9, 2];
    quick_sort(&mut v, &less);
    assert_eq!(v, vec![1, 2, 3, 5, 8, 9]);
}

#[test]
fn sorts_with_duplicates() {
    let mut v: Vec<i64> = vec![4, 1, 4, 1, 4, 0, 0];
    quick_sort(&mut v, &less);
    assert_eq!(v, vec![0, 0, 1, 1, 4, 4, 4]);
}

#[test]
fn sorts_empty_and_single() {
    let mut empty: Vec<i64> = Vec::new();
    quick_sort(&mut empty, &less);
    assert!(empty.is_empty());
    let mut one: Vec<i64> = vec![7];
    quick_sort(&mut one, &less);
    assert_eq!(one, vec![7]);
}

#[test]
fn sorts_descending_with_reversed_test() {
    let mut v: Vec<i64> = vec![5, 3, 8, 1];
    quick_sort(&mut v, &|a: &i64, b: &i64| *a > *b);
    assert_eq!(v, vec![8, 5, 3, 1]);
}

#[test]
fn sorts_pairs_by_first_component_and_keeps_all() {
    let mut v: Vec<(i64, usize)> = vec![(3, 0), (1, 1), (2, 2), (1, 3)];
    quick_sort(&mut v, &|a: &(i64, usize), b: &(i64, usize)| a.0 < b.0);
    let keys: Vec<i64> = v.iter().map(|p| p.0).collect();
    assert_eq!(keys, vec![1, 1, 2, 3]);
    let mut ids: Vec<usize> = v.iter().map(|p| p.1).collect();
    ids.sort();
    assert_eq!(ids, vec![0, 1, 2, 3]);
}

#[test]
fn sorts_a_long_reversed_run() {
    let mut v: Vec<i64> = (0..500).rev().collect();
    quick_sort(&mut v, &less);
    let expected: Vec<i64> = (0..500).collect();
    assert_eq!(v, expected);
}

#[test]
fn sorts_a_sub_slice_only() {
    let mut v: Vec<i64> = vec![9, 8, 7, 6, 5, 4];
    quick_sort(&mut v[1..5], &less);
    assert_eq!(v, vec![9, 5, 6, 7, 8, 4]);
}

#[test]
fn partition_puts_pivot_between_smaller_and_larger() {
    let mut v: Vec<i64> = vec![9, 4, 7, 5, 1, 8, 2];
    // the middle element is 5
    let p = partition(&mut v, &less);
    assert_eq!(v[p], 5);
    assert_eq!(p, 3);
    for k in 0..p {
        assert!(v[k] < 5);
    }
    for k in p + 1..7 {
        assert!(v[k] >= 5);
    }
    let mut all = v.clone();
    all.sort();
    assert_eq!(all, vec![1, 2, 4, 5, 7, 8, 9]);
}

#[test]
fn partition_of_a_sub_slice_leaves_the_rest_alone() {
    let mut v: Vec<i64> = vec![100, 3, 2, 1, -100];
    // the middle element of the three inner ones is 2
    let p = partition(&mut v[1..4], &less);
    assert_eq!(p, 1);
    assert_eq!(v, vec![100, 1, 2, 3, -100]);
}

#[test]
fn partition_of_one_element_returns_it() {
    let mut v: Vec<i64> = vec![42];
    assert_eq!(partition(&mut v, &less), 0);
    assert_eq!(v, vec![42]);
}
