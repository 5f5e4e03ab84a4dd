use quicksort::{sort_gen, Comparator, Copier};
use std::cmp::Ordering;

/// A key ordered by the usual three-way comparison, `Equal` on equal values.
#[derive(Debug, PartialEq)]
struct Key(i32);

impl Comparator for Key {
    fn compare(&self, other: &Self) -> Ordering {
        self.0.cmp(&other.0)
    }
}

impl Copier for Key {
    fn copy(&self) -> Self {
        Key(self.0)
    }
}

/// A comparator that answers `Greater` whatever it is given.
#[derive(Debug, PartialEq)]
struct Stubborn(u8);

impl Comparator for Stubborn {
    fn compare(&self, _other: &Self) -> Ordering {
        Ordering::Greater
    }
}

impl Copier for Stubborn {
    fn copy(&self) -> Self {
        Stubborn(self.0)
    }
}

fn keys(v: &[i32]) -> Vec<Key> {
    v.iter().map(|x| Key(*x)).collect()
}

#[test]
fn three_way_comparator_sorts() {
    let mut v = keys(&[5, 3, 8, 1, 9, 2]);
    sort_gen(&mut v);
    assert_eq!(v, keys(&[1, 2, 3, 5, 8, 9]));
}

#[test]
fn three_way_comparator_with_equal_keys() {
    let mut v = keys(&[2, 2, 1, 2, 1, 0]);
    sort_gen(&mut v);
    assert_eq!(v, keys(&[0, 1, 1, 2, 2, 2]));
}

#[test]
fn three_way_comparator_empty_and_single() {
    let mut empty: Vec<Key> = Vec::new();
    sort_gen(&mut empty);
    assert!(empty.is_empty());
    let mut one = keys(&[4]);
    sort_gen(&mut one);
    assert_eq!(one, keys(&[4]));
}

#[test]
fn three_way_comparator_sorted_input_kept() {
    let mut v = keys(&[-4, 0, 3, 11]);
    sort_gen(&mut v);
    assert_eq!(v, keys(&[-4, 0, 3, 11]));
}

#[test]
fn three_way_comparator_long_descending_input() {
    let n: i32 = 10_000;
    let mut v: Vec<Key> = (0..n).rev().map(Key).collect();
    sort_gen(&mut v);
    let expected: Vec<Key> = (0..n).map(Key).collect();
    assert_eq!(v, expected);
}

#[test]
fn malformed_comparator_still_permutes() {
    let mut v: Vec<Stubborn> = vec![Stubborn(3), Stubborn(1), Stubborn(2), Stubborn(1)];
    sort_gen(&mut v);
    let mut got: Vec<u8> = v.iter().map(|s| s.0).collect();
    got.sort();
    assert_eq!(got, vec![1, 1, 2, 3]);
}
