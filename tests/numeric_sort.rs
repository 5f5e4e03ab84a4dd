use quicksort::sort;

#[test]
fn test_quicksort() {
    let mut numbers: Vec<i64> = vec![
        2870, 14, 1733, 905, 2411, 67, 1288, 2999, 450, 1876, 3, 2650, 1102, 739, 2203, 318,
        1550, 2784, 96, 1999, 621, 2333, 1417, 842, 2555,
    ];
    sort(&mut numbers);

    let mut elem = numbers[0];
    for idx in 1..numbers.len() {
        assert!(elem < numbers[idx]);
        elem = numbers[idx];
    }
}

#[test]
fn sorts_small_scenario() {
    let mut v: Vec<i64> = vec![5, 3, 8, 1, 9, 2];
    let r = sort(&mut v);
    assert_eq!(r, &vec![1, 2, 3, 5, 8, 9]);
    assert_eq!(v, vec![1, 2, 3, 5, 8, 9]);
}

#[test]
fn keeps_every_element_with_duplicates() {
    let mut v: Vec<i64> = vec![4, -1, 4, 0, i64::MIN, 7, -1, i64::MAX, 4, 0];
    let mut expected = v.clone();
    expected.sort();
    sort(&mut v);
    assert_eq!(v, expected);
    assert_eq!(v.iter().filter(|x| **x == 4).count(), 3);
}

#[test]
fn adjacent_elements_ascend() {
    let mut v: Vec<i64> = vec![10, -20, 30, -40, 50, -60, 0, 0, 15];
    sort(&mut v);
    for i in 1..v.len() {
        assert!(v[i - 1] <= v[i]);
    }
}

#[test]
fn sorted_input_is_left_as_is() {
    let mut v: Vec<i64> = vec![-3, -3, 0, 2, 2, 9, 100];
    sort(&mut v);
    assert_eq!(v, vec![-3, -3, 0, 2, 2, 9, 100]);
    let once = v.clone();
    sort(&mut v);
    assert_eq!(v, once);
}

#[test]
fn empty_and_single_are_unchanged() {
    let mut empty: Vec<i64> = Vec::new();
    sort(&mut empty);
    assert!(empty.is_empty());
    let mut one: Vec<i64> = vec![42];
    sort(&mut one);
    assert_eq!(one, vec![42]);
}

#[test]
fn all_equal_elements() {
    let mut v: Vec<i64> = vec![7; 50];
    sort(&mut v);
    assert_eq!(v, vec![7; 50]);
}

#[test]
fn long_descending_input() {
    let n: i64 = 10_000;
    let mut v: Vec<i64> = (0..n).rev().collect();
    sort(&mut v);
    let expected: Vec<i64> = (0..n).collect();
    assert_eq!(v, expected);
}
