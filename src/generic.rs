use vstd::prelude::*;
use std::cmp::Ordering;
use crate::perm::{
    lemma_same_multiset_keeps_all, lemma_swap_keeps_multiset, lemma_window_multiset, permutes_window, swap_at,
};

verus! {

/// Three-way comparison of a value against another value of the same type.
///
/// The sort moves an element in front of the pivot exactly when it compares
/// `Less` to it, so it reads `Less` as "may stand before".
pub trait Comparator: Sized {
    fn compare(&self, other: &Self) -> Ordering;
}

/// Duplication of a value into an independent one with the same content.
pub trait Copier: Sized {
    fn copy(&self) -> Self;
}

/// `compare` may answer `o` for `a` against `b`.
pub open spec fn answers<T: Comparator>(a: T, b: T, o: Ordering) -> bool {
    call_ensures(T::compare, (&a, &b), o)
}

/// `compare` gives one answer for each pair of values.
pub open spec fn compare_deterministic<T: Comparator>() -> bool {
    forall|a: T, b: T, o1: Ordering, o2: Ordering|
        #[trigger] answers(a, b, o1) && #[trigger] answers(a, b, o2) ==> o1 == o2
}

/// Where `a` does not compare `Less` to `b`, `b` does not compare `Greater` to `a`.
pub open spec fn compare_converse<T: Comparator>() -> bool {
    forall|a: T, b: T, o1: Ordering, o2: Ordering|
        #[trigger] answers(a, b, o1) && #[trigger] answers(b, a, o2) && o1 != Ordering::Less
            ==> o2 != Ordering::Greater
}

/// `copy` hands back a value equal to its argument.
pub open spec fn copy_faithful<T: Copier>() -> bool {
    forall|a: T, c: T| #[trigger] call_ensures(T::copy, (&a,), c) ==> c == a
}

/// What makes the outcome ordered: answers are deterministic and converse.
pub open spec fn consistent<T: Comparator>() -> bool {
    compare_deterministic::<T>() && compare_converse::<T>()
}

/// No element of the window `[lo, hi)` compares `Greater` to the next one.
pub open spec fn sorted_by<T: Comparator>(s: Seq<T>, lo: int, hi: int) -> bool {
    forall|i: int, j: int| lo <= i && j == i + 1 && j < hi ==> !#[trigger] answers(s[i], s[j], Ordering::Greater)
}

/// Every element of the window `[lo, hi)` compares `Less` to each later one.
pub open spec fn in_order<T: Comparator>(s: Seq<T>, lo: int, hi: int) -> bool {
    forall|i: int, j: int, o: Ordering| lo <= i < j < hi && #[trigger] answers(s[i], s[j], o) ==> o == Ordering::Less
}

/// Not comparing `Greater` carries over: if `a` is not `Greater` than `b` and
/// `b` is not `Greater` than `c`, then `a` is not `Greater` than `c`.
pub open spec fn compare_transitive<T: Comparator>() -> bool {
    forall|a: T, b: T, c: T|
        !#[trigger] answers(a, b, Ordering::Greater) && !#[trigger] answers(b, c, Ordering::Greater)
            ==> !answers(a, c, Ordering::Greater)
}

/// `compare` never answers `Equal`.
pub open spec fn compare_never_equal<T: Comparator>() -> bool {
    forall|a: T, b: T| !#[trigger] answers(a, b, Ordering::Equal)
}

/// `a` was seen to compare `Equal` or `Greater` to `b`.
pub open spec fn answers_not_less<T: Comparator>(a: T, b: T) -> bool {
    answers(a, b, Ordering::Equal) || answers(a, b, Ordering::Greater)
}

/// Holds of the values that compare `Less` to `p`.
pub open spec fn less_than<T: Comparator>(p: T) -> spec_fn(T) -> bool {
    |x: T| answers(x, p, Ordering::Less)
}

/// Under consistent answers, a value seen to compare `Less` to another never
/// compares `Greater` to it.
proof fn lemma_less_excludes_greater<T: Comparator>(a: T, b: T)
    requires
        consistent::<T>(),
        answers(a, b, Ordering::Less),
    ensures
        !answers(a, b, Ordering::Greater),
{
}

/// Under consistent answers, a value seen not to compare `Less` to another has
/// that other value not compare `Greater` to it.
proof fn lemma_not_less_flips<T: Comparator>(a: T, b: T)
    requires
        consistent::<T>(),
        answers_not_less(a, b),
    ensures
        !answers(b, a, Ordering::Greater),
{
}

/// Moves every element of `[low, high - 1)` that compares `Less` to the pivot
/// (a copy of `arr[high - 1]`) to the front of the window, puts the pivot just
/// after them, and returns the index just past the pivot.
///
/// The pivot is placed whatever it answers against its own copy, so the
/// returned index is always past `low`.
fn partition_gen<T: Comparator + Copier>(arr: &mut Vec<T>, low: usize, high: usize) -> (idx: usize)
    requires
        low < high <= old(arr).len(),
    ensures
        low < idx <= high,
        permutes_window(old(arr)@, final(arr)@, low as int, high as int),
        final(arr)@[idx - 1] == old(arr)@[high - 1],
        copy_faithful::<T>() ==> forall|k: int|
            low <= k < idx - 1 ==> answers(#[trigger] final(arr)@[k], old(arr)@[high - 1], Ordering::Less),
        copy_faithful::<T>() ==> forall|k: int|
            idx <= k < high ==> answers_not_less(#[trigger] final(arr)@[k], old(arr)@[high - 1]),
        copy_faithful::<T>() && in_order(old(arr)@, low as int, high as int) ==> idx == high && final(arr)@
            == old(arr)@,
        copy_faithful::<T>() && compare_deterministic::<T>() ==> final(arr)@.subrange(low as int, idx - 1)
            == old(arr)@.subrange(low as int, high - 1).filter(less_than(old(arr)@[high - 1])),
{
    let last = high - 1;
    let pivot: T = T::copy(&arr[last]);
    let mut idx: usize = low;
    let mut j: usize = low;
    while j < last
        invariant
            low <= idx <= j <= last,
            last + 1 == high <= arr.len(),
            call_ensures(T::copy, (&old(arr)@[last as int],), pivot),
            permutes_window(old(arr)@, arr@, low as int, high as int),
            forall|k: int| j <= k < high ==> #[trigger] arr@[k] == old(arr)@[k],
            forall|k: int| low <= k < idx ==> answers(#[trigger] arr@[k], pivot, Ordering::Less),
            forall|k: int| idx <= k < j ==> answers_not_less(#[trigger] arr@[k], pivot),
            copy_faithful::<T>() && in_order(old(arr)@, low as int, high as int) ==> idx == j && arr@
                == old(arr)@,
            compare_deterministic::<T>() ==> arr@.subrange(low as int, idx as int)
                == old(arr)@.subrange(low as int, j as int).filter(less_than(pivot)),
        decreases last - j,
    {
        let ghost prev = arr@;
        let o = T::compare(&arr[j], &pivot);
        proof {
            let t = old(arr)@.subrange(low as int, j + 1);
            assert(t.drop_last() =~= old(arr)@.subrange(low as int, j as int));
            assert(t.last() == prev[j as int]);
            reveal_with_fuel(Seq::filter, 1);
            assert(answers(prev[j as int], pivot, o));
            if compare_deterministic::<T>() && !matches!(o, Ordering::Less) {
                assert(!answers(prev[j as int], pivot, Ordering::Less));
            }
            if copy_faithful::<T>() && in_order(old(arr)@, low as int, high as int) {
                assert(answers(old(arr)@[j as int], old(arr)@[last as int], o));
            }
        }
        if matches!(o, Ordering::Less) {
            swap_in_window(arr, low, high, idx, j);
            proof {
                assert(arr@.subrange(low as int, idx + 1)
                    =~= prev.subrange(low as int, idx as int).push(prev[j as int]));
            }
            idx = idx + 1;
        }
        j = j + 1;
    }
    let ghost before = arr@;
    swap_in_window(arr, low, high, idx, last);
    proof {
        assert(arr@.subrange(low as int, idx as int) =~= before.subrange(low as int, idx as int));
    }
    idx + 1
}

/// Swaps two positions of the window `[low, high)`, which keeps the window a
/// permutation of what it held.
fn swap_in_window<T>(arr: &mut Vec<T>, low: usize, high: usize, i: usize, j: usize)
    requires
        low <= i < high,
        low <= j < high,
        high <= old(arr).len(),
    ensures
        final(arr)@ == old(arr)@.update(i as int, old(arr)@[j as int]).update(j as int, old(arr)@[i as int]),
        forall|s: Seq<T>| permutes_window(s, old(arr)@, low as int, high as int)
            ==> #[trigger] permutes_window(s, final(arr)@, low as int, high as int),
{
    let ghost prev = arr@;
    swap_at(arr, i, j);
    proof {
        let w = prev.subrange(low as int, high as int);
        lemma_swap_keeps_multiset(w, i - low, j - low);
        assert(arr@.subrange(low as int, high as int)
            =~= w.update(i - low, w[j - low]).update(j - low, w[i - low]));
    }
}

/// Sorts the window `[low, high)` of `arr` in place and hands the vector back.
/// A window of fewer than two elements is left as it is.
fn quicksort_gen<'a, T: Comparator + Copier>(arr: &'a mut Vec<T>, low: usize, high: usize) -> (r: &'a Vec<T>)
    requires
        low <= high <= old(arr).len(),
    ensures
        r@ == final(arr)@,
        permutes_window(old(arr)@, final(arr)@, low as int, high as int),
        high - low <= 1 ==> final(arr)@ == old(arr)@,
        consistent::<T>() && copy_faithful::<T>() ==> sorted_by(final(arr)@, low as int, high as int),
        copy_faithful::<T>() && in_order(old(arr)@, low as int, high as int) ==> final(arr)@ == old(arr)@,
    decreases high - low,
{
    if high - low >= 2 {
        let ghost a0 = arr@;
        let mid = partition_gen(arr, low, high);
        let ghost a1 = arr@;
        let ghost pivot = a0[high - 1];
        quicksort_gen(arr, low, mid - 1);
        let ghost a2 = arr@;
        quicksort_gen(arr, mid, high);
        let ghost a3 = arr@;
        proof {
            lemma_window_multiset(a1, a2, low as int, low as int, mid - 1, high as int);
            lemma_window_multiset(a2, a3, low as int, mid as int, high as int, high as int);
            if copy_faithful::<T>() {
                lemma_same_multiset_keeps_all(
                    a1.subrange(low as int, mid - 1),
                    a2.subrange(low as int, mid - 1),
                    |x: T| answers(x, pivot, Ordering::Less),
                );
                lemma_same_multiset_keeps_all(
                    a2.subrange(mid as int, high as int),
                    a3.subrange(mid as int, high as int),
                    |x: T| answers_not_less(x, pivot),
                );
                assert forall|k: int| low <= k < mid - 1 implies answers(#[trigger] a3[k], pivot, Ordering::Less) by {
                    assert(a2.subrange(low as int, mid - 1)[k - low] == a3[k]);
                }
                assert forall|k: int| mid <= k < high implies answers_not_less(#[trigger] a3[k], pivot) by {
                    assert(a3.subrange(mid as int, high as int)[k - mid] == a3[k]);
                }
                assert(a3[mid - 1] == pivot);
                if consistent::<T>() {
                    assert forall|i: int, j: int| low <= i && j == i + 1 && j < high
                        implies !#[trigger] answers(a3[i], a3[j], Ordering::Greater) by {
                        if j == mid - 1 {
                            lemma_less_excludes_greater(a3[i], pivot);
                        } else if i == mid - 1 {
                            lemma_not_less_flips(a3[j], pivot);
                        } else if j < mid - 1 {
                            assert(a3[i] == a2[i] && a3[j] == a2[j]);
                        }
                    }
                }
                if in_order(a0, low as int, high as int) {
                    assert(in_order(a1, low as int, mid - 1));
                }
            }
        }
    }
    &*arr
}

/// Sorts `arr` in place by `T`'s comparison and hands it back.
///
/// Whatever `compare` answers, the call ends and the result holds the same
/// elements, and a vector of fewer than two elements comes back as it was.
/// Where `copy` hands back an equal value and `compare` answers
/// deterministically and conversely, no element of the result compares
/// `Greater` to the next.
pub fn sort_gen<'a, T: Comparator + Copier>(arr: &'a mut Vec<T>) -> (r: &'a Vec<T>)
    ensures
        r@ == final(arr)@,
        final(arr)@.to_multiset() == old(arr)@.to_multiset(),
        consistent::<T>() && copy_faithful::<T>() ==> sorted_by(final(arr)@, 0, final(arr)@.len() as int),
        copy_faithful::<T>() && in_order(old(arr)@, 0, old(arr)@.len() as int) ==> final(arr)@ == old(arr)@,
        old(arr)@.len() <= 1 ==> final(arr)@ == old(arr)@,
{
    let ghost a0 = arr@;
    let n = arr.len();
    let r = quicksort_gen(arr, 0, n);
    proof {
        assert(a0.subrange(0, n as int) =~= a0);
        assert(r@.subrange(0, n as int) =~= r@);
    }
    r
}

/// Sorting what `sort_gen` has sorted leaves it as it is: for a comparator
/// whose "not `Greater`" carries over and which never answers `Equal`, a
/// sequence in which no element compares `Greater` to the next has every
/// element compare `Less` to each later one, the condition under which
/// `sort_gen`, given a `copy` that hands back an equal value, returns its
/// input unchanged.
pub proof fn lemma_sorted_by_is_in_order<T: Comparator>(s: Seq<T>)
    requires
        compare_transitive::<T>(),
        compare_never_equal::<T>(),
        sorted_by(s, 0, s.len() as int),
    ensures
        in_order(s, 0, s.len() as int),
{
    assert forall|i: int, j: int| 0 <= i < j < s.len() implies !answers(s[i], s[j], Ordering::Greater) by {
        lemma_sorted_by_not_greater(s, i, j);
    }
}

/// In a window where no element compares `Greater` to the next, and "not
/// `Greater`" carries over, no element compares `Greater` to a later one.
proof fn lemma_sorted_by_not_greater<T: Comparator>(s: Seq<T>, i: int, j: int)
    requires
        compare_transitive::<T>(),
        sorted_by(s, 0, s.len() as int),
        0 <= i < j < s.len(),
    ensures
        !answers(s[i], s[j], Ordering::Greater),
    decreases j - i,
{
    if j > i + 1 {
        lemma_sorted_by_not_greater(s, i, j - 1);
        assert(!answers(s[j - 1], s[j], Ordering::Greater));
    }
}

} // verus!
