use vstd::prelude::*;
use crate::perm::{
    lemma_same_multiset_keeps_all, lemma_swap_keeps_multiset, lemma_window_multiset, permutes_window, swap_at,
};

verus! {

/// The window `[lo, hi)` of `s` is in ascending order.
pub open spec fn sorted_between(s: Seq<i64>, lo: int, hi: int) -> bool {
    forall|i: int, j: int| lo <= i <= j < hi ==> s[i] <= s[j]
}

/// All of `s` is in ascending order.
pub open spec fn is_sorted(s: Seq<i64>) -> bool {
    sorted_between(s, 0, s.len() as int)
}

/// Holds of the values that are at most `p`.
pub open spec fn at_most(p: i64) -> spec_fn(i64) -> bool {
    |x: i64| x <= p
}

/// Moves every element of `[low, high)` that is at most the pivot (the last
/// element of the window, `arr[high - 1]`) to the front of the window, in the
/// order in which they stood, the pivot last among them, and returns the index
/// just past them. An empty window is left as it is and `low` comes back.
fn partition(arr: &mut Vec<i64>, low: usize, high: usize) -> (idx: usize)
    requires
        1 <= high,
        low <= high <= old(arr).len(),
    ensures
        low <= idx <= high,
        permutes_window(old(arr)@, final(arr)@, low as int, high as int),
        final(arr)@.subrange(low as int, idx as int)
            == old(arr)@.subrange(low as int, high as int).filter(at_most(old(arr)@[high - 1])),
        low == high ==> idx == low && final(arr)@ == old(arr)@,
        low < high ==> low < idx && final(arr)@[idx - 1] == old(arr)@[high - 1],
        forall|k: int| low <= k < idx ==> #[trigger] final(arr)@[k] <= old(arr)@[high - 1],
        forall|k: int| idx <= k < high ==> #[trigger] final(arr)@[k] > old(arr)@[high - 1],
        sorted_between(old(arr)@, low as int, high as int) ==> idx == high && final(arr)@ == old(arr)@,
{
    let pivot = arr[high - 1];
    let mut idx: usize = low;
    let mut j: usize = low;
    while j < high
        invariant
            low <= idx <= j <= high <= arr.len(),
            pivot == old(arr)@[high - 1],
            permutes_window(old(arr)@, arr@, low as int, high as int),
            forall|k: int| j <= k < high ==> #[trigger] arr@[k] == old(arr)@[k],
            forall|k: int| low <= k < idx ==> #[trigger] arr@[k] <= pivot,
            forall|k: int| idx <= k < j ==> #[trigger] arr@[k] > pivot,
            arr@.subrange(low as int, idx as int)
                == old(arr)@.subrange(low as int, j as int).filter(at_most(pivot)),
            j == high && low < high ==> idx > low && arr@[idx - 1] == pivot,
            sorted_between(old(arr)@, low as int, high as int) ==> idx == j && arr@ == old(arr)@,
        decreases high - j,
    {
        let ghost prev = arr@;
        proof {
            let t = old(arr)@.subrange(low as int, j + 1);
            assert(t.drop_last() =~= old(arr)@.subrange(low as int, j as int));
            assert(t.last() == prev[j as int]);
            reveal_with_fuel(Seq::filter, 1);
        }
        if arr[j] <= pivot {
            swap_at(arr, idx, j);
            proof {
                assert(arr@.subrange(low as int, idx + 1)
                    =~= prev.subrange(low as int, idx as int).push(prev[j as int]));
                let w = prev.subrange(low as int, high as int);
                lemma_swap_keeps_multiset(w, idx - low, j - low);
                assert(arr@.subrange(low as int, high as int)
                    =~= w.update(idx - low, w[j - low]).update(j - low, w[idx - low]));
            }
            idx = idx + 1;
        }
        proof {
            reveal_with_fuel(Seq::filter, 1);
        }
        j = j + 1;
    }
    proof {
        assert(old(arr)@.subrange(low as int, high as int) == old(arr)@.subrange(low as int, j as int));
    }
    idx
}

/// Sorts the window `[low, high)` of `arr` in place and hands the vector back.
fn quicksort(arr: &mut Vec<i64>, low: usize, high: usize) -> (r: &Vec<i64>)
    requires
        low <= high <= old(arr).len(),
    ensures
        r@ == final(arr)@,
        permutes_window(old(arr)@, final(arr)@, low as int, high as int),
        sorted_between(final(arr)@, low as int, high as int),
        sorted_between(old(arr)@, low as int, high as int) ==> final(arr)@ == old(arr)@,
    decreases high - low,
{
    if low < high {
        let ghost a0 = arr@;
        let mid = partition(arr, low, high);
        let ghost a1 = arr@;
        let ghost pivot = a0[high - 1];
        quicksort(arr, low, mid - 1);
        let ghost a2 = arr@;
        quicksort(arr, mid, high);
        let ghost a3 = arr@;
        proof {
            lemma_window_multiset(a1, a2, low as int, low as int, mid - 1, high as int);
            lemma_window_multiset(a2, a3, low as int, mid as int, high as int, high as int);
            lemma_same_multiset_keeps_all(
                a1.subrange(low as int, mid - 1),
                a2.subrange(low as int, mid - 1),
                |x: i64| x <= pivot,
            );
            lemma_same_multiset_keeps_all(
                a2.subrange(mid as int, high as int),
                a3.subrange(mid as int, high as int),
                |x: i64| x > pivot,
            );
            assert forall|k: int| low <= k < mid - 1 implies #[trigger] a3[k] <= pivot by {
                assert(a2.subrange(low as int, mid - 1)[k - low] == a3[k]);
            }
            assert forall|k: int| mid <= k < high implies #[trigger] a3[k] > pivot by {
                assert(a3.subrange(mid as int, high as int)[k - mid] == a3[k]);
            }
            assert(a3[mid - 1] == pivot);
            if sorted_between(a0, low as int, high as int) {
                assert(sorted_between(a1, low as int, mid - 1));
            }
        }
    }
    &*arr
}

/// Sorts `arr` in ascending order, in place, and hands it back.
pub fn sort(arr: &mut Vec<i64>) -> (r: &Vec<i64>)
    ensures
        r@ == final(arr)@,
        final(arr)@.to_multiset() == old(arr)@.to_multiset(),
        is_sorted(final(arr)@),
        forall|i: int| 1 <= i < final(arr)@.len() ==> final(arr)@[i - 1] <= #[trigger] final(arr)@[i],
        is_sorted(old(arr)@) ==> final(arr)@ == old(arr)@,
        old(arr)@.len() <= 1 ==> final(arr)@ == old(arr)@,
{
    let ghost a0 = arr@;
    let n = arr.len();
    let r = quicksort(arr, 0, n);
    proof {
        assert(a0.subrange(0, n as int) =~= a0);
        assert(r@.subrange(0, n as int) =~= r@);
    }
    r
}

} // verus!
