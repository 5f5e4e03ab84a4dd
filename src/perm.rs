use vstd::prelude::*;

verus! {

/// Only the window `[lo, hi)` of `t` may differ from `s`, and it holds the same
/// values as before.
pub open spec fn permutes_window<A>(s: Seq<A>, t: Seq<A>, lo: int, hi: int) -> bool {
    &&& t.len() == s.len()
    &&& forall|k: int| 0 <= k < s.len() && !(lo <= k < hi) ==> t[k] == s[k]
    &&& t.subrange(lo, hi).to_multiset() == s.subrange(lo, hi).to_multiset()
}

/// Relies on `<[T]>::swap`: the elements at `i` and `j` trade places; it panics
/// only when an index is out of bounds.
#[verifier::external_body]
pub(crate) fn swap_at<T>(v: &mut Vec<T>, i: usize, j: usize)
    requires
        i < old(v).len(),
        j < old(v).len(),
    ensures
        final(v)@ == old(v)@.update(i as int, old(v)@[j as int]).update(j as int, old(v)@[i as int]),
{
    v.swap(i, j);
}

/// Exchanging two positions keeps the multiset of a sequence.
pub proof fn lemma_swap_keeps_multiset<A>(s: Seq<A>, i: int, j: int)
    requires
        0 <= i < s.len(),
        0 <= j < s.len(),
    ensures
        s.update(i, s[j]).update(j, s[i]).to_multiset() == s.to_multiset(),
{
    broadcast use vstd::seq_lib::to_multiset_update, vstd::multiset::group_multiset_axioms;
    let t = s.update(i, s[j]);
    let m = s.to_multiset();
    assert(t[j] == s[j]);
    assert(t.to_multiset() == m.insert(s[j]).remove(s[i]));
    assert(t.update(j, s[i]).to_multiset() == t.to_multiset().insert(s[i]).remove(s[j]));
    assert(m.count(s[i]) > 0) by {
        assert(s.contains(s[i]));
        vstd::seq_lib::to_multiset_contains(s, s[i]);
    }
    assert(m.insert(s[j]).remove(s[i]).insert(s[i]).remove(s[j]) =~= m);
}

/// Sequences with the same multiset hold the same values: whatever holds of
/// every element of one holds of every element of the other.
pub proof fn lemma_same_multiset_keeps_all<A>(a: Seq<A>, b: Seq<A>, p: spec_fn(A) -> bool)
    requires
        a.to_multiset() == b.to_multiset(),
        forall|k: int| 0 <= k < a.len() ==> p(#[trigger] a[k]),
    ensures
        forall|k: int| 0 <= k < b.len() ==> p(#[trigger] b[k]),
{
    assert forall|k: int| 0 <= k < b.len() implies p(#[trigger] b[k]) by {
        assert(b.contains(b[k]));
        vstd::seq_lib::to_multiset_contains(b, b[k]);
        vstd::seq_lib::to_multiset_contains(a, b[k]);
        assert(a.contains(b[k]));
    }
}

/// Changing a window `[lo, hi)` of a sequence without changing its multiset,
/// and nothing outside it, keeps the multiset of every larger window `[outer_lo, outer_hi)`.
pub proof fn lemma_window_multiset<A>(s: Seq<A>, t: Seq<A>, outer_lo: int, lo: int, hi: int, outer_hi: int)
    requires
        0 <= outer_lo <= lo <= hi <= outer_hi <= s.len(),
        t.len() == s.len(),
        forall|k: int| 0 <= k < s.len() && !(lo <= k < hi) ==> t[k] == s[k],
        t.subrange(lo, hi).to_multiset() == s.subrange(lo, hi).to_multiset(),
    ensures
        t.subrange(outer_lo, outer_hi).to_multiset() == s.subrange(outer_lo, outer_hi).to_multiset(),
{
    broadcast use vstd::seq_lib::lemma_multiset_commutative;
    assert(s.subrange(outer_lo, outer_hi) =~= s.subrange(outer_lo, lo) + s.subrange(lo, hi) + s.subrange(hi, outer_hi));
    assert(t.subrange(outer_lo, outer_hi) =~= t.subrange(outer_lo, lo) + t.subrange(lo, hi) + t.subrange(hi, outer_hi));
    assert(t.subrange(outer_lo, lo) =~= s.subrange(outer_lo, lo));
    assert(t.subrange(hi, outer_hi) =~= s.subrange(hi, outer_hi));
}

} // verus!
