//! Order and permutation predicates on sequences of `u64`.

use vstd::prelude::*;

verus! {

/// `s` is in non-decreasing order.
pub open spec fn is_sorted(s: Seq<u64>) -> bool {
    forall|i: int, j: int| 0 <= i <= j < s.len() ==> s[i] <= s[j]
}

/// `r` holds exactly the elements of `s`, each as often as `s` does.
pub open spec fn is_permutation(r: Seq<u64>, s: Seq<u64>) -> bool {
    r.to_multiset() == s.to_multiset()
}

/// The order on `u64` as a relation, in the form vstd's sequence lemmas take.
pub open spec fn leq() -> spec_fn(u64, u64) -> bool {
    |x: u64, y: u64| x <= y
}

/// A non-decreasing arrangement of given elements is unique: two sorted
/// sequences with the same elements are the same sequence.
pub proof fn lemma_sorted_permutation_unique(x: Seq<u64>, y: Seq<u64>)
    requires
        is_sorted(x),
        is_sorted(y),
        is_permutation(x, y),
    ensures
        x == y,
{
    vstd::seq_lib::lemma_sorted_unique(x, y, leq());
}

/// Appending a sorted sequence to a sorted sequence whose elements are all
/// no larger gives a sorted sequence.
pub proof fn lemma_sorted_concat(x: Seq<u64>, y: Seq<u64>)
    requires
        is_sorted(x),
        is_sorted(y),
        forall|i: int, j: int| 0 <= i < x.len() && 0 <= j < y.len() ==> x[i] <= y[j],
    ensures
        is_sorted(x + y),
{
}

} // verus!
