//! Merging two sequences into one.

use vstd::prelude::*;
use crate::order::is_sorted;

verus! {

/// The merge of `a` and `b`: at each step the smaller of the two front
/// elements is taken, and the front of `a` when they are equal.
pub open spec fn merged(a: Seq<u64>, b: Seq<u64>) -> Seq<u64>
    decreases a.len() + b.len(),
{
    if a.len() == 0 {
        b
    } else if b.len() == 0 {
        a
    } else if a[0] <= b[0] {
        seq![a[0]] + merged(a.skip(1), b)
    } else {
        seq![b[0]] + merged(a, b.skip(1))
    }
}

/// A merge keeps every element of both inputs, each as often as it occurs.
pub proof fn lemma_merged_elements(a: Seq<u64>, b: Seq<u64>)
    ensures
        merged(a, b).len() == a.len() + b.len(),
        merged(a, b).to_multiset() == a.to_multiset().add(b.to_multiset()),
    decreases a.len() + b.len(),
{
    broadcast use vstd::seq_lib::group_to_multiset_ensures;
    if a.len() == 0 || b.len() == 0 {
    } else if a[0] <= b[0] {
        let rest = merged(a.skip(1), b);
        lemma_merged_elements(a.skip(1), b);
        vstd::seq_lib::lemma_multiset_commutative(seq![a[0]], rest);
        vstd::seq_lib::lemma_multiset_commutative(seq![a[0]], a.skip(1));
        assert(seq![a[0]] + a.skip(1) =~= a);
    } else {
        let rest = merged(a, b.skip(1));
        lemma_merged_elements(a, b.skip(1));
        vstd::seq_lib::lemma_multiset_commutative(seq![b[0]], rest);
        vstd::seq_lib::lemma_multiset_commutative(seq![b[0]], b.skip(1));
        assert(seq![b[0]] + b.skip(1) =~= b);
    }
}

/// Every element of a merge is bounded below by whatever bounds both inputs.
proof fn lemma_merged_lower_bound(a: Seq<u64>, b: Seq<u64>, low: u64)
    requires
        forall|i: int| 0 <= i < a.len() ==> low <= a[i],
        forall|i: int| 0 <= i < b.len() ==> low <= b[i],
    ensures
        forall|i: int| 0 <= i < merged(a, b).len() ==> low <= merged(a, b)[i],
    decreases a.len() + b.len(),
{
    let m = merged(a, b);
    if a.len() == 0 || b.len() == 0 {
    } else {
        let rest = if a[0] <= b[0] {
            merged(a.skip(1), b)
        } else {
            merged(a, b.skip(1))
        };
        if a[0] <= b[0] {
            lemma_merged_lower_bound(a.skip(1), b, low);
        } else {
            lemma_merged_lower_bound(a, b.skip(1), low);
        }
        assert forall|i: int| 0 <= i < m.len() implies low <= m[i] by {
            if i > 0 {
                assert(m[i] == rest[i - 1]);
            }
        }
    }
}

/// The merge of two sorted sequences is sorted.
pub proof fn lemma_merged_sorted(a: Seq<u64>, b: Seq<u64>)
    requires
        is_sorted(a),
        is_sorted(b),
    ensures
        is_sorted(merged(a, b)),
    decreases a.len() + b.len(),
{
    if a.len() == 0 || b.len() == 0 {
    } else if a[0] <= b[0] {
        let rest = merged(a.skip(1), b);
        lemma_merged_sorted(a.skip(1), b);
        lemma_merged_lower_bound(a.skip(1), b, a[0]);
        crate::order::lemma_sorted_concat(seq![a[0]], rest);
    } else {
        let rest = merged(a, b.skip(1));
        lemma_merged_sorted(a, b.skip(1));
        lemma_merged_lower_bound(a, b.skip(1), b[0]);
        crate::order::lemma_sorted_concat(seq![b[0]], rest);
    }
}

/// Merges two vectors into one: the result is `merged` of the two, so it
/// keeps every element of both and is sorted whenever both inputs are.
pub fn merge(vec1: Vec<u64>, vec2: Vec<u64>) -> (out: Vec<u64>)
    ensures
        out@ == merged(vec1@, vec2@),
        out@.len() == vec1@.len() + vec2@.len(),
        out@.to_multiset() == vec1@.to_multiset().add(vec2@.to_multiset()),
        is_sorted(vec1@) && is_sorted(vec2@) ==> is_sorted(out@),
{
    let mut out: Vec<u64> = Vec::new();
    let mut i: usize = 0;
    let mut j: usize = 0;
    proof {
        assert(vec1@.skip(0) =~= vec1@);
        assert(vec2@.skip(0) =~= vec2@);
    }
    while i < vec1.len() && j < vec2.len()
        invariant
            i <= vec1.len(),
            j <= vec2.len(),
            merged(vec1@, vec2@) == out@ + merged(vec1@.skip(i as int), vec2@.skip(j as int)),
        decreases vec1.len() - i + vec2.len() - j,
    {
        let ghost a = vec1@.skip(i as int);
        let ghost b = vec2@.skip(j as int);
        if vec1[i] <= vec2[j] {
            out.push(vec1[i]);
            i += 1;
            proof {
                assert(a.skip(1) =~= vec1@.skip(i as int));
            }
        } else {
            out.push(vec2[j]);
            j += 1;
            proof {
                assert(b.skip(1) =~= vec2@.skip(j as int));
            }
        }
    }
    if i < vec1.len() {
        let n: usize = vec1.len();
        out.extend_from_slice(&vec1[i..n]);
    } else {
        let n: usize = vec2.len();
        out.extend_from_slice(&vec2[j..n]);
    }
    proof {
        lemma_merged_elements(vec1@, vec2@);
        if is_sorted(vec1@) && is_sorted(vec2@) {
            lemma_merged_sorted(vec1@, vec2@);
        }
    }
    out
}

} // verus!
