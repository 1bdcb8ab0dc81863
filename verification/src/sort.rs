//! Sorting one sequence by recursive merge sort.

use vstd::prelude::*;
use crate::order::{is_sorted, is_permutation, lemma_sorted_permutation_unique};
use crate::merge::{merge, merged, lemma_merged_elements, lemma_merged_sorted};

verus! {

/// The sorted form of `s`: the non-decreasing sequence that holds exactly
/// the elements of `s`.
pub open spec fn sort_of(s: Seq<u64>) -> Seq<u64> {
    choose|r: Seq<u64>| is_sorted(r) && is_permutation(r, s)
}

/// Splitting a sequence at any point keeps its elements.
pub proof fn lemma_split_elements(s: Seq<u64>, at: int)
    requires
        0 <= at <= s.len(),
    ensures
        s.take(at).to_multiset().add(s.skip(at).to_multiset()) == s.to_multiset(),
{
    vstd::seq_lib::lemma_multiset_commutative(s.take(at), s.skip(at));
    assert(s.take(at) + s.skip(at) =~= s);
}

/// Some non-decreasing arrangement of the elements of `s` exists.
proof fn lemma_sorted_arrangement_exists(s: Seq<u64>) -> (r: Seq<u64>)
    ensures
        is_sorted(r),
        is_permutation(r, s),
    decreases s.len(),
{
    if s.len() <= 1 {
        s
    } else {
        let mid = s.len() as int / 2;
        let left = lemma_sorted_arrangement_exists(s.take(mid));
        let right = lemma_sorted_arrangement_exists(s.skip(mid));
        lemma_merged_elements(left, right);
        lemma_merged_sorted(left, right);
        lemma_split_elements(s, mid);
        merged(left, right)
    }
}

/// `sort_of(s)` is non-decreasing and a permutation of `s`.
pub proof fn lemma_sort_of(s: Seq<u64>)
    ensures
        is_sorted(sort_of(s)),
        is_permutation(sort_of(s), s),
        sort_of(s).len() == s.len(),
{
    let arranged = lemma_sorted_arrangement_exists(s);
    assert(is_sorted(arranged) && is_permutation(arranged, s));
    vstd::seq_lib::to_multiset_len(sort_of(s));
    vstd::seq_lib::to_multiset_len(s);
}

/// Any non-decreasing permutation of `s` is `sort_of(s)`.
pub proof fn lemma_sort_of_unique(r: Seq<u64>, s: Seq<u64>)
    requires
        is_sorted(r),
        is_permutation(r, s),
    ensures
        r == sort_of(s),
{
    lemma_sort_of(s);
    lemma_sorted_permutation_unique(r, sort_of(s));
}

/// Sorting is idempotent: the sorted form of a sorted form is itself, and a
/// sequence that is already non-decreasing is its own sorted form.
pub proof fn lemma_sort_idempotent(s: Seq<u64>)
    ensures
        sort_of(sort_of(s)) == sort_of(s),
        is_sorted(s) ==> sort_of(s) == s,
{
    lemma_sort_of(s);
    lemma_sort_of_unique(sort_of(s), sort_of(s));
    if is_sorted(s) {
        lemma_sort_of_unique(s, s);
    }
}

/// The sorted form depends on the elements alone, not on their order.
pub proof fn lemma_sort_of_permutation(a: Seq<u64>, b: Seq<u64>)
    requires
        is_permutation(a, b),
    ensures
        sort_of(a) == sort_of(b),
{
    lemma_sort_of(a);
    lemma_sort_of_unique(sort_of(a), b);
}

/// Merging the sorted forms of the two parts of a split sorts the whole.
pub proof fn lemma_merged_halves_sort(s: Seq<u64>, at: int)
    requires
        0 <= at <= s.len(),
    ensures
        merged(sort_of(s.take(at)), sort_of(s.skip(at))) == sort_of(s),
{
    let left = sort_of(s.take(at));
    let right = sort_of(s.skip(at));
    lemma_sort_of(s.take(at));
    lemma_sort_of(s.skip(at));
    lemma_merged_elements(left, right);
    lemma_merged_sorted(left, right);
    lemma_split_elements(s, at);
    lemma_sort_of_unique(merged(left, right), s);
}

/// Sorts `data` into non-decreasing order by merge sort: a sequence of at
/// most one element is returned as it is, a longer one is split at its
/// midpoint, both halves are sorted, and the two results are merged.
pub fn recursive_mergesort(data: Vec<u64>) -> (sorted: Vec<u64>)
    ensures
        sorted@ == sort_of(data@),
        is_sorted(sorted@),
        is_permutation(sorted@, data@),
        sorted@.len() == data@.len(),
    decreases data@.len(),
{
    let n: usize = data.len();
    let m: usize = n / 2;
    if n <= 1 {
        proof {
            lemma_sort_of_unique(data@, data@);
        }
        return data;
    }
    let vec1 = recursive_mergesort(vstd::slice::slice_to_vec(&data[0..m]));
    let vec2 = recursive_mergesort(vstd::slice::slice_to_vec(&data[m..n]));
    proof {
        lemma_merged_halves_sort(data@, m as int);
        lemma_sort_of(data@);
    }
    let sorted = merge(vec1, vec2);
    sorted
}

} // verus!
