//! Merging any number of runs into one sequence.

use vstd::prelude::*;
use crate::order::{is_sorted, is_permutation};
use crate::rows::{rows, lemma_flatten_split};
use crate::merge::{merge, merged, lemma_merged_elements, lemma_merged_sorted};
use crate::sort::{sort_of, lemma_sort_of_unique};

verus! {

/// Every run of `runs` is non-decreasing.
pub open spec fn all_sorted(runs: Seq<Seq<u64>>) -> bool {
    forall|i: int| 0 <= i < runs.len() ==> is_sorted(#[trigger] runs[i])
}

/// The balanced merge of `runs`: no run gives the empty sequence, one run
/// gives that run, and more runs are split in the middle, each half merged
/// on its own and the two results merged.
pub open spec fn merge_all(runs: Seq<Seq<u64>>) -> Seq<u64>
    decreases runs.len(),
{
    if runs.len() == 0 {
        Seq::empty()
    } else if runs.len() == 1 {
        runs[0]
    } else {
        let half = runs.len() as int / 2;
        merged(merge_all(runs.take(half)), merge_all(runs.skip(half)))
    }
}

/// The running merge of `runs`: starting from the empty sequence, each run
/// in turn is merged into what has been merged so far.
pub open spec fn fold_all(runs: Seq<Seq<u64>>) -> Seq<u64>
    decreases runs.len(),
{
    if runs.len() == 0 {
        Seq::empty()
    } else {
        merged(fold_all(runs.drop_last()), runs.last())
    }
}

/// The balanced merge keeps every element of every run.
pub proof fn lemma_merge_all_elements(runs: Seq<Seq<u64>>)
    ensures
        merge_all(runs).len() == runs.flatten().len(),
        is_permutation(merge_all(runs), runs.flatten()),
    decreases runs.len(),
{
    if runs.len() == 0 {
    } else if runs.len() == 1 {
        runs.lemma_flatten_one_element();
    } else {
        let half = runs.len() as int / 2;
        let left = merge_all(runs.take(half));
        let right = merge_all(runs.skip(half));
        lemma_merge_all_elements(runs.take(half));
        lemma_merge_all_elements(runs.skip(half));
        lemma_merged_elements(left, right);
        lemma_flatten_split(runs, half);
        vstd::seq_lib::lemma_multiset_commutative(
            runs.take(half).flatten(),
            runs.skip(half).flatten(),
        );
    }
}

/// The balanced merge of sorted runs is the sorted form of all their
/// elements.
pub proof fn lemma_merge_all_sorts(runs: Seq<Seq<u64>>)
    requires
        all_sorted(runs),
    ensures
        is_sorted(merge_all(runs)),
        merge_all(runs) == sort_of(runs.flatten()),
    decreases runs.len(),
{
    if runs.len() >= 2 {
        let half = runs.len() as int / 2;
        lemma_merge_all_sorts(runs.take(half));
        lemma_merge_all_sorts(runs.skip(half));
        lemma_merged_sorted(merge_all(runs.take(half)), merge_all(runs.skip(half)));
    }
    lemma_merge_all_elements(runs);
    lemma_sort_of_unique(merge_all(runs), runs.flatten());
}

/// The running merge keeps every element of every run.
pub proof fn lemma_fold_all_elements(runs: Seq<Seq<u64>>)
    ensures
        fold_all(runs).len() == runs.flatten().len(),
        is_permutation(fold_all(runs), runs.flatten()),
    decreases runs.len(),
{
    if runs.len() > 0 {
        let front = runs.drop_last();
        lemma_fold_all_elements(front);
        lemma_merged_elements(fold_all(front), runs.last());
        front.lemma_flatten_push(runs.last());
        assert(front.push(runs.last()) =~= runs);
        vstd::seq_lib::lemma_multiset_commutative(front.flatten(), runs.last());
    }
}

/// On sorted runs the running merge and the balanced merge agree: both give
/// the sorted form of all the elements.
pub proof fn lemma_fold_all_sorts(runs: Seq<Seq<u64>>)
    requires
        all_sorted(runs),
    ensures
        is_sorted(fold_all(runs)),
        fold_all(runs) == sort_of(runs.flatten()),
        fold_all(runs) == merge_all(runs),
    decreases runs.len(),
{
    if runs.len() > 0 {
        let front = runs.drop_last();
        lemma_fold_all_sorts(front);
        lemma_merged_sorted(fold_all(front), runs.last());
    }
    lemma_fold_all_elements(runs);
    lemma_sort_of_unique(fold_all(runs), runs.flatten());
    lemma_merge_all_sorts(runs);
}

/// The balanced merge of the runs from position `lo` up to `hi`.
fn merge_range(vectors: &Vec<Vec<u64>>, lo: usize, hi: usize) -> (out: Vec<u64>)
    requires
        lo <= hi <= vectors@.len(),
    ensures
        out@ == merge_all(rows(vectors@).subrange(lo as int, hi as int)),
    decreases hi - lo,
{
    let ghost part = rows(vectors@).subrange(lo as int, hi as int);
    let n: usize = hi - lo;
    if n == 0 {
        return Vec::new();
    }
    if n == 1 {
        return vectors[lo].clone();
    }
    let mid: usize = lo + n / 2;
    proof {
        assert(part.take(n as int / 2) =~= rows(vectors@).subrange(lo as int, mid as int));
        assert(part.skip(n as int / 2) =~= rows(vectors@).subrange(mid as int, hi as int));
    }
    let sorted = merge(merge_range(vectors, lo, mid), merge_range(vectors, mid, hi));
    sorted
}

/// Merges the runs of `vectors` into one sequence by the balanced merge.
/// The result keeps every element of every run; where every run is
/// non-decreasing it is the sorted form of all their elements. No run gives
/// the empty sequence, a single run gives that run.
pub fn merge_vectors(vectors: Vec<Vec<u64>>) -> (out: Vec<u64>)
    ensures
        out@ == merge_all(rows(vectors@)),
        out@.len() == rows(vectors@).flatten().len(),
        is_permutation(out@, rows(vectors@).flatten()),
        all_sorted(rows(vectors@)) ==> is_sorted(out@) && out@ == sort_of(
            rows(vectors@).flatten(),
        ),
        vectors@.len() == 0 ==> out@ == Seq::<u64>::empty(),
        vectors@.len() == 1 ==> out@ == vectors@[0]@,
{
    let n: usize = vectors.len();
    proof {
        assert(rows(vectors@).subrange(0, n as int) =~= rows(vectors@));
        lemma_merge_all_elements(rows(vectors@));
        if all_sorted(rows(vectors@)) {
            lemma_merge_all_sorts(rows(vectors@));
        }
    }
    merge_range(&vectors, 0, n)
}

/// Merges the runs of `vectors` into one sequence by the running merge, one
/// run after the other. On non-decreasing runs the result is that of
/// `merge_vectors`.
pub fn fold_vectors(vectors: &Vec<Vec<u64>>) -> (out: Vec<u64>)
    ensures
        out@ == fold_all(rows(vectors@)),
        out@.len() == rows(vectors@).flatten().len(),
        is_permutation(out@, rows(vectors@).flatten()),
        all_sorted(rows(vectors@)) ==> is_sorted(out@) && out@ == merge_all(rows(vectors@)),
{
    let mut out: Vec<u64> = Vec::new();
    let mut id: usize = 0;
    while id < vectors.len()
        invariant
            id <= vectors@.len(),
            out@ == fold_all(rows(vectors@).take(id as int)),
        decreases vectors@.len() - id,
    {
        proof {
            let next = rows(vectors@).take(id + 1);
            assert(next.drop_last() =~= rows(vectors@).take(id as int));
        }
        out = merge(out, vectors[id].clone());
        id += 1;
    }
    proof {
        assert(rows(vectors@).take(id as int) =~= rows(vectors@));
        lemma_fold_all_elements(rows(vectors@));
        if all_sorted(rows(vectors@)) {
            lemma_fold_all_sorts(rows(vectors@));
        }
    }
    out
}

} // verus!
