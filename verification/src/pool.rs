//! What the workers of the pipeline compute, and how their results are
//! gathered: every chunk is sorted exactly once, and run `i` belongs to
//! chunk `i` whatever the order in which the workers finish.

use vstd::prelude::*;
use crate::error::SortError;
use crate::order::{is_sorted, is_permutation};
use crate::rows::{rows, lemma_flatten_rowwise_permutation};
use crate::runs::{all_sorted, merge_all, lemma_merge_all_sorts};
use crate::sort::{recursive_mergesort, sort_of, lemma_sort_of, lemma_sort_of_permutation};

verus! {

/// The runs that sorting every chunk on its own gives: run `i` is the
/// sorted form of chunk `i`.
pub open spec fn sorted_rows(chunks: Seq<Seq<u64>>) -> Seq<Seq<u64>> {
    Seq::new(chunks.len(), |i: int| sort_of(chunks[i]))
}

/// The runs of the workers that handed one back, in index order.
pub open spec fn delivered(outcomes: Seq<Option<Vec<u64>>>) -> Seq<Vec<u64>> {
    Seq::new(outcomes.len(), |i: int| outcomes[i]->0)
}

/// Worker number `chunk` is the first one that handed back no run.
pub open spec fn first_failure(outcomes: Seq<Option<Vec<u64>>>, chunk: int) -> bool {
    &&& 0 <= chunk < outcomes.len()
    &&& outcomes[chunk] is None
    &&& forall|k: int| 0 <= k < chunk ==> outcomes[k] is Some
}

/// Sorting the chunks one by one and merging the runs sorts the
/// concatenation of the chunks, however the chunks were cut.
pub proof fn lemma_sorted_chunks_merge(chunks: Seq<Seq<u64>>)
    ensures
        all_sorted(sorted_rows(chunks)),
        merge_all(sorted_rows(chunks)) == sort_of(chunks.flatten()),
{
    let runs = sorted_rows(chunks);
    assert forall|i: int| 0 <= i < runs.len() implies is_sorted(#[trigger] runs[i])
        && is_permutation(runs[i], chunks[i]) by {
        lemma_sort_of(chunks[i]);
    }
    lemma_merge_all_sorts(runs);
    lemma_flatten_rowwise_permutation(runs, chunks);
    lemma_sort_of_permutation(runs.flatten(), chunks.flatten());
}

/// Sorts every chunk, keeping the index order: run `i` of the result is the
/// sorted form of chunk `i`.
pub fn sort_chunks(chunks: Vec<Vec<u64>>) -> (runs: Vec<Vec<u64>>)
    ensures
        runs@.len() == chunks@.len(),
        rows(runs@) == sorted_rows(rows(chunks@)),
        all_sorted(rows(runs@)),
{
    let ghost all = chunks@;
    let mut runs: Vec<Vec<u64>> = Vec::new();
    for chunk in it: chunks
        invariant
            it.seq() == all,
            runs@.len() == it.index(),
            forall|k: int| 0 <= k < it.index() ==> #[trigger] runs@[k]@ == sort_of(all[k]@),
    {
        runs.push(recursive_mergesort(chunk));
    }
    proof {
        lemma_sorted_chunks_merge(rows(all));
    }
    runs
}

/// Gathers what the workers handed back, given in index order: `Some(run)`
/// for a worker that finished, `None` for one that ended without a run.
/// Where every worker finished the runs come back in index order; otherwise
/// the error names the first chunk whose worker failed.
pub fn collect_runs(outcomes: Vec<Option<Vec<u64>>>) -> (res: Result<Vec<Vec<u64>>, SortError>)
    ensures
        res is Ok <==> forall|i: int| 0 <= i < outcomes@.len() ==> outcomes@[i] is Some,
        res matches Ok(runs) ==> runs@ == delivered(outcomes@),
        res matches Err(e) ==> e matches SortError::WorkerFailed { chunk } && first_failure(
            outcomes@,
            chunk as int,
        ),
{
    let ghost all = outcomes@;
    let mut runs: Vec<Vec<u64>> = Vec::new();
    let mut id: usize = 0;
    for outcome in it: outcomes
        invariant
            all == outcomes@,
            all.len() == outcomes.len(),
            it.seq() == all,
            id == it.index(),
            runs@.len() == id,
            forall|k: int| 0 <= k < id ==> #[trigger] all[k] is Some,
            forall|k: int| 0 <= k < id ==> #[trigger] runs@[k] == all[k]->0,
    {
        match outcome {
            Some(run) => {
                runs.push(run);
            },
            None => {
                return Err(SortError::WorkerFailed { chunk: id });
            },
        }
        id += 1;
    }
    Ok(runs)
}

} // verus!
