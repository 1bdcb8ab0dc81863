//! The whole pipeline: cut the input into chunks, sort every chunk, merge
//! the runs.

use vstd::prelude::*;
use crate::order::{is_sorted, is_permutation};
use crate::partition::{partition, chunks_of, lemma_chunks_flatten};
use crate::pool::{sort_chunks, sorted_rows, lemma_sorted_chunks_merge};
use crate::runs::{merge_vectors, merge_all};
use crate::sort::{sort_of, lemma_sort_of, lemma_sort_idempotent};

verus! {

/// The worker count that a request stands for: the request itself, and one
/// worker where zero were asked for.
pub open spec fn workers_for(requested: int) -> int {
    if requested == 0 {
        1
    } else {
        requested
    }
}

/// What the pipeline gives for `s` with `workers` workers: the balanced
/// merge of the sorted chunks of `s`.
pub open spec fn pipeline(s: Seq<u64>, workers: int) -> Seq<u64> {
    merge_all(sorted_rows(chunks_of(s, workers)))
}

/// With any number of workers the pipeline gives the sorted form of its
/// input: the same elements in the same non-decreasing order as sorting
/// the whole sequence at once.
pub proof fn lemma_pipeline_sorts(s: Seq<u64>, workers: int)
    requires
        1 <= workers,
    ensures
        pipeline(s, workers) == sort_of(s),
        is_sorted(pipeline(s, workers)),
        is_permutation(pipeline(s, workers), s),
{
    lemma_chunks_flatten(s, workers);
    lemma_sorted_chunks_merge(chunks_of(s, workers));
    lemma_sort_of(s);
}

/// The result of the pipeline does not depend on the number of workers.
pub proof fn lemma_pipeline_any_workers(s: Seq<u64>, workers: int, others: int)
    requires
        1 <= workers,
        1 <= others,
    ensures
        pipeline(s, workers) == pipeline(s, others),
{
    lemma_pipeline_sorts(s, workers);
    lemma_pipeline_sorts(s, others);
}

/// Running the pipeline on its own result changes nothing.
pub proof fn lemma_pipeline_idempotent(s: Seq<u64>, workers: int)
    requires
        1 <= workers,
    ensures
        pipeline(pipeline(s, workers), workers) == pipeline(s, workers),
{
    lemma_pipeline_sorts(s, workers);
    lemma_pipeline_sorts(pipeline(s, workers), workers);
    lemma_sort_idempotent(s);
}

/// The number of workers to run for a requested count: a request for zero
/// workers is served by one.
pub fn worker_count(requested: usize) -> (workers: usize)
    ensures
        workers == workers_for(requested as int),
        1 <= workers,
{
    if requested == 0 {
        1
    } else {
        requested
    }
}

/// Sorts `data` through the pipeline with `threads_num` workers: the input
/// is cut into one chunk per worker, every chunk is sorted, and the runs
/// are merged. The result is the sorted form of `data` whatever the worker
/// count; a count of zero is served as one.
///
/// The stages run one after the other on the calling thread. The chunks
/// share nothing, so a caller that wants them sorted at the same time can
/// run `partition`, sort every chunk with `recursive_mergesort` on a thread
/// of its own, gather the runs with `collect_runs` and merge them with
/// `merge_vectors`: the result is the one stated here.
pub fn parallel_mergesort(data: Vec<u64>, threads_num: usize) -> (sorted: Vec<u64>)
    ensures
        sorted@ == pipeline(data@, workers_for(threads_num as int)),
        sorted@ == sort_of(data@),
        is_sorted(sorted@),
        is_permutation(sorted@, data@),
        sorted@.len() == data@.len(),
{
    let workers: usize = worker_count(threads_num);
    proof {
        lemma_pipeline_sorts(data@, workers as int);
        lemma_sort_of(data@);
    }
    let sub_data = sort_chunks(partition(&data, workers).unwrap());
    let sorted = merge_vectors(sub_data);
    sorted
}

} // verus!
