//! The ways in which the chunked pipeline can refuse its input.

use vstd::prelude::*;

verus! {

/// Why the pipeline could not produce a sorted sequence.
#[derive(Debug, Clone, Copy, PartialEq, Eq, Structural)]
pub enum SortError {
    /// A worker count of zero was asked for: there is nobody to give a
    /// chunk to.
    NoWorkers,
    /// The worker that was given chunk number `chunk` ended without handing
    /// back a sorted run.
    WorkerFailed { chunk: usize },
}

} // verus!
