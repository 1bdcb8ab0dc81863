//! Merge sort over `u64` sequences, organised as a chunked pipeline: the input
//! is cut into contiguous chunks, every chunk is sorted on its own, and the
//! sorted runs are merged back into one non-decreasing sequence.
//!
//! Every function carries a contract stated over `Seq<u64>` models; the
//! chunks are independent of each other, so a caller is free to sort them on
//! separate threads and hand the runs back for merging.

pub mod error;
pub mod order;
pub mod rows;
pub mod merge;
pub mod sort;
pub mod partition;
pub mod runs;
pub mod pool;
pub mod pipeline;

pub use crate::error::SortError;
pub use crate::merge::merge;
pub use crate::partition::partition;
pub use crate::pipeline::{parallel_mergesort, worker_count};
pub use crate::pool::{collect_runs, sort_chunks};
pub use crate::runs::{fold_vectors, merge_vectors};
pub use crate::sort::recursive_mergesort;
