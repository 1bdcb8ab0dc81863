//! Cutting a sequence into contiguous chunks of nearly equal size.

use vstd::prelude::*;
use vstd::arithmetic::div_mod::{
    lemma_fundamental_div_mod, lemma_mod_bound, lemma_div_is_ordered, lemma_div_by_multiple,
};
use crate::error::SortError;
use crate::rows::rows;

verus! {

/// Where chunk number `id` begins when `len` elements are shared among
/// `workers` workers: the position `id * len / workers`, rounded down.
/// Chunk `id` ends where chunk `id + 1` begins.
pub open spec fn chunk_bound(len: int, workers: int, id: int) -> int {
    (id * len) / workers
}

/// The number of elements in chunk number `id`.
pub open spec fn chunk_len(len: int, workers: int, id: int) -> int {
    chunk_bound(len, workers, id + 1) - chunk_bound(len, workers, id)
}

/// Chunk number `id` of `s` when it is shared among `workers` workers.
pub open spec fn chunk_of(s: Seq<u64>, workers: int, id: int) -> Seq<u64> {
    s.subrange(
        chunk_bound(s.len() as int, workers, id),
        chunk_bound(s.len() as int, workers, id + 1),
    )
}

/// All `workers` chunks of `s`, in index order.
pub open spec fn chunks_of(s: Seq<u64>, workers: int) -> Seq<Seq<u64>> {
    Seq::new(workers as nat, |id: int| chunk_of(s, workers, id))
}

/// The chunk bounds start at 0, end at `len`, and never step backwards.
pub proof fn lemma_chunk_bounds(len: int, workers: int, id: int)
    requires
        0 <= len,
        1 <= workers,
        0 <= id < workers,
    ensures
        chunk_bound(len, workers, 0) == 0,
        chunk_bound(len, workers, workers) == len,
        0 <= chunk_bound(len, workers, id) <= chunk_bound(len, workers, id + 1) <= len,
{
    assert(0 <= id * len <= (id + 1) * len <= workers * len) by (nonlinear_arith)
        requires
            0 <= len,
            0 <= id < workers,
    ;
    lemma_div_by_multiple(len, workers);
    lemma_div_is_ordered(0, id * len, workers);
    lemma_div_is_ordered(id * len, (id + 1) * len, workers);
    lemma_div_is_ordered((id + 1) * len, workers * len, workers);
}

/// Every chunk holds `len / workers` elements, rounded down or up: no chunk
/// is more than one element longer than another.
pub proof fn lemma_chunk_len(len: int, workers: int, id: int)
    requires
        0 <= len,
        1 <= workers,
        0 <= id < workers,
    ensures
        len / workers <= chunk_len(len, workers, id) <= (len + workers - 1) / workers,
        (len + workers - 1) / workers <= len / workers + 1,
{
    let d = workers;
    let x = id * len;
    let y = (id + 1) * len;
    assert(y == x + len) by (nonlinear_arith)
        requires
            y == (id + 1) * len,
            x == id * len,
    ;
    assert(0 <= x) by (nonlinear_arith)
        requires
            x == id * len,
            0 <= id,
            0 <= len,
    ;
    lemma_fundamental_div_mod(x, d);
    lemma_fundamental_div_mod(len, d);
    lemma_fundamental_div_mod(y, d);
    lemma_mod_bound(x, d);
    lemma_mod_bound(len, d);
    lemma_mod_bound(y, d);
    let k = y / d - x / d - len / d;
    assert(d * k == x % d + len % d - y % d) by (nonlinear_arith)
        requires
            k == y / d - x / d - len / d,
            y == x + len,
            x == d * (x / d) + x % d,
            len == d * (len / d) + len % d,
            y == d * (y / d) + y % d,
    ;
    assert(0 <= k <= 1 && (len % d == 0 ==> k == 0)) by (nonlinear_arith)
        requires
            d * k == x % d + len % d - y % d,
            0 < d,
            0 <= x % d < d,
            0 <= len % d < d,
            0 <= y % d < d,
    ;
    // The rounded-up quotient is the quotient, plus one where a remainder is left.
    let up = len + d - 1;
    lemma_fundamental_div_mod(up, d);
    lemma_mod_bound(up, d);
    let c = up / d - len / d;
    assert(d * c == len % d + d - 1 - up % d) by (nonlinear_arith)
        requires
            c == up / d - len / d,
            up == len + d - 1,
            len == d * (len / d) + len % d,
            up == d * (up / d) + up % d,
    ;
    assert(0 <= c <= 1 && (len % d != 0 ==> c == 1)) by (nonlinear_arith)
        requires
            d * c == len % d + d - 1 - up % d,
            0 < d,
            0 <= len % d < d,
            0 <= up % d < d,
    ;
}

/// Concatenating the first `upto` chunks gives the elements before the
/// bound of chunk `upto`.
proof fn lemma_chunks_prefix(s: Seq<u64>, workers: int, upto: int)
    requires
        1 <= workers,
        0 <= upto <= workers,
    ensures
        chunks_of(s, workers).take(upto).flatten() == s.take(
            chunk_bound(s.len() as int, workers, upto),
        ),
    decreases upto,
{
    let all = chunks_of(s, workers);
    let len = s.len() as int;
    if upto > 0 {
        let id = upto - 1;
        lemma_chunks_prefix(s, workers, id);
        lemma_chunk_bounds(len, workers, id);
        assert(all.take(upto) =~= all.take(id).push(chunk_of(s, workers, id)));
        all.take(id).lemma_flatten_push(chunk_of(s, workers, id));
        assert(s.take(chunk_bound(len, workers, id)) + chunk_of(s, workers, id) =~= s.take(
            chunk_bound(len, workers, upto),
        ));
    }
}

/// The chunks of a sequence, concatenated in index order, are the sequence.
pub proof fn lemma_chunks_flatten(s: Seq<u64>, workers: int)
    requires
        1 <= workers,
    ensures
        chunks_of(s, workers).len() == workers,
        chunks_of(s, workers).flatten() == s,
{
    let all = chunks_of(s, workers);
    lemma_chunks_prefix(s, workers, workers);
    lemma_chunk_bounds(s.len() as int, workers, 0);
    assert(all.take(workers) =~= all);
}

/// No chunk is more than one element longer than another, and none holds
/// more than `len / workers` elements, rounded up.
pub proof fn lemma_chunks_balanced(s: Seq<u64>, workers: int)
    requires
        1 <= workers,
    ensures
        forall|i: int, j: int|
            0 <= i < workers && 0 <= j < workers ==> #[trigger] chunks_of(s, workers)[i].len()
                <= #[trigger] chunks_of(s, workers)[j].len() + 1,
        forall|i: int|
            0 <= i < workers ==> s.len() / (workers as nat) <= #[trigger] chunks_of(
                s,
                workers,
            )[i].len() <= (s.len() + workers - 1) / workers,
{
    let all = chunks_of(s, workers);
    let len = s.len() as int;
    assert forall|i: int| 0 <= i < workers implies len / workers <= #[trigger] all[i].len() <= (len
        + workers - 1) / workers && (len + workers - 1) / workers <= len / workers + 1 by {
        lemma_chunk_bounds(len, workers, i);
        lemma_chunk_len(len, workers, i);
    }
}

/// The bound at which chunk number `id` begins.
fn boundary(len: usize, workers: usize, id: usize) -> (bound: usize)
    requires
        1 <= workers,
        id <= workers,
    ensures
        bound == chunk_bound(len as int, workers as int, id as int),
        bound <= len,
{
    proof {
        assert(0 <= id * len <= workers * len <= 0xffff_ffff_ffff_ffff * 0xffff_ffff_ffff_ffff)
            by (nonlinear_arith)
            requires
                0 <= id <= workers <= 0xffff_ffff_ffff_ffff,
                0 <= len <= 0xffff_ffff_ffff_ffff,
        ;
        lemma_div_by_multiple(len as int, workers as int);
        lemma_div_is_ordered(id * len, workers * len, workers as int);
        lemma_div_is_ordered(0, id * len, workers as int);
    }
    let wide: u128 = (id as u128) * (len as u128);
    (wide / (workers as u128)) as usize
}

/// Cuts `data` into `workers` contiguous chunks, chunk `id` running from
/// position `id * len / workers` up to `(id + 1) * len / workers`. Every
/// worker gets a chunk, some of them empty where there are fewer elements
/// than workers. A worker count of zero is refused.
pub fn partition(data: &Vec<u64>, workers: usize) -> (res: Result<Vec<Vec<u64>>, SortError>)
    ensures
        workers == 0 <==> res is Err,
        res is Err ==> res == Err::<Vec<Vec<u64>>, SortError>(SortError::NoWorkers),
        res matches Ok(chunks) ==> {
            &&& chunks@.len() == workers
            &&& rows(chunks@) == chunks_of(data@, workers as int)
            &&& rows(chunks@).flatten() == data@
            &&& forall|i: int, j: int|
                0 <= i < workers && 0 <= j < workers ==> #[trigger] chunks@[i]@.len()
                    <= #[trigger] chunks@[j]@.len() + 1
            &&& forall|i: int|
                0 <= i < workers ==> data@.len() / (workers as nat) <= #[trigger] chunks@[i]@.len()
                    <= (data@.len() + workers - 1) / (workers as int)
        },
{
    if workers == 0 {
        return Err(SortError::NoWorkers);
    }
    let len: usize = data.len();
    let mut chunks: Vec<Vec<u64>> = Vec::new();
    let mut id: usize = 0;
    while id < workers
        invariant
            1 <= workers,
            id <= workers,
            len == data@.len(),
            chunks@.len() == id,
            forall|k: int| 0 <= k < id ==> #[trigger] chunks@[k]@ == chunk_of(data@, workers as int, k),
        decreases workers - id,
    {
        let lower_idx: usize = boundary(len, workers, id);
        let upper_idx: usize = boundary(len, workers, id + 1);
        proof {
            lemma_chunk_bounds(len as int, workers as int, id as int);
        }
        chunks.push(vstd::slice::slice_to_vec(&data[lower_idx..upper_idx]));
        id += 1;
    }
    proof {
        lemma_chunks_flatten(data@, workers as int);
        lemma_chunks_balanced(data@, workers as int);
        assert forall|i: int| 0 <= i < workers implies #[trigger] chunks@[i]@ == chunks_of(
            data@,
            workers as int,
        )[i] by {}
    }
    Ok(chunks)
}

} // verus!
