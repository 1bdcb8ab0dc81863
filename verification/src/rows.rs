//! Sequences of sequences: the model of a list of chunks or of sorted runs.

use vstd::prelude::*;
use crate::order::is_permutation;

verus! {

/// The model of a vector of vectors: the sequence of the views of its rows.
pub open spec fn rows(v: Seq<Vec<u64>>) -> Seq<Seq<u64>> {
    Seq::new(v.len(), |i: int| v[i]@)
}

/// Concatenating the rows of a prefix and the rows after it concatenates
/// all rows.
pub proof fn lemma_flatten_split(x: Seq<Seq<u64>>, at: int)
    requires
        0 <= at <= x.len(),
    ensures
        x.flatten() == x.take(at).flatten() + x.skip(at).flatten(),
{
    vstd::seq_lib::lemma_flatten_concat(x.take(at), x.skip(at));
    assert(x.take(at) + x.skip(at) =~= x);
}

/// Rearranging the elements inside each row rearranges the elements of the
/// concatenation.
pub proof fn lemma_flatten_rowwise_permutation(x: Seq<Seq<u64>>, y: Seq<Seq<u64>>)
    requires
        x.len() == y.len(),
        forall|i: int| 0 <= i < x.len() ==> is_permutation(#[trigger] x[i], y[i]),
    ensures
        is_permutation(x.flatten(), y.flatten()),
    decreases x.len(),
{
    if x.len() > 0 {
        let xf = x.drop_last();
        let yf = y.drop_last();
        lemma_flatten_rowwise_permutation(xf, yf);
        xf.lemma_flatten_push(x.last());
        yf.lemma_flatten_push(y.last());
        assert(xf.push(x.last()) =~= x);
        assert(yf.push(y.last()) =~= y);
        vstd::seq_lib::lemma_multiset_commutative(xf.flatten(), x.last());
        vstd::seq_lib::lemma_multiset_commutative(yf.flatten(), y.last());
    }
}

} // verus!
