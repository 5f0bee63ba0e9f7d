//! Work handed out to threads.

use vstd::prelude::*;
use rayon::iter::{IntoParallelIterator, ParallelIterator};

verus! {

/// Calls `f` on `0..n` in parallel and collects the results in order.
///
/// The body is `rayon`'s parallel iterator over a range, mapped and collected
/// into a `Vec`. Collecting an indexed parallel iterator keeps the order of the
/// items, so the contract says that there is one result for each index and that
/// the result at an index is one that `f` gives for that index. It does not say
/// in which order or on which thread the calls happen.
#[verifier::external_body]
pub(crate) fn par_collect<T: Send, F: Fn(usize) -> T + Sync + Send>(n: usize, f: F) -> (v: Vec<T>)
    requires
        forall|i: usize| i < n ==> #[trigger] call_requires(f, (i,)),
    ensures
        v.len() == n,
        forall|i: int| 0 <= i < n ==> call_ensures(f, (i as usize,), #[trigger] v[i]),
{
    (0..n).into_par_iter().map(f).collect()
}

} // verus!
