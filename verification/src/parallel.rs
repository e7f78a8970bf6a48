//! Data-parallel loops.

use rayon::iter::{IntoParallelIterator, ParallelIterator};
use vstd::prelude::*;

verus! {

/// Runs `f` on the index of every item, on rayon's thread pool, and gathers the
/// results, one for each item and of the items' type.
///
/// Calls rayon's `into_par_iter` on the range of indices, `map` with `f`, and
/// `collect` into a `Vec`. A range of `usize` is an indexed parallel iterator, and
/// collecting one keeps the order of its items whatever thread ran them: what
/// stands at position `i` is what a call of `f` on `i` returned. Room for the
/// results is reserved at once; it is as large as the slice is, so it cannot be too
/// large to ask for. Nothing is said of a machine that cannot start the pool's threads.
#[verifier::external_body]
pub(crate) fn map_slots<T: Send, F: Fn(usize) -> T + Send + Sync>(items: &[T], f: F) -> (out: Vec<
    T,
>)
    requires
        forall|i: usize| i < items@.len() ==> #[trigger] call_requires(f, (i,)),
    ensures
        out@.len() == items@.len(),
        forall|i: int|
            0 <= i < items@.len() ==> call_ensures(f, (i as usize,), #[trigger] out@[i]),
{
    (0..items.len()).into_par_iter().map(f).collect()
}

} // verus!
