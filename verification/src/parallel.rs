//! Parallel evaluation on the work-stealing thread pool of `rayon`.
use vstd::prelude::*;
use rayon::iter::IntoParallelIterator;
use rayon::iter::ParallelIterator;

verus! {

/// Evaluates `f` at every index below `count` on `rayon`'s thread pool and
/// returns the values by index.
///
/// The body is `rayon`'s `into_par_iter` on the range `0..count`, `map` with
/// `f`, and `collect` into a `Vec`. Trusted of them: `f` is called only with
/// indices of the range; collecting an indexed parallel iterator into a
/// vector yields as many items as the range has, in the order of the range,
/// whichever thread produced them; so the item at place `i` is what a call
/// `f(i)` returned. The order in which the calls are made is not fixed.
#[verifier::external_body]
pub(crate) fn par_tabulate<T: Send, F: Fn(usize) -> T + Sync + Send>(count: usize, f: F) -> (out: Vec<T>)
    requires
        forall|index: usize| index < count ==> call_requires(f, (index,)),
    ensures
        out@.len() == count,
        forall|index: usize| index < count ==> call_ensures(f, (index,), #[trigger] out@[index as int]),
{
    (0..count).into_par_iter().map(f).collect()
}

} // verus!
