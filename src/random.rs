//! The random source: the thread-local generator of the `rand` crate.
use rand::Rng;
use vstd::prelude::*;

verus! {

/// Relies on `rand::Rng::gen_range(0, n)` on `rand::thread_rng()`: a value
/// in `[0, n)`; `gen_range` panics unless `0 < n`.
#[verifier::external_body]
pub(crate) fn random_below(n: usize) -> (r: usize)
    requires
        0 < n,
    ensures
        r < n,
{
    rand::thread_rng().gen_range(0, n)
}

/// Relies on `rand::Rng::shuffle` on `rand::thread_rng()`: the elements are
/// permuted in place (Fisher-Yates), none added or lost.
#[verifier::external_body]
pub(crate) fn shuffle(v: &mut Vec<usize>)
    ensures
        final(v)@.to_multiset() == old(v)@.to_multiset(),
{
    rand::thread_rng().shuffle(v.as_mut_slice());
}

} // verus!
