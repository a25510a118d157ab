//! The source of random numbers.

use rand::Rng;
use vstd::prelude::*;

verus! {

/// A number drawn from `0..n` by `rand::Rng::gen_range` on the generator that
/// `rand::thread_rng` hands out.
///
/// Not verified: the contract repeats what `gen_range` documents, namely that
/// the value lies in the half-open range it was given, and leaves out the
/// empty range, on which `gen_range` panics. Which value comes is not said,
/// so two calls may differ.
#[verifier::external_body]
pub(crate) fn random_below(n: usize) -> (r: usize)
    requires
        n > 0,
    ensures
        r < n,
{
    rand::thread_rng().gen_range(0, n)
}

} // verus!
