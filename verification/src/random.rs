//! Random choices, through `rand`.
use rand::Rng;
use vstd::prelude::*;

verus! {

/// An index drawn by `rand::thread_rng().gen_range(0..n)`. The only claim is that it is
/// below `n` (`gen_range` panics on an empty range, so `n` must be positive); which index
/// comes out is chance and is not stated.
#[verifier::external_body]
pub(crate) fn random_below(n: usize) -> (r: usize)
    requires
        n > 0,
    ensures
        r < n,
{
    rand::thread_rng().gen_range(0..n)
}

} // verus!
