//! Trusted wrapper around the process-local random shuffle.

use rand::seq::SliceRandom;
use vstd::prelude::*;

verus! {

/// Relies on `rand::seq::SliceRandom::shuffle` with `rand::thread_rng`:
/// an in-place, uniformly random permutation of the vector's elements.
/// Only permutation — preservation of the element multiset — is stated;
/// which arrangement comes out depends on the process-local random
/// source, so nothing more holds of every outcome.
#[verifier::external_body]
pub(crate) fn shuffle_vec<T>(v: &mut Vec<T>)
    ensures
        final(v)@.to_multiset() == old(v)@.to_multiset(),
        final(v)@.len() == old(v)@.len(),
{
    v.shuffle(&mut rand::thread_rng());
}

} // verus!
