//! The randomness boundary: picking an index uniformly and permuting the
//! answer options. Nothing is assumed about which outcome comes back, only
//! what holds of every outcome.

use vstd::prelude::*;
use crate::session::QuestionOption;

verus! {

/// Relies on rand's `Rng::gen_range` over `0..n`: the result lies in the
/// range. The draw is unseeded, so no two calls need to agree.
#[verifier::external_body]
pub fn pick_index(n: usize) -> (r: usize)
    requires
        n > 0,
    ensures
        r < n,
{
    rand::Rng::gen_range(&mut rand::thread_rng(), 0..n)
}

/// Relies on rand's `SliceRandom::shuffle`: a Fisher-Yates pass that only
/// swaps elements in place, so the new order is a permutation of the old.
#[verifier::external_body]
pub fn shuffle_options(v: &mut Vec<QuestionOption>)
    ensures
        final(v).deep_view().to_multiset() == old(v).deep_view().to_multiset(),
{
    rand::seq::SliceRandom::shuffle(v.as_mut_slice(), &mut rand::thread_rng())
}

} // verus!
