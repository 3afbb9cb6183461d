//! Draws from the process random-number generator.
//!
//! All randomness of a run is confined to these two calls: the force
//! matrix entries and the initial particle states are sampled here, and
//! the rest of the library is a deterministic function of what they
//! return.  Nothing can be promised of which value comes back, so each
//! contract states only the range that every outcome lies in.

use vstd::prelude::*;

verus! {

/// Relies on rand's `Rng::gen_range` on `thread_rng`: a sample from a
/// non-empty half-open range lies in that range (`sample_single` rejects
/// an empty one and otherwise delegates to the inclusive sampler over
/// `low..=high - 1`).
#[verifier::external_body]
pub fn random_i64(lo: i64, hi: i64) -> (r: i64)
    requires
        lo < hi,
    ensures
        lo <= r < hi,
{
    rand::Rng::gen_range(&mut rand::thread_rng(), lo..hi)
}

/// Relies on rand's `WeightedIndex::new` and `Distribution::sample`: with
/// three non-negative weights of positive, non-overflowing sum, `new`
/// succeeds, and `sample` returns the index of one of the three weights,
/// never one whose weight is zero (the search is over the strict
/// cumulative bounds, so a zero-width band cannot be hit).
#[verifier::external_body]
pub fn sample_weighted3(w0: u32, w1: u32, w2: u32) -> (r: usize)
    requires
        0 < w0 + w1 + w2 <= u32::MAX,
    ensures
        r < 3,
        w0 == 0 ==> r != 0,
        w1 == 0 ==> r != 1,
        w2 == 0 ==> r != 2,
{
    let dist = rand::distributions::WeightedIndex::new([w0, w1, w2]).unwrap();
    rand::distributions::Distribution::sample(&dist, &mut rand::thread_rng())
}

} // verus!
