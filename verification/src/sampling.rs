//! Trusted bindings to rand, the crate that draws the node sample for the
//! distance estimator. Nothing is assumed about which elements come back,
//! only what holds of every outcome: the sample's size, that its entries
//! come from the pool, and that drawing is without repetition.

use vstd::prelude::*;

verus! {

#[verifier::external_type_specification]
#[verifier::external_body]
pub struct ExThreadRng(rand::rngs::ThreadRng);

/// Relies on rand's `rng()`: a handle to the thread-local generator.
#[verifier::external_body]
pub(crate) fn fresh_rng() -> rand::rngs::ThreadRng {
    rand::rng()
}

/// Relies on rand's `IndexedRandom::sample` on a slice: `min(k, len)`
/// elements chosen at random without repetition — distinct positions of
/// the pool, so distinct values when the pool has no duplicates — in an
/// unspecified order.
#[verifier::external_body]
pub(crate) fn sample_from(pool: &Vec<usize>, rng: &mut rand::rngs::ThreadRng, k: usize) -> (r:
    Vec<usize>)
    ensures
        r@.len() == if k <= pool@.len() {
            k as int
        } else {
            pool@.len() as int
        },
        forall|i: int| 0 <= i < r@.len() ==> pool@.contains(#[trigger] r@[i]),
        pool@.no_duplicates() ==> r@.no_duplicates(),
{
    rand::seq::IndexedRandom::sample(pool.as_slice(), rng, k).cloned().collect()
}

} // verus!
