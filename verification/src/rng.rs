//! The trusted boundary to the random number generator.

use vstd::prelude::*;
use rand::Rng;
use rand::RngCore;
use rand::SeedableRng;

verus! {

/// The sequence of 64-bit draws that rand's standard generator produces
/// from a 32-byte seed. The generator is deterministic, so the draws are a
/// function of the seed alone; this name stands for that function.
pub uninterp spec fn rng_stream(seed: Seq<u8>) -> Seq<u64>;

/// Relies on rand's `StdRng::from_seed` and `RngCore::next_u64`: the
/// standard generator (a ChaCha block cipher) is seeded deterministically
/// and successive draws walk one stream, so the first `n` draws are the
/// prefix of a single seed-determined sequence.
#[verifier::external_body]
pub fn sample_u64s(seed: &[u8; 32], n: usize) -> (r: Vec<u64>)
    ensures
        r@.len() == n,
        forall|i: int| 0 <= i < n ==> r@[i] == rng_stream(seed@)[i],
{
    let mut rng = rand::rngs::StdRng::from_seed(*seed);
    let mut out = Vec::with_capacity(n);
    for _ in 0..n {
        out.push(rng.next_u64());
    }
    out
}

/// Relies on rand's `thread_rng` and `Rng::gen_range`: the sample lies
/// within the given non-empty range. Which index comes back is random;
/// nothing more is promised.
#[verifier::external_body]
pub fn pick_index(n: usize) -> (r: usize)
    requires
        n >= 1,
    ensures
        r < n,
{
    rand::thread_rng().gen_range(0..n)
}

} // verus!
