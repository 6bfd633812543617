//! Pseudo-random draws for grid generation, behind trusted wrappers around
//! the `rand` crate.

use vstd::prelude::*;

verus! {

/// The sequence of the first `n` draws that a generator seeded with `seed`
/// produces when sampled uniformly below `bound`. The draws are a function
/// of the arguments alone: the generator is seeded deterministically.
pub uninterp spec fn draws_of(seed: u64, n: nat, bound: u32) -> Seq<u32>;

/// Relies on `rand::rngs::StdRng::seed_from_u64` and `rand::Rng::gen_range`:
/// a `StdRng` seeded from `seed` is a deterministic generator (its draw
/// sequence depends on `seed` alone, for the pinned version of `rand`), and
/// `gen_range(0..bound)` returns a value below `bound` and panics only on an
/// empty range, which `bound > 0` rules out.
#[verifier::external_body]
pub fn sample_uniform(seed: u64, n: usize, bound: u32) -> (r: Vec<u32>)
    requires
        bound > 0,
    ensures
        r@ == draws_of(seed, n as nat, bound),
        r@.len() == n,
        forall|i: int| 0 <= i < n ==> r@[i] < bound,
{
    let mut rng = <rand::rngs::StdRng as rand::SeedableRng>::seed_from_u64(seed);
    let mut draws = Vec::with_capacity(n);
    for _ in 0..n {
        draws.push(rand::Rng::gen_range(&mut rng, 0..bound));
    }
    draws
}

/// Relies on `rand::random`: a fresh value from the thread-local entropy
/// source. Nothing can be promised of it.
#[verifier::external_body]
pub fn random_seed() -> u64 {
    rand::random()
}

} // verus!
