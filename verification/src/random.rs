//! Randomness sources for the generator. The source is an explicit
//! parameter of every randomized operation, so a caller can pick the
//! thread-local generator or a deterministic, seeded one.

use vstd::prelude::*;
use rand::Rng;

verus! {

/// A source of random choices. Nothing more is promised of a pick than its
/// bound, so everything built on a source holds for every outcome.
pub trait RandomSource {
    /// Picks an index in `[0, bound)`.
    fn pick(&mut self, bound: usize) -> (r: usize)
        requires
            bound >= 1,
        ensures
            r < bound,
    ;
}

#[verifier::external_type_specification]
#[verifier::external_body]
pub struct ExThreadRng(rand::rngs::ThreadRng);

/// Relies on rand::thread_rng: hands out a handle to the thread-local
/// generator.
#[verifier::external_body]
fn obtain_thread_rng() -> rand::rngs::ThreadRng {
    rand::thread_rng()
}

/// Relies on rand::Rng::gen_range over the nonempty range `0..bound`: the
/// sampled value lies inside the range, so below `bound`.
#[verifier::external_body]
fn gen_range_below(rng: &mut rand::rngs::ThreadRng, bound: usize) -> (r: usize)
    requires
        bound >= 1,
    ensures
        r < bound,
{
    rng.gen_range(0..bound)
}

/// The rand crate's thread-local generator: non-seeded, non-reproducible,
/// one handle per call site.
pub struct ThreadRandom {
    rng: rand::rngs::ThreadRng,
}

impl ThreadRandom {
    pub fn new() -> ThreadRandom {
        ThreadRandom { rng: obtain_thread_rng() }
    }
}

impl RandomSource for ThreadRandom {
    fn pick(&mut self, bound: usize) -> (r: usize) {
        gen_range_below(&mut self.rng, bound)
    }
}

/// A deterministic source: the same seed always yields the same choices,
/// so a generated puzzle can be reproduced exactly.
pub struct SeededRandom {
    state: u64,
}

impl SeededRandom {
    pub fn new(seed: u64) -> SeededRandom {
        SeededRandom { state: seed }
    }
}

impl RandomSource for SeededRandom {
    fn pick(&mut self, bound: usize) -> (r: usize) {
        let mut x: u64 = self.state ^ 0x9e3779b97f4a7c15u64;
        x = x ^ (x << 13u64);
        x = x ^ (x >> 7u64);
        x = x ^ (x << 17u64);
        self.state = x;
        let m: u64 = x % (bound as u64);
        assert(m < bound as u64);
        m as usize
    }
}

} // verus!
