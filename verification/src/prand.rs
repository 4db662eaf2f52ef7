//! A small deterministic xorshift generator, kept for reproducible
//! sequences.  Its whole behaviour is pinned: each draw advances the seed
//! by one xorshift step and returns the new seed reduced to [1, max].

use vstd::prelude::*;

verus! {

/// One xorshift step over a 64-bit state.
pub open spec fn xorshift_step(x0: u64) -> u64 {
    let x1 = x0 ^ (x0 << 13);
    let x2 = x1 ^ (x1 >> 17);
    x2 ^ (x2 << 5)
}

/// Deterministic pseudo-random generator with an explicit seed.
#[derive(Debug)]
pub struct Prand {
    pub seed: u64,
}

impl Prand {
    /// A generator starting from the given seed.
    pub fn new(seed: u64) -> (r: Prand)
        ensures
            r.seed == seed,
    {
        Prand { seed }
    }

    /// Advance the state one xorshift step and return the new state
    /// reduced to [1, max].
    pub fn get_rand_int_with_max(&mut self, max: u64) -> (r: u64)
        requires
            max >= 1,
        ensures
            final(self).seed == xorshift_step(old(self).seed),
            r == xorshift_step(old(self).seed) % max + 1,
            1 <= r <= max,
    {
        let mut x = self.seed;
        x ^= x << 13;
        x ^= x >> 17;
        x ^= x << 5;
        self.seed = x;
        (x % max) + 1
    }
}

} // verus!
