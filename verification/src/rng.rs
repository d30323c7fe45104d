//! A small seedable random generator.
//!
//! Placement is driven by an explicit generator instance owned by the caller
//! and threaded through every call, never by ambient global state: with a
//! fixed seed the whole packing run is a pure function of its inputs, which
//! is what makes the engine reproducible.  The generator is a 64-bit
//! xorshift; its exact step function is part of the contracts, so callers
//! can state results bit for bit.

use vstd::prelude::*;

verus! {

/// Mixing constant applied to the seed, so that small seeds (0, 1, ...)
/// still start from a well-spread state.
pub const SEED_SALT: u64 = 0x9E37_79B9_7F4A_7C15;

/// One xorshift step of the generator state.
pub open spec fn rng_step(x: u64) -> u64 {
    let a = x ^ (x << 13);
    let b = a ^ (a >> 7);
    b ^ (b << 17)
}

/// The initial state a seed produces.
pub open spec fn seed_state(seed: u64) -> u64 {
    seed ^ SEED_SALT
}

/// The value drawn from `[lo, hi]` by one step out of state `st`.
pub open spec fn draw_value(st: u64, lo: int, hi: int) -> int {
    lo + rng_step(st) as int % (hi - lo + 1)
}

/// A seedable generator of uniformly spread integers.
pub struct Rng {
    state: u64,
}

impl View for Rng {
    type V = u64;

    closed spec fn view(&self) -> u64 {
        self.state
    }
}

impl Rng {
    /// A generator with the given seed.  Equal seeds give equal generators.
    pub fn new(seed: u64) -> (rng: Rng)
        ensures
            rng@ == seed_state(seed),
    {
        Rng { state: seed ^ SEED_SALT }
    }

    /// Advances the state by one step and returns it.
    pub fn next_u64(&mut self) -> (out: u64)
        ensures
            final(self)@ == rng_step(old(self)@),
            out == rng_step(old(self)@),
    {
        let x = self.state;
        let a = x ^ (x << 13u64);
        let b = a ^ (a >> 7u64);
        let c = b ^ (b << 17u64);
        self.state = c;
        c
    }

    /// Draws a value from the inclusive range `[lo, hi]`.
    pub fn next_in_range(&mut self, lo: i64, hi: i64) -> (v: i64)
        requires
            lo <= hi,
            -1_000_000_000 <= lo,
            hi <= 1_000_000_000,
        ensures
            final(self)@ == rng_step(old(self)@),
            v == draw_value(old(self)@, lo as int, hi as int),
            lo <= v <= hi,
    {
        let out = self.next_u64();
        let span = (hi - lo + 1) as u64;
        let off = out % span;
        lo + (off as i64)
    }
}

} // verus!
