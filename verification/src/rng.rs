//! Deterministic pseudo-random numbers for mutation and crossover choices.
//!
//! A 32-bit linear congruential generator. Being ordinary integer code it is
//! fully specified: every "random" decision of the evolutionary loop is a
//! function of the generator state, so training runs are reproducible.

use vstd::prelude::*;

verus! {

/// LCG multiplier (the classic glibc constants).
pub const LCG_A: u64 = 1103515245;

/// LCG increment.
pub const LCG_C: u64 = 12345;

/// LCG modulus: 2^32.
pub const LCG_M: u64 = 0x1_0000_0000;

pub struct Rng {
    pub state: u64,
}

/// The successor state of the generator.
pub open spec fn spec_next(s: u64) -> u64 {
    ((LCG_A as int * (s as int % LCG_M as int) + LCG_C as int) % LCG_M as int) as u64
}

/// The 15-bit sample drawn when stepping from state `s`.
pub open spec fn spec_sample(s: u64) -> u64 {
    ((spec_next(s) as int / 65536) % 32768) as u64
}

impl Rng {
    pub fn new(seed: u64) -> (r: Rng)
        ensures
            r.state == seed,
    {
        Rng { state: seed }
    }

    /// Steps the generator once and returns a sample in `[0, 32768)`.
    pub fn sample(&mut self) -> (r: u64)
        ensures
            final(self).state == spec_next(old(self).state),
            r == spec_sample(old(self).state),
            r < 32768,
    {
        let low = self.state % LCG_M;
        assert(LCG_A * low <= LCG_A * 0xffff_ffffu64) by (nonlinear_arith)
            requires
                low <= 0xffff_ffffu64,
        ;
        let next = (LCG_A * low + LCG_C) % LCG_M;
        self.state = next;
        (next / 65536) % 32768
    }

    /// A sample reduced below `n`.
    pub fn below(&mut self, n: u64) -> (r: u64)
        requires
            n > 0,
        ensures
            final(self).state == spec_next(old(self).state),
            r == spec_sample(old(self).state) as int % n as int,
            r < n,
    {
        let s = self.sample();
        s % n
    }

    /// A fair-ish coin: true on odd samples.
    pub fn coin(&mut self) -> (r: bool)
        ensures
            final(self).state == spec_next(old(self).state),
            r == (spec_sample(old(self).state) as int % 2 == 1),
    {
        let s = self.sample();
        s % 2 == 1
    }

    /// A 60-bit sample assembled from four steps.
    pub fn wide(&mut self) -> (r: u64)
        ensures
            r < 0x1000_0000_0000_0000,
    {
        let a = self.sample();
        let b = self.sample();
        let c = self.sample();
        let d = self.sample();
        ((a * 32768 + b) * 32768 + c) * 32768 + d
    }

    /// A wide sample reduced below `n`.
    pub fn below_wide(&mut self, n: u64) -> (r: u64)
        requires
            n > 0,
        ensures
            r < n,
    {
        let s = self.wide();
        s % n
    }

    /// A signed jitter in `[-mag, mag]`, used for weight perturbation.
    pub fn jitter(&mut self, mag: i64) -> (r: i64)
        requires
            0 < mag <= 0x4000_0000,
        ensures
            final(self).state == spec_next(old(self).state),
            -mag <= r <= mag,
    {
        let span = 2 * (mag as u64) + 1;
        let s = self.below(span);
        (s as i64) - mag
    }
}

} // verus!
