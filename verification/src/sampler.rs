//! A deterministic, seedable random source.
//!
//! The tracer draws all of its randomness from this xorshift generator,
//! so a render is a pure function of the scene and the seed: every draw's
//! contract pins both the value and the state that follows it. Fresh
//! entropy for a seed comes from the `rand` crate.

use crate::fixed::SCALE;
use vstd::prelude::*;

verus! {

/// Seed used in place of zero: the xorshift step never leaves state zero.
pub const FALLBACK_SEED: u64 = 0x9E37_79B9_7F4A_7C15;

/// One step of the xorshift64 generator.
pub open spec fn next_state(s: u64) -> u64 {
    let a = s ^ (s << 13u64);
    let b = a ^ (a >> 7u64);
    b ^ (b << 17u64)
}

/// The state a fresh sampler starts from for a given seed.
pub open spec fn seeded(seed: u64) -> u64 {
    if seed == 0 {
        FALLBACK_SEED
    } else {
        seed
    }
}

/// The unit-interval value drawn from a generator state: sixteen low bits,
/// one fixed-point value in `[0, 1)`.
pub open spec fn unit_of(s: u64) -> i64 {
    (s & 0xffff) as i64
}

/// The symmetric value drawn from a generator state: seventeen low bits
/// shifted down, one fixed-point value in `[-1, 1)`.
pub open spec fn symmetric_of(s: u64) -> i64 {
    ((s & 0x1ffff) as i64 - SCALE) as i64
}

/// Relies on `rand::random`: a value drawn from the thread's generator;
/// nothing is assumed of which value comes back.
pub assume_specification<T>[ rand::random::<T> ]() -> (r: T)
    where
        rand::distributions::Standard: rand::distributions::Distribution<T>,
;

pub struct Sampler {
    pub state: u64,
}

impl Sampler {
    pub fn new(seed: u64) -> (r: Sampler)
        ensures
            r.state == seeded(seed),
            r.state != 0,
    {
        if seed == 0 {
            Sampler { state: FALLBACK_SEED }
        } else {
            Sampler { state: seed }
        }
    }

    /// A sampler seeded from the operating system's entropy; no two calls
    /// need agree.
    pub fn from_entropy() -> (r: Sampler)
        ensures
            r.state != 0,
    {
        let seed: u64 = rand::random::<u64>();
        Sampler::new(seed)
    }

    pub fn next_u64(&mut self) -> (r: u64)
        ensures
            final(self).state == next_state(old(self).state),
            r == final(self).state,
    {
        let s0: u64 = self.state;
        let a: u64 = s0 ^ (s0 << 13u64);
        let b: u64 = a ^ (a >> 7u64);
        let c: u64 = b ^ (b << 17u64);
        self.state = c;
        c
    }

    /// One fixed-point draw in `[0, 1)`.
    pub fn next_unit(&mut self) -> (r: i64)
        ensures
            final(self).state == next_state(old(self).state),
            r == unit_of(final(self).state),
            0 <= r < SCALE,
    {
        let s: u64 = self.next_u64();
        let bits: u64 = s & 0xffff;
        proof {
            assert(s & 0xffff < 0x10000) by (bit_vector);
        }
        bits as i64
    }

    /// One fixed-point draw in `[-1, 1)`.
    pub fn next_symmetric(&mut self) -> (r: i64)
        ensures
            final(self).state == next_state(old(self).state),
            r == symmetric_of(final(self).state),
            -SCALE <= r < SCALE,
    {
        let s: u64 = self.next_u64();
        let bits: u64 = s & 0x1ffff;
        proof {
            assert(s & 0x1ffff < 0x20000) by (bit_vector);
        }
        bits as i64 - SCALE
    }
}

} // verus!
