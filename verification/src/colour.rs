//! Colours: a vector reinterpreted as linear-space (r, g, b).
//!
//! Channels are fixed-point values, nominally in `[0, 1]` — that is
//! `[0, SCALE]` — but never clamped here; clamping belongs to the image
//! encoding boundary.

use crate::fixed::{tdiv, SCALE};
use crate::sampler::{next_state, unit_of, Sampler};
use crate::vec::Vec3;
use vstd::prelude::*;

verus! {

#[derive(Clone, Copy, Debug, PartialEq, Eq, Structural)]
pub struct Colour(pub Vec3);

/// A channel drawn uniformly from `[lo, hi)`: `lo` plus the span scaled
/// by a unit-interval draw `u`.
pub open spec fn spec_uniform(lo: int, hi: int, u: int) -> int {
    lo + tdiv((hi - lo) * u, SCALE as int)
}

/// One colour tinted by another: the channelwise fixed-point product.
pub open spec fn spec_tint(a: Colour, b: Colour) -> Colour {
    Colour(
        Vec3(
            tdiv(a.0.0 * b.0.0, SCALE as int) as i64,
            tdiv(a.0.1 * b.0.1, SCALE as int) as i64,
            tdiv(a.0.2 * b.0.2, SCALE as int) as i64,
        ),
    )
}

/// A colour attenuated by a fixed-point fraction.
pub open spec fn spec_attenuate(c: Colour, s: int) -> Colour {
    Colour(
        Vec3(
            tdiv(c.0.0 * s, SCALE as int) as i64,
            tdiv(c.0.1 * s, SCALE as int) as i64,
            tdiv(c.0.2 * s, SCALE as int) as i64,
        ),
    )
}

/// A colour of three uniform channel draws from `[lo, hi)`, with the
/// state that follows them.
pub open spec fn spec_colour_random(lo: int, hi: int, s: u64) -> (Colour, u64) {
    let s1 = next_state(s);
    let s2 = next_state(s1);
    let s3 = next_state(s2);
    (
        Colour(
            Vec3(
                spec_uniform(lo, hi, unit_of(s1) as int) as i64,
                spec_uniform(lo, hi, unit_of(s2) as int) as i64,
                spec_uniform(lo, hi, unit_of(s3) as int) as i64,
            ),
        ),
        s3,
    )
}

/// All channels within `[lo, hi]`.
pub open spec fn channels_within(c: Colour, lo: int, hi: int) -> bool {
    &&& lo <= c.0.0 <= hi
    &&& lo <= c.0.1 <= hi
    &&& lo <= c.0.2 <= hi
}

impl Colour {
    pub fn new(r: i64, g: i64, b: i64) -> (c: Colour)
        ensures
            c == Colour(Vec3(r, g, b)),
    {
        Colour(Vec3(r, g, b))
    }

    pub fn r(&self) -> (v: i64)
        ensures
            v == self.0.0,
    {
        self.0.0
    }

    pub fn g(&self) -> (v: i64)
        ensures
            v == self.0.1,
    {
        self.0.1
    }

    pub fn b(&self) -> (v: i64)
        ensures
            v == self.0.2,
    {
        self.0.2
    }

    pub fn white() -> (c: Colour)
        ensures
            c == Colour(Vec3(SCALE, SCALE, SCALE)),
    {
        Colour(Vec3(SCALE, SCALE, SCALE))
    }

    pub fn black() -> (c: Colour)
        ensures
            c == Colour(Vec3(0, 0, 0)),
    {
        Colour(Vec3(0, 0, 0))
    }

    pub fn red() -> (c: Colour)
        ensures
            c == Colour(Vec3(SCALE, 0, 0)),
    {
        Colour(Vec3(SCALE, 0, 0))
    }

    pub fn add(self, rhs: Colour) -> (c: Colour)
        requires
            i64::MIN <= self.0.0 + rhs.0.0 <= i64::MAX,
            i64::MIN <= self.0.1 + rhs.0.1 <= i64::MAX,
            i64::MIN <= self.0.2 + rhs.0.2 <= i64::MAX,
        ensures
            c.0.0 == self.0.0 + rhs.0.0,
            c.0.1 == self.0.1 + rhs.0.1,
            c.0.2 == self.0.2 + rhs.0.2,
    {
        Colour(self.0.add(rhs.0))
    }

    /// Product with a fixed-point scalar (an albedo).
    pub fn mul_fx(self, s: i64) -> (c: Colour)
        requires
            -(i64::MAX as int) * (SCALE as int) <= self.0.0 * s <= (i64::MAX as int) * (
            SCALE as int),
            -(i64::MAX as int) * (SCALE as int) <= self.0.1 * s <= (i64::MAX as int) * (
            SCALE as int),
            -(i64::MAX as int) * (SCALE as int) <= self.0.2 * s <= (i64::MAX as int) * (
            SCALE as int),
        ensures
            c.0.0 == tdiv(self.0.0 * s, SCALE as int),
            c.0.1 == tdiv(self.0.1 * s, SCALE as int),
            c.0.2 == tdiv(self.0.2 * s, SCALE as int),
    {
        Colour(self.0.scale(s))
    }

    /// Channelwise product: tinting one colour by another.
    pub fn mul(self, rhs: Colour) -> (c: Colour)
        requires
            -(i64::MAX as int) * (SCALE as int) <= self.0.0 * rhs.0.0 <= (i64::MAX as int) * (
            SCALE as int),
            -(i64::MAX as int) * (SCALE as int) <= self.0.1 * rhs.0.1 <= (i64::MAX as int) * (
            SCALE as int),
            -(i64::MAX as int) * (SCALE as int) <= self.0.2 * rhs.0.2 <= (i64::MAX as int) * (
            SCALE as int),
        ensures
            c.0.0 == tdiv(self.0.0 * rhs.0.0, SCALE as int),
            c.0.1 == tdiv(self.0.1 * rhs.0.1, SCALE as int),
            c.0.2 == tdiv(self.0.2 * rhs.0.2, SCALE as int),
    {
        Colour(self.0.mul(rhs.0))
    }

    /// Quotient by a plain positive count (averaging over samples).
    pub fn div_n(self, n: i64) -> (c: Colour)
        requires
            n > 0,
            self.0.0 > i64::MIN,
            self.0.1 > i64::MIN,
            self.0.2 > i64::MIN,
        ensures
            c.0.0 == tdiv(self.0.0 as int, n as int),
            c.0.1 == tdiv(self.0.1 as int, n as int),
            c.0.2 == tdiv(self.0.2 as int, n as int),
    {
        proof {
            crate::fixed::lemma_tdiv_bound(self.0.0 as int, n as int, i64::MAX as int);
            crate::fixed::lemma_tdiv_bound(self.0.1 as int, n as int, i64::MAX as int);
            crate::fixed::lemma_tdiv_bound(self.0.2 as int, n as int, i64::MAX as int);
        }
        Colour(Vec3(self.0.0 / n, self.0.1 / n, self.0.2 / n))
    }

    /// A colour with each channel drawn uniformly from `[lo, hi)`.
    pub fn random(sampler: &mut Sampler, lo: i64, hi: i64) -> (c: Colour)
        requires
            0 <= lo <= hi,
            hi <= 16 * SCALE,
        ensures
            final(sampler).state == next_state(
                next_state(next_state(old(sampler).state)),
            ),
            c.0.0 == spec_uniform(
                lo as int,
                hi as int,
                unit_of(next_state(old(sampler).state)) as int,
            ),
            c.0.1 == spec_uniform(
                lo as int,
                hi as int,
                unit_of(next_state(next_state(old(sampler).state))) as int,
            ),
            c.0.2 == spec_uniform(
                lo as int,
                hi as int,
                unit_of(next_state(next_state(next_state(old(sampler).state)))) as int,
            ),
            channels_within(c, lo as int, hi as int),
            (c, final(sampler).state) == spec_colour_random(lo as int, hi as int, old(
                sampler,
            ).state),
    {
        let r: i64 = uniform_channel(sampler, lo, hi);
        let g: i64 = uniform_channel(sampler, lo, hi);
        let b: i64 = uniform_channel(sampler, lo, hi);
        Colour(Vec3(r, g, b))
    }
}

impl Default for Colour {
    /// Black: the additive identity the render buffer starts from.
    fn default() -> (c: Colour)
        ensures
            c == Colour(Vec3(0, 0, 0)),
    {
        Colour(Vec3(0, 0, 0))
    }
}

/// One uniform draw from `[lo, hi)` (or exactly `lo` when the span is
/// empty).
fn uniform_channel(sampler: &mut Sampler, lo: i64, hi: i64) -> (v: i64)
    requires
        0 <= lo <= hi,
        hi <= 16 * SCALE,
    ensures
        final(sampler).state == next_state(old(sampler).state),
        v == spec_uniform(lo as int, hi as int, unit_of(final(sampler).state) as int),
        lo <= v <= hi,
{
    let u: i64 = sampler.next_unit();
    proof {
        assert(0 <= (hi - lo) * u <= (hi - lo) * (SCALE as int)) by (nonlinear_arith)
            requires
                0 <= hi - lo,
                0 <= u <= SCALE as int,
        ;
        crate::fixed::lemma_tdiv_bound((hi - lo) * u, SCALE as int, (hi - lo) as int);
    }
    let span: i64 = hi - lo;
    let stepped: i64 = ((span as i128) * (u as i128) / (SCALE as i128)) as i64;
    lo + stepped
}

} // verus!
