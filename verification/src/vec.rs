//! Three-component vectors over fixed-point scalars.
//!
//! Every operation's contract pins the result to an exact integer
//! expression over the components, with `fixed::tdiv` standing for the
//! round-toward-zero rescaling that follows a fixed-point product or
//! quotient.

use crate::fixed::{tdiv, SCALE};
use crate::sampler::{next_state, symmetric_of, Sampler};
use vstd::prelude::*;

verus! {

/// Bound on the coordinates and radii of scene geometry.
pub const CMAX: i64 = 0x1_0000_0000;

/// Bound on the origin and direction components of a ray the tracer works
/// on; wider than `CMAX` so camera-derived rays always fit.
pub const RMAX: i64 = 0x20_0000_0000;

/// Bound on the operands of a dot product, cross product or squared
/// length: three products of values this size still fit the intermediate
/// arithmetic.
pub const AMAX: i64 = 0x40_0000_0000;

#[derive(Clone, Copy, Debug, PartialEq, Eq, Structural)]
pub struct Vec3(pub i64, pub i64, pub i64);

/// The exact (unrescaled) sum of componentwise products; fixed-point dot
/// products are this value rescaled down by `SCALE`.
pub open spec fn dot_full(a: Vec3, b: Vec3) -> int {
    a.0 * b.0 + a.1 * b.1 + a.2 * b.2
}

/// The fixed-point dot product.
pub open spec fn spec_dot(a: Vec3, b: Vec3) -> int {
    tdiv(dot_full(a, b), SCALE as int)
}

/// Componentwise difference.
pub open spec fn spec_sub(a: Vec3, b: Vec3) -> Vec3 {
    Vec3((a.0 - b.0) as i64, (a.1 - b.1) as i64, (a.2 - b.2) as i64)
}

/// Componentwise sum.
pub open spec fn spec_add(a: Vec3, b: Vec3) -> Vec3 {
    Vec3((a.0 + b.0) as i64, (a.1 + b.1) as i64, (a.2 + b.2) as i64)
}

/// Componentwise negation.
pub open spec fn spec_neg(v: Vec3) -> Vec3 {
    Vec3((-v.0) as i64, (-v.1) as i64, (-v.2) as i64)
}

/// Quotient by a positive fixed-point scalar, componentwise.
pub open spec fn spec_div_fx(v: Vec3, s: int) -> Vec3 {
    Vec3(
        tdiv(v.0 * SCALE as int, s) as i64,
        tdiv(v.1 * SCALE as int, s) as i64,
        tdiv(v.2 * SCALE as int, s) as i64,
    )
}

/// Product with a fixed-point scalar, componentwise.
pub open spec fn spec_scale(v: Vec3, s: int) -> Vec3 {
    Vec3(
        tdiv(v.0 * s, SCALE as int) as i64,
        tdiv(v.1 * s, SCALE as int) as i64,
        tdiv(v.2 * s, SCALE as int) as i64,
    )
}

/// Quotient by a plain positive integer, componentwise.
pub open spec fn spec_div_n(v: Vec3, n: int) -> Vec3 {
    Vec3(tdiv(v.0 as int, n) as i64, tdiv(v.1 as int, n) as i64, tdiv(v.2 as int, n) as i64)
}

/// The fixed-point cross product.
pub open spec fn spec_cross(a: Vec3, b: Vec3) -> Vec3 {
    Vec3(
        tdiv(a.1 * b.2 - a.2 * b.1, SCALE as int) as i64,
        tdiv(a.2 * b.0 - a.0 * b.2, SCALE as int) as i64,
        tdiv(a.0 * b.1 - a.1 * b.0, SCALE as int) as i64,
    )
}

/// The fixed-point squared length.
pub open spec fn spec_lsq(v: Vec3) -> int {
    tdiv(dot_full(v, v), SCALE as int)
}

/// Floor of the square root, as a total spec function.
pub open spec fn sqrt_i(x: int) -> int {
    choose|r: int| 0 <= r && #[trigger] (r * r) <= x < (r + 1) * (r + 1)
}

/// The square-root witness an executable square root returns is the one
/// `sqrt_i` denotes.
pub proof fn lemma_sqrt_i_is(x: int, r: int)
    requires
        0 <= r,
        r * r <= x,
        x < (r + 1) * (r + 1),
    ensures
        sqrt_i(x) == r,
{
    let picked = choose|p: int| 0 <= p && #[trigger] (p * p) <= x < (p + 1) * (p + 1);
    assert(0 <= picked && picked * picked <= x < (picked + 1) * (picked + 1));
    assert(picked == r) by (nonlinear_arith)
        requires
            0 <= picked,
            picked * picked <= x < (picked + 1) * (picked + 1),
            0 <= r,
            r * r <= x < (r + 1) * (r + 1),
    ;
}

/// On a nonnegative argument the square-root spec function is well
/// defined: a witness exists, so the chosen value has the floor-root
/// properties.
pub proof fn lemma_sqrt_i_props(x: int)
    requires
        x >= 0,
    ensures
        sqrt_i(x) >= 0,
        sqrt_i(x) * sqrt_i(x) <= x,
        x < (sqrt_i(x) + 1) * (sqrt_i(x) + 1),
    decreases x,
{
    if x == 0 {
        assert(0 * 0 <= 0 < 1 * 1) by (nonlinear_arith);
        lemma_sqrt_i_is(0, 0);
    } else {
        lemma_sqrt_i_props(x - 1);
        let r = sqrt_i(x - 1);
        if (r + 1) * (r + 1) <= x {
            assert(x < (r + 2) * (r + 2)) by (nonlinear_arith)
                requires
                    r >= 0,
                    x - 1 < (r + 1) * (r + 1),
                    (r + 1) * (r + 1) <= x,
            ;
            lemma_sqrt_i_is(x, r + 1);
        } else {
            lemma_sqrt_i_is(x, r);
        }
    }
}

/// The fixed-point length of a vector: the square root of the exact sum
/// of squares, which carries the scale of the components.
pub open spec fn spec_length(v: Vec3) -> int {
    sqrt_i(dot_full(v, v))
}

/// A product of two bounded values is bounded by the product of the
/// bounds.
pub proof fn lemma_prod_bound(a: int, b: int, m: int, n: int)
    by (nonlinear_arith)
    requires
        -m <= a <= m,
        -n <= b <= n,
        0 <= m,
        0 <= n,
    ensures
        -(m * n) <= a * b <= m * n,
{
}

impl Vec3 {
    /// Componentwise magnitude bound.
    pub open spec fn within(self, m: int) -> bool {
        &&& -m <= self.0 <= m
        &&& -m <= self.1 <= m
        &&& -m <= self.2 <= m
    }

    pub fn new(coords: (i64, i64, i64)) -> (r: Self)
        ensures
            r == Vec3(coords.0, coords.1, coords.2),
    {
        Vec3(coords.0, coords.1, coords.2)
    }

    pub fn x(&self) -> (r: i64)
        ensures
            r == self.0,
    {
        self.0
    }

    pub fn y(&self) -> (r: i64)
        ensures
            r == self.1,
    {
        self.1
    }

    pub fn z(&self) -> (r: i64)
        ensures
            r == self.2,
    {
        self.2
    }

    /// The componentwise magnitude bound, tested at run time.
    pub fn check_within(&self, m: i64) -> (b: bool)
        requires
            m >= 0,
        ensures
            b == self.within(m as int),
    {
        self.0 >= -m && self.0 <= m && self.1 >= -m && self.1 <= m && self.2 >= -m && self.2 <= m
    }

    pub fn add(self, rhs: Vec3) -> (r: Vec3)
        requires
            i64::MIN <= self.0 + rhs.0 <= i64::MAX,
            i64::MIN <= self.1 + rhs.1 <= i64::MAX,
            i64::MIN <= self.2 + rhs.2 <= i64::MAX,
        ensures
            r.0 == self.0 + rhs.0,
            r.1 == self.1 + rhs.1,
            r.2 == self.2 + rhs.2,
            r == spec_add(self, rhs),
    {
        Vec3(self.0 + rhs.0, self.1 + rhs.1, self.2 + rhs.2)
    }

    pub fn sub(self, rhs: Vec3) -> (r: Vec3)
        requires
            i64::MIN <= self.0 - rhs.0 <= i64::MAX,
            i64::MIN <= self.1 - rhs.1 <= i64::MAX,
            i64::MIN <= self.2 - rhs.2 <= i64::MAX,
        ensures
            r.0 == self.0 - rhs.0,
            r.1 == self.1 - rhs.1,
            r.2 == self.2 - rhs.2,
            r == spec_sub(self, rhs),
    {
        Vec3(self.0 - rhs.0, self.1 - rhs.1, self.2 - rhs.2)
    }

    pub fn neg(self) -> (r: Vec3)
        requires
            self.0 > i64::MIN,
            self.1 > i64::MIN,
            self.2 > i64::MIN,
        ensures
            r.0 == -self.0,
            r.1 == -self.1,
            r.2 == -self.2,
            r == spec_neg(self),
    {
        Vec3(-self.0, -self.1, -self.2)
    }

    /// Componentwise (Hadamard) product, the tinting operation.
    pub fn mul(self, rhs: Vec3) -> (r: Vec3)
        requires
            -(i64::MAX as int) * (SCALE as int) <= self.0 * rhs.0 <= (i64::MAX as int) * (
            SCALE as int),
            -(i64::MAX as int) * (SCALE as int) <= self.1 * rhs.1 <= (i64::MAX as int) * (
            SCALE as int),
            -(i64::MAX as int) * (SCALE as int) <= self.2 * rhs.2 <= (i64::MAX as int) * (
            SCALE as int),
        ensures
            r.0 == tdiv(self.0 * rhs.0, SCALE as int),
            r.1 == tdiv(self.1 * rhs.1, SCALE as int),
            r.2 == tdiv(self.2 * rhs.2, SCALE as int),
    {
        Vec3(
            crate::fixed::fx_mul(self.0, rhs.0),
            crate::fixed::fx_mul(self.1, rhs.1),
            crate::fixed::fx_mul(self.2, rhs.2),
        )
    }

    /// Product with a fixed-point scalar.
    pub fn scale(self, s: i64) -> (r: Vec3)
        requires
            -(i64::MAX as int) * (SCALE as int) <= self.0 * s <= (i64::MAX as int) * (SCALE as int),
            -(i64::MAX as int) * (SCALE as int) <= self.1 * s <= (i64::MAX as int) * (SCALE as int),
            -(i64::MAX as int) * (SCALE as int) <= self.2 * s <= (i64::MAX as int) * (SCALE as int),
        ensures
            r.0 == tdiv(self.0 * s, SCALE as int),
            r.1 == tdiv(self.1 * s, SCALE as int),
            r.2 == tdiv(self.2 * s, SCALE as int),
            r == spec_scale(self, s as int),
    {
        Vec3(
            crate::fixed::fx_mul(self.0, s),
            crate::fixed::fx_mul(self.1, s),
            crate::fixed::fx_mul(self.2, s),
        )
    }

    /// Quotient by a positive fixed-point scalar.
    pub fn div_fx(self, s: i64) -> (r: Vec3)
        requires
            s > 0,
            -(i64::MAX as int) * (s as int) <= self.0 * (SCALE as int) <= (i64::MAX as int) * (
            s as int),
            -(i64::MAX as int) * (s as int) <= self.1 * (SCALE as int) <= (i64::MAX as int) * (
            s as int),
            -(i64::MAX as int) * (s as int) <= self.2 * (SCALE as int) <= (i64::MAX as int) * (
            s as int),
        ensures
            r.0 == tdiv(self.0 * SCALE as int, s as int),
            r.1 == tdiv(self.1 * SCALE as int, s as int),
            r.2 == tdiv(self.2 * SCALE as int, s as int),
            r == spec_div_fx(self, s as int),
    {
        Vec3(
            crate::fixed::fx_div(self.0, s),
            crate::fixed::fx_div(self.1, s),
            crate::fixed::fx_div(self.2, s),
        )
    }

    /// Quotient by a plain positive count, componentwise.
    pub fn div_n(self, n: i64) -> (r: Vec3)
        requires
            n > 0,
            self.0 > i64::MIN,
            self.1 > i64::MIN,
            self.2 > i64::MIN,
        ensures
            r.0 == tdiv(self.0 as int, n as int),
            r.1 == tdiv(self.1 as int, n as int),
            r.2 == tdiv(self.2 as int, n as int),
            r == spec_div_n(self, n as int),
    {
        proof {
            crate::fixed::lemma_tdiv_bound(self.0 as int, n as int, i64::MAX as int);
            crate::fixed::lemma_tdiv_bound(self.1 as int, n as int, i64::MAX as int);
            crate::fixed::lemma_tdiv_bound(self.2 as int, n as int, i64::MAX as int);
        }
        Vec3(self.0 / n, self.1 / n, self.2 / n)
    }

    pub fn dot(&self, rhs: &Vec3) -> (r: i64)
        requires
            self.within(AMAX as int),
            rhs.within(AMAX as int),
        ensures
            r == spec_dot(*self, *rhs),
            -0x3000_0000_0000_0000 <= r <= 0x3000_0000_0000_0000,
    {
        proof {
            lemma_prod_bound(self.0 as int, rhs.0 as int, AMAX as int, AMAX as int);
            lemma_prod_bound(self.1 as int, rhs.1 as int, AMAX as int, AMAX as int);
            lemma_prod_bound(self.2 as int, rhs.2 as int, AMAX as int, AMAX as int);
            crate::fixed::lemma_tdiv_bound(
                dot_full(*self, *rhs),
                SCALE as int,
                0x3000_0000_0000_0000,
            );
        }
        let p: i128 = (self.0 as i128) * (rhs.0 as i128) + (self.1 as i128) * (rhs.1 as i128) + (
        self.2 as i128) * (rhs.2 as i128);
        let q: i128 = p / (SCALE as i128);
        q as i64
    }

    pub fn cross(&self, rhs: &Vec3) -> (r: Vec3)
        requires
            self.within(AMAX as int),
            rhs.within(AMAX as int),
        ensures
            r.0 == tdiv(self.1 * rhs.2 - self.2 * rhs.1, SCALE as int),
            r.1 == tdiv(self.2 * rhs.0 - self.0 * rhs.2, SCALE as int),
            r.2 == tdiv(self.0 * rhs.1 - self.1 * rhs.0, SCALE as int),
            r == spec_cross(*self, *rhs),
    {
        proof {
            lemma_prod_bound(self.1 as int, rhs.2 as int, AMAX as int, AMAX as int);
            lemma_prod_bound(self.2 as int, rhs.1 as int, AMAX as int, AMAX as int);
            lemma_prod_bound(self.2 as int, rhs.0 as int, AMAX as int, AMAX as int);
            lemma_prod_bound(self.0 as int, rhs.2 as int, AMAX as int, AMAX as int);
            lemma_prod_bound(self.0 as int, rhs.1 as int, AMAX as int, AMAX as int);
            lemma_prod_bound(self.1 as int, rhs.0 as int, AMAX as int, AMAX as int);
            crate::fixed::lemma_tdiv_bound(
                self.1 * rhs.2 - self.2 * rhs.1,
                SCALE as int,
                i64::MAX as int,
            );
            crate::fixed::lemma_tdiv_bound(
                self.2 * rhs.0 - self.0 * rhs.2,
                SCALE as int,
                i64::MAX as int,
            );
            crate::fixed::lemma_tdiv_bound(
                self.0 * rhs.1 - self.1 * rhs.0,
                SCALE as int,
                i64::MAX as int,
            );
        }
        let c0: i128 = ((self.1 as i128) * (rhs.2 as i128) - (self.2 as i128) * (rhs.1 as i128))
            / (SCALE as i128);
        let c1: i128 = ((self.2 as i128) * (rhs.0 as i128) - (self.0 as i128) * (rhs.2 as i128))
            / (SCALE as i128);
        let c2: i128 = ((self.0 as i128) * (rhs.1 as i128) - (self.1 as i128) * (rhs.0 as i128))
            / (SCALE as i128);
        Vec3(c0 as i64, c1 as i64, c2 as i64)
    }

    pub fn length_squared(&self) -> (r: i64)
        requires
            self.within(AMAX as int),
        ensures
            r == tdiv(dot_full(*self, *self), SCALE as int),
            0 <= r <= 0x3000_0000_0000_0000,
    {
        proof {
            lemma_square_nonneg(self.0 as int);
            lemma_square_nonneg(self.1 as int);
            lemma_square_nonneg(self.2 as int);
        }
        self.dot(self)
    }

    pub fn length(&self) -> (r: i64)
        requires
            self.within(AMAX as int),
        ensures
            r == spec_length(*self),
            0 <= r < 0x80_0000_0000,
            (r as int) * (r as int) <= dot_full(*self, *self) < (r + 1) * (r + 1),
    {
        proof {
            lemma_prod_bound(self.0 as int, self.0 as int, AMAX as int, AMAX as int);
            lemma_prod_bound(self.1 as int, self.1 as int, AMAX as int, AMAX as int);
            lemma_prod_bound(self.2 as int, self.2 as int, AMAX as int, AMAX as int);
            lemma_square_nonneg(self.0 as int);
            lemma_square_nonneg(self.1 as int);
            lemma_square_nonneg(self.2 as int);
        }
        let p: i128 = (self.0 as i128) * (self.0 as i128) + (self.1 as i128) * (self.1 as i128) + (
        self.2 as i128) * (self.2 as i128);
        let s: u64 = crate::fixed::sqrt_floor(p as u128);
        proof {
            lemma_sqrt_i_is(p as int, s as int);
            assert(s < 0x80_0000_0000) by (nonlinear_arith)
                requires
                    (s as int) * (s as int) <= p as int,
                    p as int <= 3 * (AMAX as int) * (AMAX as int),
                    s >= 0,
                    AMAX == 0x40_0000_0000i64,
            ;
        }
        s as i64
    }

    /// The vector rescaled to (approximately) unit length.
    pub fn unit(&self) -> (r: Vec3)
        requires
            self.within(AMAX as int),
            *self != Vec3(0, 0, 0),
        ensures
            spec_length(*self) >= 1,
            r.0 == tdiv(self.0 * SCALE as int, spec_length(*self)),
            r.1 == tdiv(self.1 * SCALE as int, spec_length(*self)),
            r.2 == tdiv(self.2 * SCALE as int, spec_length(*self)),
            r == spec_unit(*self),
            r.within(SCALE as int),
    {
        let l: i64 = self.length();
        proof {
            lemma_square_nonneg(self.0 as int);
            lemma_square_nonneg(self.1 as int);
            lemma_square_nonneg(self.2 as int);
            if l == 0 {
                assert(dot_full(*self, *self) < 1);
                assert(self.0 == 0 && self.1 == 0 && self.2 == 0) by (nonlinear_arith)
                    requires
                        self.0 * self.0 + self.1 * self.1 + self.2 * self.2 < 1,
                ;
                assert(false);
            }
            lemma_component_le_length(self.0 as int, dot_full(*self, *self), l as int);
            lemma_component_le_length(self.1 as int, dot_full(*self, *self), l as int);
            lemma_component_le_length(self.2 as int, dot_full(*self, *self), l as int);
            lemma_prod_bound(self.0 as int, SCALE as int, l as int, SCALE as int);
            lemma_prod_bound(self.1 as int, SCALE as int, l as int, SCALE as int);
            lemma_prod_bound(self.2 as int, SCALE as int, l as int, SCALE as int);
            assert((l as int) * (SCALE as int) <= (i64::MAX as int) * (l as int))
                by (nonlinear_arith)
                requires
                    1 <= l,
                    SCALE == 65536i64,
            ;
            crate::fixed::lemma_tdiv_bound(self.0 * SCALE as int, l as int, SCALE as int);
            crate::fixed::lemma_tdiv_bound(self.1 * SCALE as int, l as int, SCALE as int);
            crate::fixed::lemma_tdiv_bound(self.2 * SCALE as int, l as int, SCALE as int);
        }
        self.div_fx(l)
    }

    /// Mirror reflection about a (near unit length) normal:
    /// `v - n * (2 * dot(v, n))`.
    pub fn reflect(&self, rhs: &Vec3) -> (r: Vec3)
        requires
            self.within(AMAX as int),
            rhs.within(2 * SCALE as int),
        ensures
            r.0 == self.0 - tdiv(rhs.0 * (2 * spec_dot(*self, *rhs)), SCALE as int),
            r.1 == self.1 - tdiv(rhs.1 * (2 * spec_dot(*self, *rhs)), SCALE as int),
            r.2 == self.2 - tdiv(rhs.2 * (2 * spec_dot(*self, *rhs)), SCALE as int),
            r == spec_reflect(*self, *rhs),
            r.within(0x1000_0000_0000),
    {
        proof {
            lemma_prod_bound(self.0 as int, rhs.0 as int, AMAX as int, 2 * SCALE as int);
            lemma_prod_bound(self.1 as int, rhs.1 as int, AMAX as int, 2 * SCALE as int);
            lemma_prod_bound(self.2 as int, rhs.2 as int, AMAX as int, 2 * SCALE as int);
            crate::fixed::lemma_tdiv_bound(dot_full(*self, *rhs), SCALE as int, 0x180_0000_0000);
        }
        let d: i64 = self.dot(rhs);
        let d2: i64 = 2 * d;
        proof {
            lemma_prod_bound(rhs.0 as int, d2 as int, 2 * SCALE as int, 0x300_0000_0000);
            lemma_prod_bound(rhs.1 as int, d2 as int, 2 * SCALE as int, 0x300_0000_0000);
            lemma_prod_bound(rhs.2 as int, d2 as int, 2 * SCALE as int, 0x300_0000_0000);
            crate::fixed::lemma_tdiv_bound(rhs.0 * d2 as int, SCALE as int, 0x600_0000_0000);
            crate::fixed::lemma_tdiv_bound(rhs.1 * d2 as int, SCALE as int, 0x600_0000_0000);
            crate::fixed::lemma_tdiv_bound(rhs.2 * d2 as int, SCALE as int, 0x600_0000_0000);
        }
        let t: Vec3 = rhs.scale(d2);
        self.sub(t)
    }
}

/// Lower bound on the accepted squared length of a rejection-sampled
/// point: keeps the subsequent normalization well away from zero.
pub const LSQ_MIN: i64 = 4096;

/// Draws the bounded rejection loop makes before falling back.
pub const SQUARE_TRIES: u64 = 32;

/// A rejection-sampled point is accepted when its squared length lies in
/// the shell `[LSQ_MIN, SCALE)`: inside the unit ball, but not so short
/// that normalizing it loses all precision.
pub open spec fn unit_ball_ok(p: Vec3) -> bool {
    LSQ_MIN <= tdiv(dot_full(p, p), SCALE as int) < SCALE
}

/// The point used if every draw is rejected (astronomically unlikely):
/// half a unit along the first axis, comfortably inside the shell.
pub open spec fn fallback_point() -> Vec3 {
    Vec3(32768, 0, 0)
}

/// Three symmetric draws making one candidate point, with the state that
/// follows them.
pub open spec fn spec_square_draw(s: u64) -> (Vec3, u64) {
    let s1 = next_state(s);
    let s2 = next_state(s1);
    let s3 = next_state(s2);
    (Vec3(symmetric_of(s1), symmetric_of(s2), symmetric_of(s3)), s3)
}

/// The bounded rejection loop: up to `tries` candidate points, the first
/// accepted one wins, and the fallback stands in if none is.
pub open spec fn spec_in_square(s: u64, tries: nat) -> (Vec3, u64)
    decreases tries,
{
    if tries == 0 {
        (fallback_point(), s)
    } else {
        let dr = spec_square_draw(s);
        if unit_ball_ok(dr.0) {
            dr
        } else {
            spec_in_square(dr.1, (tries - 1) as nat)
        }
    }
}

/// A vector rescaled to unit length, componentwise.
pub open spec fn spec_unit(v: Vec3) -> Vec3 {
    Vec3(
        tdiv(v.0 * SCALE as int, spec_length(v)) as i64,
        tdiv(v.1 * SCALE as int, spec_length(v)) as i64,
        tdiv(v.2 * SCALE as int, spec_length(v)) as i64,
    )
}

/// Mirror reflection about a (near unit length) normal:
/// `v - n * (2 * dot(v, n))`.
pub open spec fn spec_reflect(v: Vec3, n: Vec3) -> Vec3 {
    Vec3(
        (v.0 - tdiv(n.0 * (2 * spec_dot(v, n)), SCALE as int)) as i64,
        (v.1 - tdiv(n.1 * (2 * spec_dot(v, n)), SCALE as int)) as i64,
        (v.2 - tdiv(n.2 * (2 * spec_dot(v, n)), SCALE as int)) as i64,
    )
}

/// A random unit vector: the rejection-sampled point, normalized.
pub open spec fn spec_random_unit_vector(s: u64) -> (Vec3, u64) {
    let pr = spec_in_square(s, SQUARE_TRIES as nat);
    (spec_unit(pr.0), pr.1)
}

/// A random unit vector flipped onto the side of the given normal.
pub open spec fn spec_on_hemisphere(s: u64, n: Vec3) -> (Vec3, u64) {
    let ur = spec_random_unit_vector(s);
    if spec_dot(ur.0, n) > 0 {
        ur
    } else {
        (Vec3((-ur.0.0) as i64, (-ur.0.1) as i64, (-ur.0.2) as i64), ur.1)
    }
}

fn sample_square(sampler: &mut Sampler, tries: u64) -> (r: Vec3)
    ensures
        (r, final(sampler).state) == spec_in_square(old(sampler).state, tries as nat),
        unit_ball_ok(r),
        r.within(SCALE as int),
    decreases tries,
{
    if tries == 0 {
        return Vec3(32768, 0, 0);
    }
    let x: i64 = sampler.next_symmetric();
    let y: i64 = sampler.next_symmetric();
    let z: i64 = sampler.next_symmetric();
    let p: Vec3 = Vec3(x, y, z);
    let lsq: i64 = p.length_squared();
    if LSQ_MIN <= lsq && lsq < SCALE {
        p
    } else {
        sample_square(sampler, tries - 1)
    }
}

impl Vec3 {
    /// A random point in the unit-ball shell, by bounded rejection
    /// sampling of the enclosing cube.
    pub fn random_in_unit_square(sampler: &mut Sampler) -> (r: Vec3)
        ensures
            (r, final(sampler).state) == spec_in_square(
                old(sampler).state,
                SQUARE_TRIES as nat,
            ),
            unit_ball_ok(r),
            r.within(SCALE as int),
    {
        sample_square(sampler, SQUARE_TRIES)
    }

    /// A random direction of (approximately) unit length.
    pub fn random_unit_vector(sampler: &mut Sampler) -> (r: Vec3)
        ensures
            (r, final(sampler).state) == spec_random_unit_vector(old(sampler).state),
            r.within(SCALE as int),
    {
        let p: Vec3 = Self::random_in_unit_square(sampler);
        proof {
            if p == Vec3(0, 0, 0) {
                assert(dot_full(p, p) == 0) by (nonlinear_arith)
                    requires
                        p.0 == 0 && p.1 == 0 && p.2 == 0,
                ;
                assert(!unit_ball_ok(p));
            }
        }
        p.unit()
    }

    /// A random unit direction on the hemisphere around `normal`.
    pub fn random_on_hemisphere(sampler: &mut Sampler, normal: &Vec3) -> (r: Vec3)
        requires
            normal.within(AMAX as int),
        ensures
            (r, final(sampler).state) == spec_on_hemisphere(old(sampler).state, *normal),
            r.within(SCALE as int),
    {
        let u: Vec3 = Self::random_unit_vector(sampler);
        let d: i64 = u.dot(normal);
        if d > 0 {
            u
        } else {
            u.neg()
        }
    }
}

/// Angle of incidence equals angle of reflection, up to fixed-point
/// rounding: against a normal whose squared norm is within `dev` of
/// one, the reflected direction's alignment with the normal is the
/// negation of the incoming one's. Scaled by one unit, the defect is
/// bounded by the normal's deviation from unit length (weighted by the
/// incoming alignment) plus the rounding of the four truncating
/// divisions involved.
pub proof fn lemma_reflect_incidence(v: Vec3, n: Vec3, dev: int)
    requires
        v.within(AMAX as int),
        n.within(2 * SCALE as int),
        0 <= dev,
        -dev <= dot_full(n, n) - (SCALE as int) * (SCALE as int) <= dev,
    ensures
        ({
            let r = spec_reflect(v, n);
            let ad = if spec_dot(v, n) >= 0 {
                spec_dot(v, n)
            } else {
                -spec_dot(v, n)
            };
            let slack = 2 * ad * dev + 8 * (SCALE as int) * (SCALE as int);
            -slack <= (SCALE as int) * (dot_full(r, n) + dot_full(v, n)) <= slack
        }),
{
    let s = SCALE as int;
    let ff = dot_full(v, n);
    let nn = dot_full(n, n);
    let dd = spec_dot(v, n);
    let rho0 = ff - s * dd;
    lemma_prod_bound(v.0 as int, n.0 as int, AMAX as int, 2 * s);
    lemma_prod_bound(v.1 as int, n.1 as int, AMAX as int, 2 * s);
    lemma_prod_bound(v.2 as int, n.2 as int, AMAX as int, 2 * s);
    crate::fixed::lemma_tdiv_bound(ff, s, 6 * AMAX as int);
    crate::fixed::lemma_tdiv_remainder(ff, s);
    let x0 = n.0 * (2 * dd);
    let x1 = n.1 * (2 * dd);
    let x2 = n.2 * (2 * dd);
    let q0 = tdiv(x0, s);
    let q1 = tdiv(x1, s);
    let q2 = tdiv(x2, s);
    let rr0 = x0 - s * q0;
    let rr1 = x1 - s * q1;
    let rr2 = x2 - s * q2;
    lemma_prod_bound(n.0 as int, 2 * dd, 2 * s, 12 * AMAX as int);
    lemma_prod_bound(n.1 as int, 2 * dd, 2 * s, 12 * AMAX as int);
    lemma_prod_bound(n.2 as int, 2 * dd, 2 * s, 12 * AMAX as int);
    crate::fixed::lemma_tdiv_bound(x0, s, 24 * AMAX as int);
    crate::fixed::lemma_tdiv_bound(x1, s, 24 * AMAX as int);
    crate::fixed::lemma_tdiv_bound(x2, s, 24 * AMAX as int);
    crate::fixed::lemma_tdiv_remainder(x0, s);
    crate::fixed::lemma_tdiv_remainder(x1, s);
    crate::fixed::lemma_tdiv_remainder(x2, s);
    let r = spec_reflect(v, n);
    assert(r.0 == v.0 - q0 && r.1 == v.1 - q1 && r.2 == v.2 - q2);
    assert(dot_full(r, n) == ff - (q0 * n.0 + q1 * n.1 + q2 * n.2)) by (nonlinear_arith)
        requires
            r.0 == v.0 - q0 && r.1 == v.1 - q1 && r.2 == v.2 - q2,
            dot_full(r, n) == r.0 * n.0 + r.1 * n.1 + r.2 * n.2,
            ff == v.0 * n.0 + v.1 * n.1 + v.2 * n.2,
    ;
    assert(s * (q0 * n.0) == 2 * dd * (n.0 * n.0) - rr0 * n.0) by (nonlinear_arith)
        requires
            x0 == n.0 * (2 * dd),
            rr0 == x0 - s * q0,
    ;
    assert(s * (q1 * n.1) == 2 * dd * (n.1 * n.1) - rr1 * n.1) by (nonlinear_arith)
        requires
            x1 == n.1 * (2 * dd),
            rr1 == x1 - s * q1,
    ;
    assert(s * (q2 * n.2) == 2 * dd * (n.2 * n.2) - rr2 * n.2) by (nonlinear_arith)
        requires
            x2 == n.2 * (2 * dd),
            rr2 == x2 - s * q2,
    ;
    assert(s * (q0 * n.0 + q1 * n.1 + q2 * n.2) == 2 * dd * nn - (rr0 * n.0 + rr1 * n.1 + rr2
        * n.2)) by (nonlinear_arith)
        requires
            s * (q0 * n.0) == 2 * dd * (n.0 * n.0) - rr0 * n.0,
            s * (q1 * n.1) == 2 * dd * (n.1 * n.1) - rr1 * n.1,
            s * (q2 * n.2) == 2 * dd * (n.2 * n.2) - rr2 * n.2,
            nn == n.0 * n.0 + n.1 * n.1 + n.2 * n.2,
    ;
    assert(s * (dot_full(r, n) + ff) == 2 * dd * (s * s - nn) + 2 * s * rho0 + (rr0 * n.0 + rr1
        * n.1 + rr2 * n.2)) by (nonlinear_arith)
        requires
            dot_full(r, n) == ff - (q0 * n.0 + q1 * n.1 + q2 * n.2),
            s * (q0 * n.0 + q1 * n.1 + q2 * n.2) == 2 * dd * nn - (rr0 * n.0 + rr1 * n.1 + rr2
                * n.2),
            ff == s * dd + rho0,
    ;
    let ad = if dd >= 0 {
        dd
    } else {
        -dd
    };
    assert(-(2 * ad * dev) <= 2 * dd * (s * s - nn) <= 2 * ad * dev) by (nonlinear_arith)
        requires
            ad == (if dd >= 0 {
                dd
            } else {
                -dd
            }),
            -dev <= nn - s * s <= dev,
            0 <= dev,
    ;
    assert(-(2 * s * s) <= 2 * s * rho0 <= 2 * s * s) by (nonlinear_arith)
        requires
            -s < rho0 < s,
            s == 65536,
    ;
    assert(-(6 * s * s) <= rr0 * n.0 + rr1 * n.1 + rr2 * n.2 <= 6 * s * s) by (nonlinear_arith)
        requires
            -s < rr0 < s && -s < rr1 < s && -s < rr2 < s,
            -(2 * s) <= n.0 <= 2 * s && -(2 * s) <= n.1 <= 2 * s && -(2 * s) <= n.2 <= 2 * s,
            s == 65536,
    ;
}

/// Normalizing any vector of at least unit length gives a vector whose
/// own length is one to within four fixed-point steps: the three
/// truncating divisions and the floor square root each lose less than
/// one step, and the bound collects them.
pub proof fn lemma_unit_length(v: Vec3)
    requires
        v.within(AMAX as int),
        dot_full(v, v) >= (SCALE as int) * (SCALE as int),
    ensures
        ({
            let u = spec_unit(v);
            SCALE - 4 <= sqrt_i(dot_full(u, u)) <= SCALE + 1
        }),
{
    let s = SCALE as int;
    let m = dot_full(v, v);
    let ll = spec_length(v);
    assert(m >= 0) by (nonlinear_arith)
        requires
            m == v.0 * v.0 + v.1 * v.1 + v.2 * v.2,
    ;
    lemma_sqrt_i_props(m);
    assert(ll >= s) by (nonlinear_arith)
        requires
            ll >= 0,
            m < (ll + 1) * (ll + 1),
            m >= s * s,
            s == 65536,
    ;
    lemma_square_nonneg(v.0 as int);
    lemma_square_nonneg(v.1 as int);
    lemma_square_nonneg(v.2 as int);
    lemma_component_le_length(v.0 as int, m, ll);
    lemma_component_le_length(v.1 as int, m, ll);
    lemma_component_le_length(v.2 as int, m, ll);
    let y0 = v.0 * s;
    let y1 = v.1 * s;
    let y2 = v.2 * s;
    let q0 = tdiv(y0, ll);
    let q1 = tdiv(y1, ll);
    let q2 = tdiv(y2, ll);
    let p0 = y0 - ll * q0;
    let p1 = y1 - ll * q1;
    let p2 = y2 - ll * q2;
    crate::fixed::lemma_tdiv_remainder(y0, ll);
    crate::fixed::lemma_tdiv_remainder(y1, ll);
    crate::fixed::lemma_tdiv_remainder(y2, ll);
    lemma_prod_bound(v.0 as int, s, ll, s);
    lemma_prod_bound(v.1 as int, s, ll, s);
    lemma_prod_bound(v.2 as int, s, ll, s);
    assert(ll * s == s * ll) by (nonlinear_arith);
    crate::fixed::lemma_tdiv_bound(y0, ll, s);
    crate::fixed::lemma_tdiv_bound(y1, ll, s);
    crate::fixed::lemma_tdiv_bound(y2, ll, s);
    let u = spec_unit(v);
    assert(u.0 == q0 && u.1 == q1 && u.2 == q2);
    let uu = dot_full(u, u);
    let g0 = ll * q0;
    let g1 = ll * q1;
    let g2 = ll * q2;
    assert(g0 * g0 == (v.0 * v.0) * (s * s) - 2 * s * (v.0 * p0) + p0 * p0) by (nonlinear_arith)
        requires
            g0 == v.0 * s - p0,
            s == 65536,
    ;
    assert(g1 * g1 == (v.1 * v.1) * (s * s) - 2 * s * (v.1 * p1) + p1 * p1) by (nonlinear_arith)
        requires
            g1 == v.1 * s - p1,
            s == 65536,
    ;
    assert(g2 * g2 == (v.2 * v.2) * (s * s) - 2 * s * (v.2 * p2) + p2 * p2) by (nonlinear_arith)
        requires
            g2 == v.2 * s - p2,
            s == 65536,
    ;
    assert(ll * ll * (q0 * q0) == g0 * g0 && ll * ll * (q1 * q1) == g1 * g1 && ll * ll * (q2 * q2)
        == g2 * g2) by (nonlinear_arith)
        requires
            g0 == ll * q0 && g1 == ll * q1 && g2 == ll * q2,
    ;
    assert(ll * ll * uu == m * (s * s) - 2 * s * (v.0 * p0 + v.1 * p1 + v.2 * p2) + (p0 * p0 + p1
        * p1 + p2 * p2)) by (nonlinear_arith)
        requires
            ll * ll * (q0 * q0) == (v.0 * v.0) * (s * s) - 2 * s * (v.0 * p0) + p0 * p0,
            ll * ll * (q1 * q1) == (v.1 * v.1) * (s * s) - 2 * s * (v.1 * p1) + p1 * p1,
            ll * ll * (q2 * q2) == (v.2 * v.2) * (s * s) - 2 * s * (v.2 * p2) + p2 * p2,
            uu == q0 * q0 + q1 * q1 + q2 * q2,
            m == v.0 * v.0 + v.1 * v.1 + v.2 * v.2,
            s == 65536,
    ;
    assert(0 <= v.0 * p0 <= ll * ll && 0 <= p0 * p0 <= ll * ll) by (nonlinear_arith)
        requires
            v.0 * s >= 0 ==> 0 <= p0 < ll,
            v.0 * s < 0 ==> -ll < p0 <= 0,
            -ll <= v.0 <= ll,
            ll >= 1,
            s == 65536,
    ;
    assert(0 <= v.1 * p1 <= ll * ll && 0 <= p1 * p1 <= ll * ll) by (nonlinear_arith)
        requires
            v.1 * s >= 0 ==> 0 <= p1 < ll,
            v.1 * s < 0 ==> -ll < p1 <= 0,
            -ll <= v.1 <= ll,
            ll >= 1,
            s == 65536,
    ;
    assert(0 <= v.2 * p2 <= ll * ll && 0 <= p2 * p2 <= ll * ll) by (nonlinear_arith)
        requires
            v.2 * s >= 0 ==> 0 <= p2 < ll,
            v.2 * s < 0 ==> -ll < p2 <= 0,
            -ll <= v.2 <= ll,
            ll >= 1,
            s == 65536,
    ;
    assert(uu >= s * s - 6 * s) by (nonlinear_arith)
        requires
            ll * ll * uu == m * (s * s) - 2 * s * (v.0 * p0 + v.1 * p1 + v.2 * p2) + (p0 * p0 + p1
                * p1 + p2 * p2),
            0 <= v.0 * p0 <= ll * ll && 0 <= v.1 * p1 <= ll * ll && 0 <= v.2 * p2 <= ll * ll,
            0 <= p0 * p0 && 0 <= p1 * p1 && 0 <= p2 * p2,
            m >= ll * ll,
            ll >= s,
            s == 65536,
    ;
    assert(uu <= s * s + 3 * s + 3) by (nonlinear_arith)
        requires
            ll * ll * uu == m * (s * s) - 2 * s * (v.0 * p0 + v.1 * p1 + v.2 * p2) + (p0 * p0 + p1
                * p1 + p2 * p2),
            0 <= v.0 * p0 && 0 <= v.1 * p1 && 0 <= v.2 * p2,
            p0 * p0 <= ll * ll && p1 * p1 <= ll * ll && p2 * p2 <= ll * ll,
            m < (ll + 1) * (ll + 1),
            ll >= s,
            s == 65536,
    ;
    lemma_sqrt_i_props(uu);
    let root = sqrt_i(uu);
    assert(s - 4 <= root <= s + 1) by (nonlinear_arith)
        requires
            root >= 0,
            root * root <= uu,
            uu < (root + 1) * (root + 1),
            s * s - 6 * s <= uu <= s * s + 3 * s + 3,
            s == 65536,
    ;
}

proof fn lemma_square_nonneg(a: int)
    by (nonlinear_arith)
    ensures
        a * a >= 0,
{
}

/// Any component of a vector is bounded in magnitude by the vector's
/// length: `c * c` is part of the sum of squares under the root.
proof fn lemma_component_le_length(c: int, full: int, l: int)
    by (nonlinear_arith)
    requires
        c * c <= full,
        0 <= l,
        full < (l + 1) * (l + 1),
    ensures
        -l <= c <= l,
{
}

} // verus!
