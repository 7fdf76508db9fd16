//! Rays: an origin and an (unnormalized) direction.

use crate::fixed::{tdiv, SCALE};
use crate::vec::{lemma_prod_bound, Vec3, AMAX, RMAX};
use vstd::prelude::*;

verus! {

/// The render horizon: the largest hit distance the tracer reports, and
/// the distance at which the background sits.
pub const HORIZON: i64 = 0x100_0000_0000;

#[derive(Clone, Copy, Debug, PartialEq, Eq, Structural)]
pub struct Ray {
    pub origin: Vec3,
    pub direction: Vec3,
}

/// The point a ray reaches after travelling `t` along its direction.
pub open spec fn spec_at(r: Ray, t: int) -> Vec3 {
    Vec3(
        (r.origin.0 + tdiv(r.direction.0 * t, SCALE as int)) as i64,
        (r.origin.1 + tdiv(r.direction.1 * t, SCALE as int)) as i64,
        (r.origin.2 + tdiv(r.direction.2 * t, SCALE as int)) as i64,
    )
}

impl Ray {
    pub fn new(origin: Vec3, direction: Vec3) -> (r: Ray)
        ensures
            r == (Ray { origin, direction }),
    {
        Ray { origin, direction }
    }

    pub fn at(&self, t: i64) -> (r: Vec3)
        requires
            self.origin.within(RMAX as int),
            self.direction.within(AMAX as int),
            0 <= t <= HORIZON,
        ensures
            r.0 == self.origin.0 + tdiv(self.direction.0 * t, SCALE as int),
            r.1 == self.origin.1 + tdiv(self.direction.1 * t, SCALE as int),
            r.2 == self.origin.2 + tdiv(self.direction.2 * t, SCALE as int),
            r == spec_at(*self, t as int),
            r.within(0x4100_0000_0000_0000),
    {
        proof {
            lemma_prod_bound(self.direction.0 as int, t as int, AMAX as int, HORIZON as int);
            lemma_prod_bound(self.direction.1 as int, t as int, AMAX as int, HORIZON as int);
            lemma_prod_bound(self.direction.2 as int, t as int, AMAX as int, HORIZON as int);
            crate::fixed::lemma_tdiv_bound(
                self.direction.0 * t,
                SCALE as int,
                0x4000_0000_0000_0000,
            );
            crate::fixed::lemma_tdiv_bound(
                self.direction.1 * t,
                SCALE as int,
                0x4000_0000_0000_0000,
            );
            crate::fixed::lemma_tdiv_bound(
                self.direction.2 * t,
                SCALE as int,
                0x4000_0000_0000_0000,
            );
        }
        let sx: i64 = ((self.direction.0 as i128) * (t as i128) / (SCALE as i128)) as i64;
        let sy: i64 = ((self.direction.1 as i128) * (t as i128) / (SCALE as i128)) as i64;
        let sz: i64 = ((self.direction.2 as i128) * (t as i128) / (SCALE as i128)) as i64;
        Vec3(self.origin.0 + sx, self.origin.1 + sy, self.origin.2 + sz)
    }
}

} // verus!
