//! The closed set of primitive shapes, each with a ray-intersection test.

use crate::fixed::{tdiv, SCALE};
use crate::ray::{spec_at, Ray, HORIZON};
use crate::vec::{
    dot_full, lemma_prod_bound, lemma_sqrt_i_is, spec_div_fx, spec_dot, spec_lsq, spec_neg,
    spec_sub, sqrt_i, Vec3, AMAX, CMAX, RMAX,
};
use vstd::prelude::*;

verus! {

#[derive(Clone, Copy, Debug, PartialEq, Eq, Structural)]
pub enum Shape {
    /// The infinite environment: always struck, at the render horizon, so
    /// any finite geometry supersedes it.
    Background,
    Sphere { centre: Vec3, radius: i64 },
}

/// The surface record produced for a sphere hit at distance `t`: the hit
/// point, the outward normal rescaled to unit length, and the front-face
/// flag, with the normal flipped to face against the ray. A hit whose
/// fixed-point intermediate values degenerate (a point flung far outside
/// the scene's coordinate bound, or a normal far from unit length) is not
/// reported.
pub open spec fn spec_sphere_surface(centre: Vec3, radius: i64, ray: Ray, t: int) -> Option<
    (i64, Vec3, bool),
> {
    let p = spec_at(ray, t);
    let oc = spec_sub(p, centre);
    if !oc.within(2 * CMAX as int) {
        None
    } else {
        let n_out = spec_div_fx(oc, radius as int);
        if !n_out.within(2 * SCALE as int) {
            None
        } else if spec_dot(ray.direction, n_out) < 0 {
            Some((t as i64, n_out, true))
        } else {
            Some((t as i64, spec_neg(n_out), false))
        }
    }
}

/// The nearest root of `|origin + t * direction - centre|^2 == radius^2`
/// within the open interval `(t_min, t_max)`, with its surface record.
/// The smaller root is preferred; the larger is tried only when the
/// smaller lies outside the interval.
pub open spec fn spec_sphere_hit(
    centre: Vec3,
    radius: i64,
    ray: Ray,
    t_min: int,
    t_max: int,
) -> Option<(i64, Vec3, bool)> {
    let oc = spec_sub(ray.origin, centre);
    let a = spec_lsq(ray.direction);
    let half_b = spec_dot(oc, ray.direction);
    let c = spec_lsq(oc) - tdiv(radius * radius, SCALE as int);
    let disc = half_b * half_b - a * c;
    if a <= 0 || disc < 0 {
        None
    } else {
        let sd = sqrt_i(disc);
        let t1 = tdiv((-half_b - sd) * SCALE as int, a);
        let t2 = tdiv((-half_b + sd) * SCALE as int, a);
        let t = if t_min < t1 && t1 < t_max {
            t1
        } else {
            t2
        };
        if t_min < t && t < t_max {
            spec_sphere_surface(centre, radius, ray, t)
        } else {
            None
        }
    }
}

/// What `Shape::hit_test` returns: the sphere root search, or the
/// background's horizon hit with a degenerate normal.
pub open spec fn spec_shape_hit(shape: Shape, ray: Ray, t_min: int, t_max: int) -> Option<
    (i64, Vec3, bool),
> {
    match shape {
        Shape::Background => if t_min < HORIZON && HORIZON < t_max {
            Some((HORIZON, Vec3(0, 0, 0), true))
        } else {
            None
        },
        Shape::Sphere { centre, radius } => spec_sphere_hit(centre, radius, ray, t_min, t_max),
    }
}

/// A reported hit's distance lies strictly inside the search interval.
pub proof fn lemma_shape_hit_in_range(shape: Shape, ray: Ray, t_min: int, t_max: int)
    requires
        0 <= t_min,
        t_max <= HORIZON + 1,
    ensures
        spec_shape_hit(shape, ray, t_min, t_max) matches Some(o) ==> t_min < o.0 < t_max,
{
    match shape {
        Shape::Background => {},
        Shape::Sphere { centre, radius } => {},
    }
}

/// Narrowing the far end of the search interval only filters: the hit a
/// narrower interval reports is exactly the full-interval hit when its
/// distance lies inside the narrower bound, and nothing otherwise. This
/// is what lets the scene's shrinking closest-so-far search stand for an
/// independent full-interval test of every geometry.
pub proof fn lemma_shape_hit_narrow(shape: Shape, ray: Ray, t_min: int, m: int)
    requires
        0 <= t_min,
        m <= HORIZON + 1,
    ensures
        spec_shape_hit(shape, ray, t_min, m) == (match spec_shape_hit(
            shape,
            ray,
            t_min,
            (HORIZON + 1) as int,
        ) {
            Some(h) => if h.0 < m {
                Some(h)
            } else {
                None
            },
            None => None,
        }),
{
    match shape {
        Shape::Background => {},
        Shape::Sphere { centre, radius } => {
            let oc = spec_sub(ray.origin, centre);
            let a = spec_lsq(ray.direction);
            let half_b = spec_dot(oc, ray.direction);
            let c = spec_lsq(oc) - tdiv(radius * radius, SCALE as int);
            let disc = half_b * half_b - a * c;
            if a <= 0 || disc < 0 {
            } else {
                let sd = sqrt_i(disc);
                crate::vec::lemma_sqrt_i_props(disc);
                let t1 = tdiv((-half_b - sd) * SCALE as int, a);
                let t2 = tdiv((-half_b + sd) * SCALE as int, a);
                assert((-half_b - sd) * SCALE as int <= (-half_b + sd) * SCALE as int)
                    by (nonlinear_arith)
                    requires
                        sd >= 0,
                        SCALE == 65536i64,
                ;
                crate::fixed::lemma_tdiv_mono(
                    (-half_b - sd) * SCALE as int,
                    (-half_b + sd) * SCALE as int,
                    a,
                );
                assert(t1 <= t2);
            }
        },
    }
}

/// Either root the sphere test computes approximately solves the
/// sphere's quadratic `a*t^2 + 2*half_b*t + c == 0` (written over the
/// fixed-point scale): the residual, multiplied through by `a` to stay
/// in integers, is bounded by what the floor square root and the final
/// truncating division lose. This is the root-finding half of the claim
/// that a reported hit lies on the sphere's surface.
pub proof fn lemma_sphere_root_residual(a: int, half_b: int, c: int, plus: bool)
    requires
        a >= 1,
        half_b * half_b - a * c >= 0,
    ensures
        ({
            let s = SCALE as int;
            let disc = half_b * half_b - a * c;
            let sd = sqrt_i(disc);
            let num = if plus {
                (-half_b + sd) * s
            } else {
                (-half_b - sd) * s
            };
            let t = tdiv(num, a);
            let residual = a * (a * (t * t) + 2 * half_b * s * t + c * (s * s));
            -(2 * sd * (s * s) + 2 * s * a * sd + a * a) <= residual <= 2 * s * a * sd + a * a
        }),
{
    let s = SCALE as int;
    let disc = half_b * half_b - a * c;
    let sd = sqrt_i(disc);
    crate::vec::lemma_sqrt_i_props(disc);
    assert(0 <= disc - sd * sd <= 2 * sd) by (nonlinear_arith)
        requires
            sd >= 0,
            sd * sd <= disc,
            disc < (sd + 1) * (sd + 1),
    ;
    let num = if plus {
        (-half_b + sd) * s
    } else {
        (-half_b - sd) * s
    };
    let t = tdiv(num, a);
    crate::fixed::lemma_tdiv_remainder(num, a);
    let rho = num - a * t;
    let g = a * t;
    let e = if plus {
        sd * s
    } else {
        -(sd * s)
    };
    assert(g == num - rho && num + half_b * s == e) by (nonlinear_arith)
        requires
            rho == num - a * t,
            g == a * t,
            num == (if plus {
                (-half_b + sd) * s
            } else {
                (-half_b - sd) * s
            }),
            e == (if plus {
                sd * s
            } else {
                -(sd * s)
            }),
    ;
    assert(e * e == (sd * sd) * (s * s)) by (nonlinear_arith)
        requires
            e == (if plus {
                sd * s
            } else {
                -(sd * s)
            }),
    ;
    assert(g * g + 2 * half_b * s * g + (a * c) * (s * s) == (s * s) * (sd * sd - disc) - 2 * rho
        * e + rho * rho) by (nonlinear_arith)
        requires
            g == num - rho,
            num + half_b * s == e,
            e * e == (sd * sd) * (s * s),
            disc == half_b * half_b - a * c,
            s == 65536,
    ;
    assert(a * (a * (t * t) + 2 * half_b * s * t + c * (s * s)) == g * g + 2 * half_b * s * g + (a
        * c) * (s * s)) by (nonlinear_arith)
        requires
            g == a * t,
    ;
    assert(-(2 * s * a * sd) <= 2 * rho * e <= 2 * s * a * sd && 0 <= rho * rho <= a * a)
        by (nonlinear_arith)
        requires
            -a < rho < a,
            e == (if plus {
                sd * s
            } else {
                -(sd * s)
            }),
            sd >= 0,
            a >= 1,
            s == 65536,
    ;
    assert(-(2 * sd * (s * s)) <= (s * s) * (sd * sd - disc) <= 0) by (nonlinear_arith)
        requires
            0 <= disc - sd * sd <= 2 * sd,
            s == 65536,
    ;
}

/// The distance a sphere hit reports approximately solves the sphere's
/// quadratic: `lemma_sphere_root_residual`, applied to whichever root
/// the hit chose.
pub proof fn lemma_sphere_hit_near_surface(
    centre: Vec3,
    radius: i64,
    ray: Ray,
    t_min: int,
    t_max: int,
)
    requires
        0 <= t_min,
        t_max <= HORIZON + 1,
    ensures
        ({
            let s = SCALE as int;
            let oc = spec_sub(ray.origin, centre);
            let a = spec_lsq(ray.direction);
            let half_b = spec_dot(oc, ray.direction);
            let c = spec_lsq(oc) - tdiv(radius * radius, s);
            let sd = sqrt_i(half_b * half_b - a * c);
            spec_sphere_hit(centre, radius, ray, t_min, t_max) matches Some(h) ==> {
                let t = h.0 as int;
                let residual = a * (a * (t * t) + 2 * half_b * s * t + c * (s * s));
                -(2 * sd * (s * s) + 2 * s * a * sd + a * a) <= residual <= 2 * s * a * sd + a * a
            }
        }),
{
    let s = SCALE as int;
    let oc = spec_sub(ray.origin, centre);
    let a = spec_lsq(ray.direction);
    let half_b = spec_dot(oc, ray.direction);
    let c = spec_lsq(oc) - tdiv(radius * radius, s);
    let disc = half_b * half_b - a * c;
    if spec_sphere_hit(centre, radius, ray, t_min, t_max) is Some {
        lemma_sphere_root_residual(a, half_b, c, false);
        lemma_sphere_root_residual(a, half_b, c, true);
    }
}

impl Shape {
    /// Validity: sphere centres within the scene's coordinate bound and
    /// a positive in-bound radius.
    pub open spec fn wf(self) -> bool {
        match self {
            Shape::Background => true,
            Shape::Sphere { centre, radius } => centre.within(CMAX as int) && 1 <= radius <= CMAX,
        }
    }

    /// The hit this shape reports in the open distance interval
    /// `(t_min, t_max)`: distance, normal facing against the ray, and the
    /// front-face flag.
    pub fn hit_test(&self, ray: &Ray, t_min: i64, t_max: i64) -> (r: Option<(i64, Vec3, bool)>)
        requires
            self.wf(),
            ray.origin.within(RMAX as int),
            ray.direction.within(RMAX as int),
            0 <= t_min,
            t_max <= HORIZON + 1,
        ensures
            r == spec_shape_hit(*self, *ray, t_min as int, t_max as int),
            r matches Some(h) ==> t_min < h.0 <= HORIZON && h.0 < t_max && h.1.within(
                2 * SCALE as int,
            ),
    {
        match self {
            Shape::Background => {
                if t_min < HORIZON && HORIZON < t_max {
                    Some((HORIZON, Vec3(0, 0, 0), true))
                } else {
                    None
                }
            },
            Shape::Sphere { centre, radius } => {
                let oc: Vec3 = ray.origin.sub(*centre);
                let a: i64 = ray.direction.length_squared();
                if a <= 0 {
                    return None;
                }
                let half_b: i64 = oc.dot(&ray.direction);
                proof {
                    lemma_prod_bound(*radius as int, *radius as int, CMAX as int, CMAX as int);
                }
                let rsq: i64 = crate::fixed::fx_mul(*radius, *radius);
                proof {
                    crate::fixed::lemma_tdiv_bound(
                        *radius as int * *radius as int,
                        SCALE as int,
                        0x1_0000_0000_0000,
                    );
                }
                let c: i64 = oc.length_squared() - rsq;
                proof {
                    lemma_prod_bound(
                        half_b as int,
                        half_b as int,
                        0x3000_0000_0000_0000,
                        0x3000_0000_0000_0000,
                    );
                    lemma_prod_bound(
                        a as int,
                        c as int,
                        0x3000_0000_0000_0000,
                        0x4000_0000_0000_0000,
                    );
                }
                let disc: i128 = (half_b as i128) * (half_b as i128) - (a as i128) * (c as i128);
                if disc < 0 {
                    return None;
                }
                let sd: u64 = crate::fixed::sqrt_floor(disc as u128);
                proof {
                    lemma_sqrt_i_is(disc as int, sd as int);
                }
                let num1: i128 = (-(half_b as i128) - (sd as i128)) * (SCALE as i128);
                let num2: i128 = (-(half_b as i128) + (sd as i128)) * (SCALE as i128);
                let t1: i128 = num1 / (a as i128);
                let t2: i128 = num2 / (a as i128);
                let t: i64 = if (t_min as i128) < t1 && t1 < (t_max as i128) {
                    t1 as i64
                } else if (t_min as i128) < t2 && t2 < (t_max as i128) {
                    t2 as i64
                } else {
                    return None;
                };
                self.sphere_surface(ray, t)
            },
        }
    }

    /// The surface record for an already-chosen sphere root.
    fn sphere_surface(&self, ray: &Ray, t: i64) -> (r: Option<(i64, Vec3, bool)>)
        requires
            self is Sphere,
            self.wf(),
            ray.origin.within(RMAX as int),
            ray.direction.within(RMAX as int),
            0 < t <= HORIZON,
        ensures
            r == spec_sphere_surface(self->centre, self->radius, *ray, t as int),
            r matches Some(h) ==> h.0 == t && h.1.within(2 * SCALE as int),
    {
        let centre: Vec3 = match self {
            Shape::Sphere { centre, radius: _ } => *centre,
            Shape::Background => Vec3(0, 0, 0),
        };
        let radius: i64 = match self {
            Shape::Sphere { centre: _, radius } => *radius,
            Shape::Background => 1,
        };
        let p: Vec3 = ray.at(t);
        let oc: Vec3 = p.sub(centre);
        let bound: i64 = 2 * CMAX;
        if oc.0 < -bound || oc.0 > bound || oc.1 < -bound || oc.1 > bound || oc.2 < -bound || oc.2
            > bound {
            return None;
        }
        proof {
            lemma_prod_bound(oc.0 as int, SCALE as int, 2 * CMAX as int, SCALE as int);
            lemma_prod_bound(oc.1 as int, SCALE as int, 2 * CMAX as int, SCALE as int);
            lemma_prod_bound(oc.2 as int, SCALE as int, 2 * CMAX as int, SCALE as int);
            assert(2 * (CMAX as int) * (SCALE as int) <= (i64::MAX as int) * (radius as int))
                by (nonlinear_arith)
                requires
                    1 <= radius,
                    CMAX == 0x1_0000_0000i64,
                    SCALE == 65536i64,
            ;
        }
        let n_out: Vec3 = oc.div_fx(radius);
        let nb: i64 = 2 * SCALE;
        if n_out.0 < -nb || n_out.0 > nb || n_out.1 < -nb || n_out.1 > nb || n_out.2 < -nb || n_out.2
            > nb {
            return None;
        }
        let d: i64 = ray.direction.dot(&n_out);
        if d < 0 {
            Some((t, n_out, true))
        } else {
            Some((t, n_out.neg(), false))
        }
    }
}

} // verus!
