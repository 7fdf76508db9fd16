//! The scene and its light-transport integrator.
//!
//! A scene owns one camera and an ordered list of geometry; rendering a
//! pixel averages the colour of sampled camera rays, each traced by a
//! closest-hit search and a depth-bounded recursion over material
//! scattering. Every function's result (and the sampler state it leaves
//! behind) is pinned to a spec-level mirror, so a render is a proved
//! function of the scene, the pixel and the seed.

use crate::camera::{spec_screen_to_world_sampled, Camera, COORD_MAX};
use crate::colour::{channels_within, spec_attenuate, spec_tint, Colour};
use crate::fixed::{tdiv, SCALE};
use crate::geometry::Geometry;
use crate::hit::Hit;
use crate::material::Material;
use crate::ray::{spec_at, Ray, HORIZON};
use crate::sampler::Sampler;
use crate::shape::{lemma_shape_hit_in_range, lemma_shape_hit_narrow, spec_shape_hit};
use crate::vec::{
    dot_full, lemma_prod_bound, lemma_sqrt_i_is, spec_add, spec_dot, spec_lsq, spec_on_hemisphere,
    spec_random_unit_vector, spec_reflect, spec_scale, spec_unit, sqrt_i, Vec3, RMAX,
};
use vstd::prelude::*;

verus! {

/// Closest distance at which a hit counts: keeps a scattered ray from
/// striking the surface it just left ("shadow acne").
pub const EPSILON: i64 = 66;

/// The colour every integrator output channel stays within (twice full
/// brightness, signed: gradients of an off-unit normal can leave
/// `[0, 1]`, but never this range).
pub const CHANNEL_BOUND: i64 = 131072;

pub open spec fn black() -> Colour {
    Colour(Vec3(0, 0, 0))
}

/// The sentinel colour for a ray that strikes nothing at all — a scene
/// without a background geometry signals itself loudly.
pub open spec fn magenta() -> Colour {
    Colour(Vec3(65536, 0, 65536))
}

/// Everything the integrator relies on about a reported hit.
pub open spec fn hit_ok(h: Hit) -> bool {
    &&& h.normal.within(2 * SCALE as int)
    &&& 0 < h.t <= HORIZON
    &&& h.material.wf()
}

/// The closest-hit search from geometry index `i` on, carrying the best
/// hit so far and its distance as the exclusive search bound: a later
/// geometry only supersedes the best on a strictly smaller distance, so
/// the earliest geometry wins exact ties.
pub open spec fn spec_hit_from(
    geos: Seq<Geometry>,
    ray: Ray,
    i: int,
    best_t: i64,
    best: Option<Hit>,
) -> Option<Hit>
    decreases geos.len() - i,
{
    if i < 0 || i >= geos.len() {
        best
    } else {
        match spec_shape_hit(geos[i].shape, ray, EPSILON as int, best_t as int) {
            Some(h) => spec_hit_from(
                geos,
                ray,
                i + 1,
                h.0,
                Some(
                    Hit {
                        material: geos[i].material,
                        point: spec_at(ray, h.0 as int),
                        normal: h.1,
                        t: h.0,
                        front_face: h.2,
                    },
                ),
            ),
            None => spec_hit_from(geos, ray, i + 1, best_t, best),
        }
    }
}

/// The hit the scene reports: the linear scan over all geometry.
pub open spec fn spec_scene_hit(geos: Seq<Geometry>, ray: Ray) -> Option<Hit> {
    spec_hit_from(geos, ray, 0, (HORIZON + 1) as i64, None)
}

/// The view-dependent sky term: sky blue for a ray pointing straight
/// down blending to white for one pointing straight up, by the
/// normalized ray direction's vertical component mapped from `[-1, 1]`
/// to `[0, 1]`; black for a degenerate zero direction.
pub open spec fn spec_sky_colour(dir: Vec3) -> Colour {
    if dir == Vec3(0, 0, 0) {
        black()
    } else {
        let u = spec_unit(dir);
        let a = tdiv(u.1 + SCALE, 2);
        Colour(
            Vec3(
                (tdiv(32768 * (SCALE - a), SCALE as int) + tdiv(65536 * a, SCALE as int)) as i64,
                (tdiv(45875 * (SCALE - a), SCALE as int) + tdiv(65536 * a, SCALE as int)) as i64,
                (tdiv(65536 * (SCALE - a), SCALE as int) + tdiv(65536 * a, SCALE as int)) as i64,
            ),
        )
    }
}

/// The hit normal visualized as a colour: `(normal + 1) / 2` channelwise.
pub open spec fn spec_normal_colour(n: Vec3) -> Colour {
    Colour(
        Vec3(
            tdiv(n.0 + SCALE, 2) as i64,
            tdiv(n.1 + SCALE, 2) as i64,
            tdiv(n.2 + SCALE, 2) as i64,
        ),
    )
}

/// The diffuse scatter direction: a hemisphere direction around the
/// normal, perturbed by an independent random unit vector.
pub open spec fn spec_lambertian_dir(s: u64, n: Vec3) -> (Vec3, u64) {
    let hr = spec_on_hemisphere(s, n);
    let ur = spec_random_unit_vector(hr.1);
    (spec_add(hr.0, ur.0), ur.1)
}

/// The metal scatter direction: the mirror reflection, fuzzed by a random
/// unit vector scaled by the scatter fraction.
pub open spec fn spec_metal_dir(s: u64, rd: Vec3, n: Vec3, scatter: int) -> (Vec3, u64) {
    let ur = spec_random_unit_vector(s);
    (spec_add(spec_reflect(rd, n), spec_scale(ur.0, scatter)), ur.1)
}

/// Snell's-law refraction of the unit direction `uv` about `n`, split
/// into perpendicular and parallel components.
pub open spec fn spec_refract(uv: Vec3, n: Vec3, ratio: int) -> Vec3 {
    let c0 = -spec_dot(uv, n);
    let cos = if c0 > SCALE {
        SCALE as int
    } else {
        c0
    };
    let perp = spec_scale(spec_add(uv, spec_scale(n, cos)), ratio);
    let v = SCALE - spec_lsq(perp);
    let av = if v < 0 {
        -v
    } else {
        v
    };
    let par_s = -sqrt_i(av * SCALE);
    spec_add(perp, spec_scale(n, par_s))
}

/// The outgoing direction a dielectric produces: a mirror reflection
/// under total internal reflection, Snell refraction otherwise; zero for
/// a degenerate incoming direction (the caller absorbs that ray).
pub open spec fn spec_dielectric_dir(rd: Vec3, n: Vec3, front: bool, ior: int) -> Vec3 {
    if rd == Vec3(0, 0, 0) {
        Vec3(0, 0, 0)
    } else {
        let ratio = if front {
            tdiv((SCALE as int) * (SCALE as int), ior)
        } else {
            ior
        };
        let u = spec_unit(rd);
        let c0 = -spec_dot(u, n);
        let cos = if c0 > SCALE {
            SCALE as int
        } else {
            c0
        };
        let s2 = SCALE - tdiv(cos * cos, SCALE as int);
        let cannot = s2 >= 0 && tdiv(ratio * sqrt_i(s2 * SCALE), SCALE as int) > SCALE;
        if cannot {
            spec_reflect(rd, n)
        } else {
            spec_refract(u, n, ratio)
        }
    }
}

/// The colour one traced ray contributes, and the sampler state it
/// leaves: the recursive light-transport evaluation. A negative depth
/// budget is spent light: black. A ray that strikes nothing yields the
/// magenta sentinel. Otherwise the hit material decides: the gradients
/// and the solid colour terminate; the scattering materials spend one
/// unit of depth on a recursive ray, or absorb to black when their
/// scattered ray degenerates (a fuzzed metal ray into the surface, a
/// fixed-point value out of range).
pub open spec fn spec_ray_colour(geos: Seq<Geometry>, ray: Ray, depth: int, s: u64) -> (
    Colour,
    u64,
)
    decreases depth + 1,
{
    if depth < 0 {
        (black(), s)
    } else {
        match spec_scene_hit(geos, ray) {
            None => (magenta(), s),
            Some(h) => match h.material {
                Material::ScreenSpaceGradient => (spec_sky_colour(ray.direction), s),
                Material::NormalSpaceGradient => (spec_normal_colour(h.normal), s),
                Material::SolidColour { colour } => (colour, s),
                Material::Lambertian { colour, albedo } => {
                    let dr = spec_lambertian_dir(s, h.normal);
                    if !h.point.within(RMAX as int) {
                        (black(), dr.1)
                    } else {
                        let rc = spec_ray_colour(
                            geos,
                            Ray { origin: h.point, direction: dr.0 },
                            depth - 1,
                            dr.1,
                        );
                        (spec_tint(colour, spec_attenuate(rc.0, albedo as int)), rc.1)
                    }
                },
                Material::Metal { tint, scatter } => {
                    let dr = spec_metal_dir(s, ray.direction, h.normal, scatter as int);
                    if !(dr.0.within(RMAX as int) && h.point.within(RMAX as int)) {
                        (black(), dr.1)
                    } else if spec_dot(dr.0, h.normal) < 0 {
                        (black(), dr.1)
                    } else {
                        let rc = spec_ray_colour(
                            geos,
                            Ray { origin: h.point, direction: dr.0 },
                            depth - 1,
                            dr.1,
                        );
                        (spec_tint(tint, rc.0), rc.1)
                    }
                },
                Material::Dielectric { ior } => {
                    let dir = spec_dielectric_dir(ray.direction, h.normal, h.front_face, ior as int);
                    if dir == Vec3(0, 0, 0) || !dir.within(RMAX as int) || !h.point.within(
                        RMAX as int,
                    ) {
                        (black(), s)
                    } else {
                        spec_ray_colour(geos, Ray { origin: h.point, direction: dir }, depth - 1, s)
                    }
                },
            },
        }
    }
}

/// The view-dependent sky term.
fn sky_colour(dir: Vec3) -> (c: Colour)
    requires
        dir.within(RMAX as int),
    ensures
        c == spec_sky_colour(dir),
        channels_within(c, 0, SCALE as int),
{
    if dir == Vec3(0, 0, 0) {
        return Colour::black();
    }
    let u: Vec3 = dir.unit();
    let a: i64 = (u.1 + SCALE) / 2;
    let s1: i64 = SCALE - a;
    proof {
        assert(65536 * (a as int) == (a as int) * 65536);
        crate::fixed::lemma_tdiv_exact(a as int, 65536);
        assert(32768 * (s1 as int) <= (s1 as int) * 65536 && -((s1 as int) * 65536) <= 32768 * (
        s1 as int)) by (nonlinear_arith)
            requires
                0 <= s1 <= 65536,
        ;
        assert(45875 * (s1 as int) <= (s1 as int) * 65536 && -((s1 as int) * 65536) <= 45875 * (
        s1 as int)) by (nonlinear_arith)
            requires
                0 <= s1 <= 65536,
        ;
        assert(65536 * (s1 as int) == (s1 as int) * 65536);
        crate::fixed::lemma_tdiv_exact(s1 as int, 65536);
        crate::fixed::lemma_tdiv_bound(32768 * (s1 as int), 65536, s1 as int);
        crate::fixed::lemma_tdiv_bound(45875 * (s1 as int), 65536, s1 as int);
        assert(32768 * (s1 as int) >= 0 && 45875 * (s1 as int) >= 0) by (nonlinear_arith)
            requires
                0 <= s1,
        ;
    }
    let c1: Colour = Colour::new(32768, 45875, 65536).mul_fx(s1);
    let c2: Colour = Colour::white().mul_fx(a);
    c1.add(c2)
}

/// The hit normal visualized as a colour.
fn normal_colour(n: Vec3) -> (c: Colour)
    requires
        n.within(2 * SCALE as int),
    ensures
        c == spec_normal_colour(n),
        channels_within(c, -(SCALE as int), 2 * SCALE as int),
{
    proof {
        crate::fixed::lemma_tdiv_bound(n.0 + SCALE, 2, 3 * SCALE as int);
        crate::fixed::lemma_tdiv_bound(n.1 + SCALE, 2, 3 * SCALE as int);
        crate::fixed::lemma_tdiv_bound(n.2 + SCALE, 2, 3 * SCALE as int);
    }
    Colour(Vec3((n.0 + SCALE) / 2, (n.1 + SCALE) / 2, (n.2 + SCALE) / 2))
}

/// The diffuse scatter direction.
fn lambertian_dir(sampler: &mut Sampler, normal: &Vec3) -> (d: Vec3)
    requires
        normal.within(2 * SCALE as int),
    ensures
        (d, final(sampler).state) == spec_lambertian_dir(old(sampler).state, *normal),
        d.within(2 * SCALE as int),
{
    let h: Vec3 = Vec3::random_on_hemisphere(sampler, normal);
    let u: Vec3 = Vec3::random_unit_vector(sampler);
    h.add(u)
}

/// The metal scatter direction.
fn metal_dir(sampler: &mut Sampler, rd: &Vec3, normal: &Vec3, scatter: i64) -> (d: Vec3)
    requires
        rd.within(RMAX as int),
        normal.within(2 * SCALE as int),
        0 <= scatter <= SCALE,
    ensures
        (d, final(sampler).state) == spec_metal_dir(
            old(sampler).state,
            *rd,
            *normal,
            scatter as int,
        ),
        d.within(0x2000_0000_0000),
{
    let u: Vec3 = Vec3::random_unit_vector(sampler);
    let refl: Vec3 = rd.reflect(normal);
    proof {
        lemma_prod_bound(u.0 as int, scatter as int, SCALE as int, SCALE as int);
        lemma_prod_bound(u.1 as int, scatter as int, SCALE as int, SCALE as int);
        lemma_prod_bound(u.2 as int, scatter as int, SCALE as int, SCALE as int);
        crate::fixed::lemma_tdiv_bound(u.0 * scatter, SCALE as int, SCALE as int);
        crate::fixed::lemma_tdiv_bound(u.1 * scatter, SCALE as int, SCALE as int);
        crate::fixed::lemma_tdiv_bound(u.2 * scatter, SCALE as int, SCALE as int);
    }
    let fuzz: Vec3 = u.scale(scatter);
    refl.add(fuzz)
}

/// Snell's-law refraction.
fn refract(uv: Vec3, n: Vec3, ratio: i64) -> (r: Vec3)
    requires
        uv.within(2 * SCALE as int),
        n.within(2 * SCALE as int),
        1 <= ratio <= 16 * SCALE,
    ensures
        r == spec_refract(uv, n, ratio as int),
        r.within(0x1000_0000),
{
    let d: i64 = uv.dot(&n);
    let c0: i64 = -d;
    let cos: i64 = if c0 > SCALE {
        SCALE
    } else {
        c0
    };
    proof {
        lemma_prod_bound(uv.0 as int, n.0 as int, 2 * SCALE as int, 2 * SCALE as int);
        lemma_prod_bound(uv.1 as int, n.1 as int, 2 * SCALE as int, 2 * SCALE as int);
        lemma_prod_bound(uv.2 as int, n.2 as int, 2 * SCALE as int, 2 * SCALE as int);
        crate::fixed::lemma_tdiv_bound(dot_full(uv, n), SCALE as int, 12 * SCALE as int);
        lemma_prod_bound(n.0 as int, cos as int, 2 * SCALE as int, 13 * SCALE as int);
        lemma_prod_bound(n.1 as int, cos as int, 2 * SCALE as int, 13 * SCALE as int);
        lemma_prod_bound(n.2 as int, cos as int, 2 * SCALE as int, 13 * SCALE as int);
        crate::fixed::lemma_tdiv_bound(n.0 * cos, SCALE as int, 26 * SCALE as int);
        crate::fixed::lemma_tdiv_bound(n.1 * cos, SCALE as int, 26 * SCALE as int);
        crate::fixed::lemma_tdiv_bound(n.2 * cos, SCALE as int, 26 * SCALE as int);
    }
    let nc: Vec3 = n.scale(cos);
    let sum: Vec3 = uv.add(nc);
    proof {
        lemma_prod_bound(sum.0 as int, ratio as int, 28 * SCALE as int, 16 * SCALE as int);
        lemma_prod_bound(sum.1 as int, ratio as int, 28 * SCALE as int, 16 * SCALE as int);
        lemma_prod_bound(sum.2 as int, ratio as int, 28 * SCALE as int, 16 * SCALE as int);
        crate::fixed::lemma_tdiv_bound(sum.0 * ratio, SCALE as int, 448 * SCALE as int);
        crate::fixed::lemma_tdiv_bound(sum.1 * ratio, SCALE as int, 448 * SCALE as int);
        crate::fixed::lemma_tdiv_bound(sum.2 * ratio, SCALE as int, 448 * SCALE as int);
    }
    let perp: Vec3 = sum.scale(ratio);
    let lsq: i64 = perp.length_squared();
    proof {
        lemma_prod_bound(perp.0 as int, perp.0 as int, 448 * SCALE as int, 448 * SCALE as int);
        lemma_prod_bound(perp.1 as int, perp.1 as int, 448 * SCALE as int, 448 * SCALE as int);
        lemma_prod_bound(perp.2 as int, perp.2 as int, 448 * SCALE as int, 448 * SCALE as int);
        crate::fixed::lemma_tdiv_bound(
            dot_full(perp, perp),
            SCALE as int,
            602112 * SCALE as int,
        );
    }
    let v: i64 = SCALE - lsq;
    let av: i64 = if v < 0 {
        -v
    } else {
        v
    };
    let par_mag: u64 = crate::fixed::sqrt_floor((av as u128) * (SCALE as u128));
    proof {
        lemma_sqrt_i_is((av as int) * (SCALE as int), par_mag as int);
        assert(par_mag < 0x400_0000) by (nonlinear_arith)
            requires
                (par_mag as int) * (par_mag as int) <= (av as int) * (SCALE as int),
                0 <= av <= 602113 * (SCALE as int),
                SCALE == 65536i64,
                par_mag >= 0,
        ;
    }
    let par_s: i64 = -(par_mag as i64);
    proof {
        lemma_prod_bound(n.0 as int, par_s as int, 2 * SCALE as int, 0x400_0000);
        lemma_prod_bound(n.1 as int, par_s as int, 2 * SCALE as int, 0x400_0000);
        lemma_prod_bound(n.2 as int, par_s as int, 2 * SCALE as int, 0x400_0000);
        crate::fixed::lemma_tdiv_bound(n.0 * par_s, SCALE as int, 0x800_0000);
        crate::fixed::lemma_tdiv_bound(n.1 * par_s, SCALE as int, 0x800_0000);
        crate::fixed::lemma_tdiv_bound(n.2 * par_s, SCALE as int, 0x800_0000);
    }
    let par: Vec3 = n.scale(par_s);
    perp.add(par)
}

/// The outgoing direction a dielectric produces.
fn dielectric_dir(rd: &Vec3, normal: &Vec3, front: bool, ior: i64) -> (d: Vec3)
    requires
        rd.within(RMAX as int),
        normal.within(2 * SCALE as int),
        16384 <= ior <= 16 * SCALE,
    ensures
        d == spec_dielectric_dir(*rd, *normal, front, ior as int),
        d == Vec3(0, 0, 0) || d.within(0x2000_0000_0000),
{
    if *rd == Vec3(0, 0, 0) {
        return Vec3(0, 0, 0);
    }
    proof {
        crate::fixed::lemma_tdiv_bound(
            (SCALE as int) * (SCALE as int),
            ior as int,
            4 * SCALE as int,
        );
        crate::fixed::lemma_tdiv_lower((SCALE as int) * (SCALE as int), ior as int, 4096);
    }
    let ratio: i64 = if front {
        ((SCALE as i128) * (SCALE as i128) / (ior as i128)) as i64
    } else {
        ior
    };
    let u: Vec3 = rd.unit();
    let dpn: i64 = u.dot(normal);
    let c0: i64 = -dpn;
    let cos: i64 = if c0 > SCALE {
        SCALE
    } else {
        c0
    };
    proof {
        lemma_prod_bound(u.0 as int, normal.0 as int, SCALE as int, 2 * SCALE as int);
        lemma_prod_bound(u.1 as int, normal.1 as int, SCALE as int, 2 * SCALE as int);
        lemma_prod_bound(u.2 as int, normal.2 as int, SCALE as int, 2 * SCALE as int);
        crate::fixed::lemma_tdiv_bound(dot_full(u, *normal), SCALE as int, 12 * SCALE as int);
        lemma_prod_bound(cos as int, cos as int, 13 * SCALE as int, 13 * SCALE as int);
        crate::fixed::lemma_tdiv_bound((cos as int) * (cos as int), SCALE as int, 169 * SCALE as int);
        assert((cos as int) * (cos as int) >= 0) by (nonlinear_arith);
        crate::fixed::lemma_tdiv_lower((cos as int) * (cos as int), SCALE as int, 0);
    }
    let cc: i64 = crate::fixed::fx_mul(cos, cos);
    let s2: i64 = SCALE - cc;
    let cannot: bool = if s2 >= 0 {
        let sin_mag: u64 = crate::fixed::sqrt_floor((s2 as u128) * (SCALE as u128));
        proof {
            assert(sin_mag <= 2 * SCALE as int) by (nonlinear_arith)
                requires
                    (sin_mag as int) * (sin_mag as int) <= (s2 as int) * (SCALE as int),
                    0 <= s2 <= SCALE as int,
                    SCALE == 65536i64,
                    sin_mag >= 0,
            ;
        }
        let sin: i64 = sin_mag as i64;
        proof {
            lemma_sqrt_i_is((s2 as int) * (SCALE as int), sin as int);
            lemma_prod_bound(ratio as int, sin as int, 16 * SCALE as int, 2 * SCALE as int);
        }
        crate::fixed::fx_mul(ratio, sin) > SCALE
    } else {
        false
    };
    if cannot {
        rd.reflect(normal)
    } else {
        refract(u, *normal, ratio)
    }
}

pub struct Scene {
    pub camera: Camera,
    pub geometries: Vec<Geometry>,
}

impl Scene {
    /// Validity of a scene: a well-formed camera and well-formed
    /// geometry throughout.
    pub open spec fn wf(self) -> bool {
        &&& self.camera.wf()
        &&& forall|i: int|
            0 <= i < self.geometries@.len() ==> (#[trigger] self.geometries@[i]).wf()
    }

    /// The closest hit along `ray`, no nearer than `EPSILON` and no
    /// farther than the horizon; among geometries hit at the same
    /// distance, the earliest in the list.
    pub fn hit_test(&self, ray: &Ray) -> (r: Option<Hit>)
        requires
            self.wf(),
            ray.origin.within(RMAX as int),
            ray.direction.within(RMAX as int),
        ensures
            r == spec_scene_hit(self.geometries@, *ray),
            r matches Some(h) ==> hit_ok(h),
    {
        let ghost geos = self.geometries@;
        let mut best: Option<Hit> = None;
        let mut best_t: i64 = HORIZON + 1;
        let n: usize = self.geometries.len();
        let mut i: usize = 0;
        while i < n
            invariant
                self.wf(),
                ray.origin.within(RMAX as int),
                ray.direction.within(RMAX as int),
                geos == self.geometries@,
                n == geos.len(),
                0 <= i <= n,
                0 < best_t <= HORIZON + 1,
                best is None ==> best_t == HORIZON + 1,
                best matches Some(h) ==> hit_ok(h) && h.t == best_t,
                spec_hit_from(geos, *ray, i as int, best_t, best) == spec_scene_hit(geos, *ray),
            decreases n - i,
        {
            let geo: Geometry = self.geometries[i];
            match geo.shape.hit_test(ray, EPSILON, best_t) {
                Some((t, normal, front)) => {
                    let point: Vec3 = ray.at(t);
                    best = Some(
                        Hit { material: geo.material, point, normal, t, front_face: front },
                    );
                    best_t = t;
                },
                None => {},
            }
            i = i + 1;
        }
        best
    }

    /// The colour one traced ray contributes; see `spec_ray_colour` for
    /// the branch-by-branch account it is held to.
    pub fn ray_colour(&self, ray: &Ray, max_bounces: i64, sampler: &mut Sampler) -> (c: Colour)
        requires
            self.wf(),
            ray.origin.within(RMAX as int),
            ray.direction.within(RMAX as int),
        ensures
            (c, final(sampler).state) == spec_ray_colour(
                self.geometries@,
                *ray,
                max_bounces as int,
                old(sampler).state,
            ),
            channels_within(c, -(CHANNEL_BOUND as int), CHANNEL_BOUND as int),
        decreases max_bounces + 1,
    {
        if max_bounces < 0 {
            return Colour::black();
        }
        let hit: Option<Hit> = self.hit_test(ray);
        match hit {
            None => Colour::new(SCALE, 0, SCALE),
            Some(h) => match h.material {
                Material::ScreenSpaceGradient => sky_colour(ray.direction),
                Material::NormalSpaceGradient => normal_colour(h.normal),
                Material::SolidColour { colour } => colour,
                Material::Lambertian { colour, albedo } => {
                    let dir: Vec3 = lambertian_dir(sampler, &h.normal);
                    if !h.point.check_within(RMAX) {
                        return Colour::black();
                    }
                    let rec: Colour = self.ray_colour(
                        &Ray { origin: h.point, direction: dir },
                        max_bounces - 1,
                        sampler,
                    );
                    proof {
                        lemma_attenuate_products(rec, albedo as int);
                    }
                    let attenuated: Colour = rec.mul_fx(albedo);
                    proof {
                        lemma_tint_products(colour, attenuated);
                    }
                    colour.mul(attenuated)
                },
                Material::Metal { tint, scatter } => {
                    let dir: Vec3 = metal_dir(sampler, &ray.direction, &h.normal, scatter);
                    if !(dir.check_within(RMAX) && h.point.check_within(RMAX)) {
                        return Colour::black();
                    }
                    if dir.dot(&h.normal) < 0 {
                        return Colour::black();
                    }
                    let rec: Colour = self.ray_colour(
                        &Ray { origin: h.point, direction: dir },
                        max_bounces - 1,
                        sampler,
                    );
                    proof {
                        lemma_tint_products(tint, rec);
                    }
                    tint.mul(rec)
                },
                Material::Dielectric { ior } => {
                    let dir: Vec3 = dielectric_dir(&ray.direction, &h.normal, h.front_face, ior);
                    if dir == Vec3(0, 0, 0) || !dir.check_within(RMAX) || !h.point.check_within(
                        RMAX,
                    ) {
                        return Colour::black();
                    }
                    self.ray_colour(
                        &Ray { origin: h.point, direction: dir },
                        max_bounces - 1,
                        sampler,
                    )
                },
            },
        }
    }
}

/// The running colour sum after the first `n` samples of a pixel, and
/// the sampler state after them: each sample is one jittered camera ray,
/// traced and added on.
pub open spec fn spec_render_samples(
    geos: Seq<Geometry>,
    cam: Camera,
    x: int,
    y: int,
    n: nat,
    mb: int,
    s: u64,
) -> (Colour, u64)
    decreases n,
{
    if n == 0 {
        (black(), s)
    } else {
        let prev = spec_render_samples(geos, cam, x, y, (n - 1) as nat, mb, s);
        let rs = spec_screen_to_world_sampled(cam, x, y, prev.1);
        let cc = spec_ray_colour(geos, rs.0, mb, rs.1);
        (
            Colour(
                Vec3(
                    (prev.0.0.0 + cc.0.0.0) as i64,
                    (prev.0.0.1 + cc.0.0.1) as i64,
                    (prev.0.0.2 + cc.0.0.2) as i64,
                ),
            ),
            cc.1,
        )
    }
}

/// What `render_pixel` returns: the per-sample sum, averaged.
pub open spec fn spec_render_pixel(
    geos: Seq<Geometry>,
    cam: Camera,
    x: int,
    y: int,
    samples: nat,
    mb: int,
    s: u64,
) -> (Colour, u64) {
    let acc = spec_render_samples(geos, cam, x, y, samples, mb, s);
    (
        Colour(
            Vec3(
                tdiv(acc.0.0.0 as int, samples as int) as i64,
                tdiv(acc.0.0.1 as int, samples as int) as i64,
                tdiv(acc.0.0.2 as int, samples as int) as i64,
            ),
        ),
        acc.1,
    )
}

impl Scene {
    /// The Monte-Carlo estimate of a pixel's colour: `samples`
    /// independently jittered camera rays, traced and averaged. The
    /// result (and the sampler state left behind) is a function of the
    /// scene, the coordinate, the counts and the incoming sampler state
    /// alone: a render is reproducible from its seed.
    #[verifier::rlimit(100)]
    pub fn render_pixel(
        &self,
        coord: (usize, usize),
        samples: usize,
        max_bounces: i64,
        sampler: &mut Sampler,
    ) -> (c: Colour)
        requires
            self.wf(),
            coord.0 < COORD_MAX,
            coord.1 < COORD_MAX,
            1 <= samples <= 0x10_0000,
        ensures
            (c, final(sampler).state) == spec_render_pixel(
                self.geometries@,
                self.camera,
                coord.0 as int,
                coord.1 as int,
                samples as nat,
                max_bounces as int,
                old(sampler).state,
            ),
            channels_within(c, -(CHANNEL_BOUND as int), CHANNEL_BOUND as int),
    {
        let ghost geos = self.geometries@;
        let ghost s0 = old(sampler).state;
        let mut colour: Colour = Colour::black();
        let mut i: usize = 0;
        while i < samples
            invariant
                self.wf(),
                coord.0 < COORD_MAX,
                coord.1 < COORD_MAX,
                1 <= samples <= 0x10_0000,
                geos == self.geometries@,
                0 <= i <= samples,
                (colour, sampler.state) == spec_render_samples(
                    geos,
                    self.camera,
                    coord.0 as int,
                    coord.1 as int,
                    i as nat,
                    max_bounces as int,
                    s0,
                ),
                -131072 * (i as int) <= colour.0.0 <= 131072 * (i as int),
                -131072 * (i as int) <= colour.0.1 <= 131072 * (i as int),
                -131072 * (i as int) <= colour.0.2 <= 131072 * (i as int),
            decreases samples - i,
        {
            let ray: Ray = self.camera.screen_to_world_sampled(coord, sampler);
            let cc: Colour = self.ray_colour(&ray, max_bounces, sampler);
            colour = colour.add(cc);
            i = i + 1;
        }
        proof {
            assert(131072 * (samples as int) <= 0x20_0000_0000) by (nonlinear_arith)
                requires
                    1 <= samples <= 0x10_0000,
            ;
            crate::fixed::lemma_tdiv_bound(colour.0.0 as int, samples as int, CHANNEL_BOUND as int);
            crate::fixed::lemma_tdiv_bound(colour.0.1 as int, samples as int, CHANNEL_BOUND as int);
            crate::fixed::lemma_tdiv_bound(colour.0.2 as int, samples as int, CHANNEL_BOUND as int);
        }
        colour.div_n(samples as i64)
    }
}

/// The hit geometry `k` would report on its own, over the whole
/// interval from `EPSILON` to the horizon.
pub open spec fn spec_standalone_hit(geos: Seq<Geometry>, ray: Ray, k: int) -> Option<
    (i64, Vec3, bool),
> {
    spec_shape_hit(geos[k].shape, ray, EPSILON as int, (HORIZON + 1) as int)
}

/// What it means for hit `h` to come from geometry `i` among the first
/// `m`: `i` reports exactly `h`'s surface record on its own; no earlier
/// geometry reports a hit as close (the earliest wins exact ties); no
/// geometry before `m` reports a closer one.
pub open spec fn scene_hit_witness_upto(
    geos: Seq<Geometry>,
    ray: Ray,
    i: int,
    h: Hit,
    m: int,
) -> bool {
    &&& 0 <= i < m
    &&& spec_standalone_hit(geos, ray, i) == Some((h.t, h.normal, h.front_face))
    &&& h.material == geos[i].material
    &&& h.point == spec_at(ray, h.t as int)
    &&& forall|k: int|
        0 <= k < i ==> ((#[trigger] spec_standalone_hit(geos, ray, k)) matches Some(o) ==> o.0
            > h.t)
    &&& forall|k: int|
        0 <= k < m ==> ((#[trigger] spec_standalone_hit(geos, ray, k)) matches Some(o) ==> o.0
            >= h.t)
}

/// What it means for hit `h` to come from geometry `i`, over the whole
/// scene.
pub open spec fn scene_hit_witness(geos: Seq<Geometry>, ray: Ray, i: int, h: Hit) -> bool {
    scene_hit_witness_upto(geos, ray, i, h, geos.len() as int)
}

#[verifier::rlimit(100)]
proof fn lemma_hit_from_first_closest(
    geos: Seq<Geometry>,
    ray: Ray,
    m: int,
    best_t: i64,
    best: Option<Hit>,
)
    requires
        0 <= m <= geos.len(),
        0 < best_t <= HORIZON + 1,
        best is None ==> best_t == HORIZON + 1 && (forall|k: int|
            0 <= k < m ==> (#[trigger] spec_standalone_hit(geos, ray, k)) is None),
        best matches Some(h) ==> h.t == best_t && (exists|i: int|
            #[trigger] scene_hit_witness_upto(geos, ray, i, h, m)),
    ensures
        spec_hit_from(geos, ray, m, best_t, best) is None ==> forall|k: int|
            0 <= k < geos.len() ==> (#[trigger] spec_standalone_hit(geos, ray, k)) is None,
        spec_hit_from(geos, ray, m, best_t, best) matches Some(h) ==> exists|i: int|
            #[trigger] scene_hit_witness(geos, ray, i, h),
    decreases geos.len() - m,
{
    if m == geos.len() {
        if best is Some {
            let h = best->0;
            let i = choose|i: int| #[trigger] scene_hit_witness_upto(geos, ray, i, h, m);
            assert(scene_hit_witness(geos, ray, i, h));
        }
    } else {
        lemma_shape_hit_narrow(geos[m].shape, ray, EPSILON as int, best_t as int);
        lemma_shape_hit_in_range(geos[m].shape, ray, EPSILON as int, (HORIZON + 1) as int);
        let cur = spec_shape_hit(geos[m].shape, ray, EPSILON as int, best_t as int);
        match cur {
            Some(h2) => {
                let nh = Hit {
                    material: geos[m].material,
                    point: spec_at(ray, h2.0 as int),
                    normal: h2.1,
                    t: h2.0,
                    front_face: h2.2,
                };
                assert(spec_standalone_hit(geos, ray, m) == Some((nh.t, nh.normal, nh.front_face)));
                assert forall|k: int| 0 <= k < m implies ((#[trigger] spec_standalone_hit(
                    geos,
                    ray,
                    k,
                )) matches Some(o) ==> o.0 > nh.t) by {
                    if best is Some {
                        let hb = best->0;
                        let i = choose|i: int|
                            #[trigger] scene_hit_witness_upto(geos, ray, i, hb, m);
                        assert(scene_hit_witness_upto(geos, ray, i, hb, m));
                    }
                }
                assert(scene_hit_witness_upto(geos, ray, m, nh, m + 1));
                lemma_hit_from_first_closest(geos, ray, m + 1, h2.0, Some(nh));
            },
            None => {
                if best is None {
                    assert forall|k: int| 0 <= k < m + 1 implies (#[trigger] spec_standalone_hit(
                        geos,
                        ray,
                        k,
                    )) is None by {
                        if k == m {
                            if spec_standalone_hit(geos, ray, m) is Some {
                                let o = spec_standalone_hit(geos, ray, m)->0;
                                assert(o.0 < HORIZON + 1);
                                assert(false);
                            }
                        }
                    }
                    lemma_hit_from_first_closest(geos, ray, m + 1, best_t, best);
                } else {
                    let hb = best->0;
                    let i = choose|i: int| #[trigger] scene_hit_witness_upto(geos, ray, i, hb, m);
                    assert(scene_hit_witness_upto(geos, ray, i, hb, m));
                    assert forall|k: int| 0 <= k < m + 1 implies ((#[trigger] spec_standalone_hit(
                        geos,
                        ray,
                        k,
                    )) matches Some(o) ==> o.0 >= hb.t) by {
                        if k == m {
                            if spec_standalone_hit(geos, ray, m) is Some {
                                let o = spec_standalone_hit(geos, ray, m)->0;
                                if o.0 < best_t {
                                    assert(false);
                                }
                            }
                        }
                    }
                    assert(scene_hit_witness_upto(geos, ray, i, hb, m + 1));
                    lemma_hit_from_first_closest(geos, ray, m + 1, best_t, best);
                }
            },
        }
    }
}

/// The scene's closest-hit search reports exactly the nearest standalone
/// hit among all geometries, and when two geometries are struck at the
/// same distance, the one earlier in the list: the tie-break is
/// deterministic, by list order.
pub proof fn lemma_scene_hit_first_closest(geos: Seq<Geometry>, ray: Ray)
    ensures
        spec_scene_hit(geos, ray) is None ==> forall|k: int|
            0 <= k < geos.len() ==> (#[trigger] spec_standalone_hit(geos, ray, k)) is None,
        spec_scene_hit(geos, ray) matches Some(h) ==> exists|i: int|
            #[trigger] scene_hit_witness(geos, ray, i, h),
{
    lemma_hit_from_first_closest(geos, ray, 0, (HORIZON + 1) as i64, None);
}

/// A ray that strikes a solid colour takes exactly that colour, drawing
/// no randomness and spending no recursion, whatever depth budget
/// remains.
pub proof fn lemma_solid_colour_direct(geos: Seq<Geometry>, ray: Ray, depth: int, s: u64)
    requires
        depth >= 0,
        spec_scene_hit(geos, ray) matches Some(h) && h.material is SolidColour,
    ensures
        spec_ray_colour(geos, ray, depth, s) == (
            spec_scene_hit(geos, ray)->0.material->SolidColour_colour,
            s,
        ),
{
}

/// A ray that strikes the screen-space gradient takes the sky term of
/// its own direction, whatever depth budget remains.
pub proof fn lemma_gradient_direct(geos: Seq<Geometry>, ray: Ray, depth: int, s: u64)
    requires
        depth >= 0,
        spec_scene_hit(geos, ray) matches Some(h) && h.material is ScreenSpaceGradient,
    ensures
        spec_ray_colour(geos, ray, depth, s) == (spec_sky_colour(ray.direction), s),
{
}

/// The sky term is a function of the normalized direction's vertical
/// component alone: for an eye ray swept horizontally across the frame,
/// every pixel of one row gets the same sky colour.
pub proof fn lemma_sky_ignores_horizontal(d1: Vec3, d2: Vec3)
    requires
        d1 != Vec3(0, 0, 0),
        d2 != Vec3(0, 0, 0),
        spec_unit(d1).1 == spec_unit(d2).1,
    ensures
        spec_sky_colour(d1) == spec_sky_colour(d2),
{
}

/// The gradient's endpoints: a ray pointing straight down sees sky blue
/// exactly, one pointing straight up sees white exactly.
pub proof fn lemma_sky_endpoints(dir: Vec3)
    requires
        dir != Vec3(0, 0, 0),
    ensures
        spec_unit(dir).1 == -SCALE ==> spec_sky_colour(dir) == Colour(Vec3(32768, 45875, 65536)),
        spec_unit(dir).1 == SCALE ==> spec_sky_colour(dir) == Colour(
            Vec3(SCALE, SCALE, SCALE),
        ),
{
    let u = spec_unit(dir);
    if u.1 == -SCALE {
        let a = tdiv(u.1 + SCALE, 2);
        crate::fixed::lemma_tdiv_zero(2);
        assert(a == 0);
        crate::fixed::lemma_tdiv_zero(SCALE as int);
        assert(32768 * (SCALE as int) == (SCALE as int) * 32768) by (nonlinear_arith);
        assert(45875 * (SCALE as int) == (SCALE as int) * 45875) by (nonlinear_arith);
        assert(65536 * (SCALE as int) == (SCALE as int) * 65536) by (nonlinear_arith);
        crate::fixed::lemma_tdiv_exact(32768, SCALE as int);
        crate::fixed::lemma_tdiv_exact(45875, SCALE as int);
        crate::fixed::lemma_tdiv_exact(65536, SCALE as int);
    }
    if u.1 == SCALE {
        let a = tdiv(u.1 + SCALE, 2);
        assert(2 * (SCALE as int) == (SCALE as int) * 2) by (nonlinear_arith);
        crate::fixed::lemma_tdiv_exact(SCALE as int, 2);
        assert(a == SCALE);
        crate::fixed::lemma_tdiv_zero(SCALE as int);
        assert(65536 * (SCALE as int) == (SCALE as int) * 65536) by (nonlinear_arith);
        crate::fixed::lemma_tdiv_exact(65536, SCALE as int);
    }
}

/// With the bounce budget exhausted, a hit on any scattering material
/// yields black: the depth-below-zero recursion is black, and every
/// scatter combine maps black to black.
pub proof fn lemma_depth_zero_scatter_black(geos: Seq<Geometry>, ray: Ray, s: u64)
    requires
        spec_scene_hit(geos, ray) matches Some(h) && (h.material is Lambertian
            || h.material is Metal || h.material is Dielectric),
    ensures
        spec_ray_colour(geos, ray, 0, s).0 == black(),
{
    let h = spec_scene_hit(geos, ray)->0;
    crate::fixed::lemma_tdiv_zero(SCALE as int);
    match h.material {
        Material::Lambertian { colour, albedo } => {
            let dr = spec_lambertian_dir(s, h.normal);
            if h.point.within(RMAX as int) {
                let rc = spec_ray_colour(
                    geos,
                    Ray { origin: h.point, direction: dr.0 },
                    -1,
                    dr.1,
                );
                assert(rc.0 == black());
                assert(0 * (albedo as int) == 0 && colour.0.0 * 0 == 0 && colour.0.1 * 0 == 0
                    && colour.0.2 * 0 == 0) by (nonlinear_arith);
                assert(spec_attenuate(black(), albedo as int) == black());
                assert(spec_tint(colour, black()) == black());
            }
        },
        Material::Metal { tint, scatter } => {
            let dr = spec_metal_dir(s, ray.direction, h.normal, scatter as int);
            if dr.0.within(RMAX as int) && h.point.within(RMAX as int) && spec_dot(dr.0, h.normal)
                >= 0 {
                let rc = spec_ray_colour(
                    geos,
                    Ray { origin: h.point, direction: dr.0 },
                    -1,
                    dr.1,
                );
                assert(rc.0 == black());
                assert(tint.0.0 * 0 == 0 && tint.0.1 * 0 == 0 && tint.0.2 * 0 == 0)
                    by (nonlinear_arith);
                assert(spec_tint(tint, black()) == black());
            }
        },
        Material::Dielectric { ior } => {
            let dir = spec_dielectric_dir(ray.direction, h.normal, h.front_face, ior as int);
            if !(dir == Vec3(0, 0, 0) || !dir.within(RMAX as int) || !h.point.within(
                RMAX as int,
            )) {
                let rc = spec_ray_colour(geos, Ray { origin: h.point, direction: dir }, -1, s);
                assert(rc.0 == black());
            }
        },
        _ => {},
    }
}

/// Bound bookkeeping for tinting: the channelwise product of a colour
/// within `[lo, hi]` and one within `[-CHANNEL_BOUND, CHANNEL_BOUND]`
/// stays within the fixed-point range, and its rescaled value within the
/// integrator's channel bound.
proof fn lemma_tint_products(a: Colour, b: Colour)
    requires
        channels_within(a, 0, SCALE as int),
        channels_within(b, -(CHANNEL_BOUND as int), CHANNEL_BOUND as int),
    ensures
        -(i64::MAX as int) * (SCALE as int) <= a.0.0 * b.0.0 <= (i64::MAX as int) * (SCALE as int),
        -(i64::MAX as int) * (SCALE as int) <= a.0.1 * b.0.1 <= (i64::MAX as int) * (SCALE as int),
        -(i64::MAX as int) * (SCALE as int) <= a.0.2 * b.0.2 <= (i64::MAX as int) * (SCALE as int),
        -(CHANNEL_BOUND as int) <= tdiv(a.0.0 * b.0.0, SCALE as int) <= CHANNEL_BOUND as int,
        -(CHANNEL_BOUND as int) <= tdiv(a.0.1 * b.0.1, SCALE as int) <= CHANNEL_BOUND as int,
        -(CHANNEL_BOUND as int) <= tdiv(a.0.2 * b.0.2, SCALE as int) <= CHANNEL_BOUND as int,
{
    lemma_prod_bound(a.0.0 as int, b.0.0 as int, SCALE as int, CHANNEL_BOUND as int);
    lemma_prod_bound(a.0.1 as int, b.0.1 as int, SCALE as int, CHANNEL_BOUND as int);
    lemma_prod_bound(a.0.2 as int, b.0.2 as int, SCALE as int, CHANNEL_BOUND as int);
    crate::fixed::lemma_tdiv_bound(a.0.0 * b.0.0, SCALE as int, CHANNEL_BOUND as int);
    crate::fixed::lemma_tdiv_bound(a.0.1 * b.0.1, SCALE as int, CHANNEL_BOUND as int);
    crate::fixed::lemma_tdiv_bound(a.0.2 * b.0.2, SCALE as int, CHANNEL_BOUND as int);
}

/// Bound bookkeeping for attenuation by a fraction in `[0, 1]`.
proof fn lemma_attenuate_products(c: Colour, s: int)
    requires
        channels_within(c, -(CHANNEL_BOUND as int), CHANNEL_BOUND as int),
        0 <= s <= SCALE,
    ensures
        -(i64::MAX as int) * (SCALE as int) <= c.0.0 * s <= (i64::MAX as int) * (SCALE as int),
        -(i64::MAX as int) * (SCALE as int) <= c.0.1 * s <= (i64::MAX as int) * (SCALE as int),
        -(i64::MAX as int) * (SCALE as int) <= c.0.2 * s <= (i64::MAX as int) * (SCALE as int),
        -(CHANNEL_BOUND as int) <= tdiv(c.0.0 * s, SCALE as int) <= CHANNEL_BOUND as int,
        -(CHANNEL_BOUND as int) <= tdiv(c.0.1 * s, SCALE as int) <= CHANNEL_BOUND as int,
        -(CHANNEL_BOUND as int) <= tdiv(c.0.2 * s, SCALE as int) <= CHANNEL_BOUND as int,
{
    lemma_prod_bound(c.0.0 as int, s, CHANNEL_BOUND as int, SCALE as int);
    lemma_prod_bound(c.0.1 as int, s, CHANNEL_BOUND as int, SCALE as int);
    lemma_prod_bound(c.0.2 as int, s, CHANNEL_BOUND as int, SCALE as int);
    crate::fixed::lemma_tdiv_bound(c.0.0 * s, SCALE as int, CHANNEL_BOUND as int);
    crate::fixed::lemma_tdiv_bound(c.0.1 * s, SCALE as int, CHANNEL_BOUND as int);
    crate::fixed::lemma_tdiv_bound(c.0.2 * s, SCALE as int, CHANNEL_BOUND as int);
}

} // verus!
