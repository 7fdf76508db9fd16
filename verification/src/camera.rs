//! The camera: maps a pixel coordinate to a world-space ray.
//!
//! Construction derives an orthonormal-ish viewing basis and the viewport
//! geometry from a configuration; intermediate values that would leave
//! the fixed-point ranges are clamped, and a generated ray that would
//! still fall outside the tracer's bounds degrades to the eye ray, so
//! every contract here is total.

use crate::fixed::{tdiv, SCALE};
use crate::ray::Ray;
use crate::sampler::{next_state, symmetric_of, unit_of, Sampler};
use crate::vec::{
    lemma_prod_bound, spec_add, spec_cross, spec_div_n, spec_lsq, spec_neg, spec_scale, spec_sub,
    spec_unit, Vec3, CMAX, RMAX,
};
use vstd::prelude::*;

verus! {

/// Largest half-extent of the viewport rectangle.
pub const VIEW_MAX: i64 = 0x4_0000_0000;

/// Largest defocus-disc radius.
pub const DISC_MAX: i64 = 0x1_0000_0000;

/// Largest tangent value camera construction works with (a vertical field
/// of view beyond it is clamped).
pub const TAN_MAX: i64 = 1048576;

/// Largest pixel coordinate (either axis) a camera maps.
pub const COORD_MAX: usize = 0x4000;

/// Fixed-point value of pi.
pub const PI_FX: i64 = 205887;

#[derive(Clone, Copy, Debug)]
pub enum CameraLens {
    Orthogonal {
        pixel0_loc: Vec3,
        pixel_delta_u: Vec3,
        pixel_delta_v: Vec3,
        defocus_disc_uv: Option<(Vec3, Vec3)>,
    },
}

#[derive(Clone, Copy, Debug)]
pub enum CameraConfig {
    Orthogonal {
        look_from: Vec3,
        look_at: Vec3,
        up: Vec3,
        fov_degrees: i64,
        defocus_angle: i64,
        focus_dist: i64,
        image_width: usize,
        image_height: usize,
    },
}

#[derive(Clone, Copy, Debug)]
pub struct Camera {
    pub eye: Ray,
    pub lens: CameraLens,
}

impl CameraConfig {
    /// Validity of a configuration: positions within the scene bound, a
    /// positive field of view and focus distance, distinct look-from and
    /// look-at points, a usable up vector, and in-range image dimensions.
    pub open spec fn wf(self) -> bool {
        match self {
            CameraConfig::Orthogonal {
                look_from,
                look_at,
                up,
                fov_degrees,
                defocus_angle,
                focus_dist,
                image_width,
                image_height,
            } => {
                &&& look_from.within(CMAX as int)
                &&& look_at.within(CMAX as int)
                &&& up.within(CMAX as int)
                &&& look_from != look_at
                &&& up != Vec3(0, 0, 0)
                &&& 1 <= fov_degrees <= 160 * SCALE
                &&& 0 <= defocus_angle <= 160 * SCALE
                &&& 1 <= focus_dist <= CMAX
                &&& 1 <= image_width <= COORD_MAX
                &&& 1 <= image_height <= COORD_MAX
            },
        }
    }
}

impl Camera {
    /// Validity of a camera: everything the ray generator's arithmetic
    /// relies on.
    pub open spec fn wf(self) -> bool {
        &&& self.eye.origin.within(CMAX as int)
        &&& self.eye.direction.within(2 * SCALE as int)
        &&& match self.lens {
            CameraLens::Orthogonal {
                pixel0_loc,
                pixel_delta_u,
                pixel_delta_v,
                defocus_disc_uv,
            } => {
                &&& pixel0_loc.within(0x100_0000_0000)
                &&& pixel_delta_u.within(0x8_0000_0000)
                &&& pixel_delta_v.within(0x8_0000_0000)
                &&& match defocus_disc_uv {
                    Some(duv) => duv.0.within(2 * DISC_MAX as int) && duv.1.within(
                        2 * DISC_MAX as int,
                    ),
                    None => true,
                }
            },
        }
    }
}

/// Radians for a fixed-point angle in degrees.
pub open spec fn spec_to_radians(deg: int) -> int {
    tdiv(deg * PI_FX, 180 * SCALE as int)
}

/// The tangent of half the given angle (in fixed-point degrees), by
/// seventh-order series for sine and sixth-order for cosine, clamped
/// into `[0, TAN_MAX]`; `TAN_MAX` also stands in where the cosine series
/// is not positive.
pub open spec fn spec_tan_half(deg: int) -> int {
    let x = tdiv(spec_to_radians(deg), 2);
    let x2 = tdiv(x * x, SCALE as int);
    let x3 = tdiv(x2 * x, SCALE as int);
    let x4 = tdiv(x2 * x2, SCALE as int);
    let x5 = tdiv(x4 * x, SCALE as int);
    let x6 = tdiv(x4 * x2, SCALE as int);
    let x7 = tdiv(x6 * x, SCALE as int);
    let sin = x - tdiv(x3, 6) + tdiv(x5, 120) - tdiv(x7, 5040);
    let cos = SCALE - tdiv(x2, 2) + tdiv(x4, 24) - tdiv(x6, 720);
    let t = if cos <= 0 {
        TAN_MAX as int
    } else {
        tdiv(sin * SCALE, cos)
    };
    if t < 0 {
        0
    } else if t > TAN_MAX {
        TAN_MAX as int
    } else {
        t
    }
}

/// The tangent of half the given angle.
fn tan_half(deg: i64) -> (t: i64)
    requires
        0 <= deg <= 160 * SCALE,
    ensures
        t == spec_tan_half(deg as int),
        0 <= t <= TAN_MAX,
{
    proof {
        lemma_prod_bound(deg as int, PI_FX as int, 160 * SCALE as int, PI_FX as int);
        crate::fixed::lemma_tdiv_bound(deg * PI_FX, 180 * SCALE as int, 3 * SCALE as int);
    }
    let rad: i64 = ((deg as i128) * (PI_FX as i128) / ((180 * SCALE) as i128)) as i64;
    proof {
        crate::fixed::lemma_tdiv_bound(rad as int, 2, 2 * SCALE as int);
    }
    let x: i64 = rad / 2;
    proof {
        lemma_prod_bound(x as int, x as int, 2 * SCALE as int, 2 * SCALE as int);
        crate::fixed::lemma_tdiv_bound(x * x, SCALE as int, 4 * SCALE as int);
    }
    let x2: i64 = crate::fixed::fx_mul(x, x);
    proof {
        lemma_prod_bound(x2 as int, x as int, 4 * SCALE as int, 2 * SCALE as int);
        crate::fixed::lemma_tdiv_bound(x2 * x, SCALE as int, 8 * SCALE as int);
        lemma_prod_bound(x2 as int, x2 as int, 4 * SCALE as int, 4 * SCALE as int);
        crate::fixed::lemma_tdiv_bound(x2 * x2, SCALE as int, 16 * SCALE as int);
    }
    let x3: i64 = crate::fixed::fx_mul(x2, x);
    let x4: i64 = crate::fixed::fx_mul(x2, x2);
    proof {
        lemma_prod_bound(x4 as int, x as int, 16 * SCALE as int, 2 * SCALE as int);
        crate::fixed::lemma_tdiv_bound(x4 * x, SCALE as int, 32 * SCALE as int);
        lemma_prod_bound(x4 as int, x2 as int, 16 * SCALE as int, 4 * SCALE as int);
        crate::fixed::lemma_tdiv_bound(x4 * x2, SCALE as int, 64 * SCALE as int);
    }
    let x5: i64 = crate::fixed::fx_mul(x4, x);
    let x6: i64 = crate::fixed::fx_mul(x4, x2);
    proof {
        lemma_prod_bound(x6 as int, x as int, 64 * SCALE as int, 2 * SCALE as int);
        crate::fixed::lemma_tdiv_bound(x6 * x, SCALE as int, 128 * SCALE as int);
    }
    let x7: i64 = crate::fixed::fx_mul(x6, x);
    proof {
        crate::fixed::lemma_tdiv_bound(x3 as int, 6, 2 * SCALE as int);
        crate::fixed::lemma_tdiv_bound(x5 as int, 120, SCALE as int);
        crate::fixed::lemma_tdiv_bound(x7 as int, 5040, SCALE as int);
        crate::fixed::lemma_tdiv_bound(x2 as int, 2, 2 * SCALE as int);
        crate::fixed::lemma_tdiv_bound(x4 as int, 24, SCALE as int);
        crate::fixed::lemma_tdiv_bound(x6 as int, 720, SCALE as int);
    }
    let sin: i64 = x - x3 / 6 + x5 / 120 - x7 / 5040;
    let cos: i64 = SCALE - x2 / 2 + x4 / 24 - x6 / 720;
    let t: i64 = if cos <= 0 {
        TAN_MAX
    } else {
        proof {
            lemma_prod_bound(sin as int, SCALE as int, 8 * SCALE as int, SCALE as int);
            crate::fixed::lemma_tdiv_bound(
                (sin as int) * (SCALE as int),
                cos as int,
                i64::MAX as int,
            );
            assert(8 * (SCALE as int) * (SCALE as int) <= (i64::MAX as int) * (cos as int))
                by (nonlinear_arith)
                requires
                    cos >= 1,
                    SCALE == 65536i64,
            ;
        }
        ((sin as i128) * (SCALE as i128) / (cos as i128)) as i64
    };
    if t < 0 {
        0
    } else if t > TAN_MAX {
        TAN_MAX
    } else {
        t
    }
}

/// The camera a configuration derives: the orthonormal viewing basis
/// `(u, v, w)`, the viewport extents from the field of view and focus
/// distance (clamped into the fixed-point range), per-pixel deltas, the
/// world position of pixel (0, 0)'s centre, and the defocus-disc basis
/// when a positive defocus angle asks for depth of field.
/// The clamped viewport height for a field of view and focus distance.
pub open spec fn spec_viewport_h(fov: int, focus: int) -> int {
    let vh0 = tdiv((2 * spec_tan_half(fov)) * focus, SCALE as int);
    if vh0 > VIEW_MAX {
        VIEW_MAX as int
    } else {
        vh0
    }
}

/// The clamped viewport width: the height scaled by the image's aspect
/// ratio.
pub open spec fn spec_viewport_w(vh: int, width: int, height: int) -> int {
    let ratio = tdiv((width * SCALE) * SCALE, height * SCALE);
    let vw0 = tdiv(vh * ratio, SCALE as int);
    if vw0 > VIEW_MAX {
        VIEW_MAX as int
    } else {
        vw0
    }
}

/// The view direction component of the camera basis.
pub open spec fn spec_basis_w(look_from: Vec3, look_at: Vec3) -> Vec3 {
    spec_unit(spec_sub(look_from, look_at))
}

/// The horizontal component of the camera basis; a fixed axis stands in
/// when the up vector is parallel to the view direction.
pub open spec fn spec_basis_u(up: Vec3, w: Vec3) -> Vec3 {
    let cr = spec_cross(up, w);
    if cr == Vec3(0, 0, 0) {
        Vec3(SCALE, 0, 0)
    } else {
        spec_unit(cr)
    }
}

/// The clamped defocus-disc radius for a focus distance and defocus
/// angle.
pub open spec fn spec_disc_radius(focus: int, angle: int) -> int {
    let dr0 = tdiv(focus * spec_tan_half(angle), SCALE as int);
    if dr0 > DISC_MAX {
        DISC_MAX as int
    } else {
        dr0
    }
}

/// The camera a configuration derives: the orthonormal viewing basis
/// `(u, v, w)`, the viewport extents from the field of view and focus
/// distance (clamped into the fixed-point range), per-pixel deltas, the
/// world position of pixel (0, 0)'s centre, and the defocus-disc basis
/// when a positive defocus angle asks for depth of field.
pub open spec fn spec_camera(c: CameraConfig) -> Camera {
    match c {
        CameraConfig::Orthogonal {
            look_from,
            look_at,
            up,
            fov_degrees,
            defocus_angle,
            focus_dist,
            image_width,
            image_height,
        } => {
            let vh = spec_viewport_h(fov_degrees as int, focus_dist as int);
            let vw = spec_viewport_w(vh, image_width as int, image_height as int);
            let w = spec_basis_w(look_from, look_at);
            let u = spec_basis_u(up, w);
            let v = spec_cross(w, u);
            let vu = spec_scale(u, vw);
            let vv = spec_scale(spec_neg(v), vh);
            let upper_left = spec_sub(
                spec_sub(spec_sub(look_from, spec_scale(w, focus_dist as int)), spec_div_n(vu, 2)),
                spec_div_n(vv, 2),
            );
            let du = spec_div_n(vu, image_width as int);
            let dv = spec_div_n(vv, image_height as int);
            let pixel0 = spec_add(upper_left, spec_div_n(spec_add(du, dv), 2));
            let defocus = if defocus_angle > 0 {
                let dr = spec_disc_radius(focus_dist as int, defocus_angle as int);
                Some((spec_scale(u, dr), spec_scale(v, dr)))
            } else {
                None
            };
            Camera {
                eye: Ray {
                    origin: look_from,
                    direction: spec_unit(spec_sub(look_at, look_from)),
                },
                lens: CameraLens::Orthogonal {
                    pixel0_loc: pixel0,
                    pixel_delta_u: du,
                    pixel_delta_v: dv,
                    defocus_disc_uv: defocus,
                },
            }
        },
    }
}

/// The clamped viewport height.
fn viewport_h(fov: i64, focus: i64) -> (r: i64)
    requires
        1 <= fov <= 160 * SCALE,
        1 <= focus <= CMAX,
    ensures
        r == spec_viewport_h(fov as int, focus as int),
        0 <= r <= VIEW_MAX,
{
    let th: i64 = tan_half(fov);
    let th2: i64 = 2 * th;
    proof {
        lemma_prod_bound(th2 as int, focus as int, 32 * SCALE as int, CMAX as int);
        crate::fixed::lemma_tdiv_bound(th2 * focus, SCALE as int, 0x20_0000_0000_0000);
        assert(th2 * focus >= 0) by (nonlinear_arith)
            requires
                th2 >= 0,
                focus >= 1,
        ;
        crate::fixed::lemma_tdiv_lower(th2 * focus, SCALE as int, 0);
    }
    let vh0: i64 = crate::fixed::fx_mul(th2, focus);
    if vh0 > VIEW_MAX {
        VIEW_MAX
    } else {
        vh0
    }
}

/// The clamped viewport width.
fn viewport_w(vh: i64, width: i64, height: i64) -> (r: i64)
    requires
        0 <= vh <= VIEW_MAX,
        1 <= width <= 0x4000,
        1 <= height <= 0x4000,
    ensures
        r == spec_viewport_w(vh as int, width as int, height as int),
        0 <= r <= VIEW_MAX,
{
    let wfx: i64 = width * SCALE;
    let hfx: i64 = height * SCALE;
    proof {
        assert(wfx * (SCALE as int) <= 0x4000_0000 * (hfx as int)) by (nonlinear_arith)
            requires
                0 < wfx <= 0x4000_0000,
                hfx >= 65536,
                SCALE == 65536i64,
        ;
        assert(wfx * (SCALE as int) >= 0) by (nonlinear_arith)
            requires
                wfx >= 0,
        ;
        assert(0x4000_0000 * (hfx as int) <= (i64::MAX as int) * (hfx as int)) by (nonlinear_arith)
            requires
                hfx >= 1,
        ;
        crate::fixed::lemma_tdiv_bound(wfx * SCALE as int, hfx as int, 0x4000_0000);
        crate::fixed::lemma_tdiv_lower(wfx * SCALE as int, hfx as int, 0);
    }
    let ratio: i64 = crate::fixed::fx_div(wfx, hfx);
    proof {
        lemma_prod_bound(vh as int, ratio as int, VIEW_MAX as int, 0x4000_0000);
        crate::fixed::lemma_tdiv_bound(vh * ratio, SCALE as int, 0x1_0000_0000_0000_0000);
        assert(vh * ratio >= 0) by (nonlinear_arith)
            requires
                vh >= 0,
                ratio >= 0,
        ;
        crate::fixed::lemma_tdiv_lower(vh * ratio, SCALE as int, 0);
    }
    let vw0: i64 = crate::fixed::fx_mul(vh, ratio);
    if vw0 > VIEW_MAX {
        VIEW_MAX
    } else {
        vw0
    }
}

/// The viewing basis `(w, u, v)`.
fn view_basis(look_from: Vec3, look_at: Vec3, up: Vec3) -> (b: (Vec3, Vec3, Vec3))
    requires
        look_from.within(CMAX as int),
        look_at.within(CMAX as int),
        up.within(CMAX as int),
        look_from != look_at,
    ensures
        b.0 == spec_basis_w(look_from, look_at),
        b.1 == spec_basis_u(up, b.0),
        b.2 == spec_cross(b.0, b.1),
        b.0.within(SCALE as int),
        b.1.within(SCALE as int),
        b.2.within(2 * SCALE as int),
{
    let w: Vec3 = look_from.sub(look_at).unit();
    proof {
        lemma_prod_bound(up.1 as int, w.2 as int, CMAX as int, SCALE as int);
        lemma_prod_bound(up.2 as int, w.1 as int, CMAX as int, SCALE as int);
        lemma_prod_bound(up.2 as int, w.0 as int, CMAX as int, SCALE as int);
        lemma_prod_bound(up.0 as int, w.2 as int, CMAX as int, SCALE as int);
        lemma_prod_bound(up.0 as int, w.1 as int, CMAX as int, SCALE as int);
        lemma_prod_bound(up.1 as int, w.0 as int, CMAX as int, SCALE as int);
        crate::fixed::lemma_tdiv_bound(up.1 * w.2 - up.2 * w.1, SCALE as int, 2 * CMAX as int);
        crate::fixed::lemma_tdiv_bound(up.2 * w.0 - up.0 * w.2, SCALE as int, 2 * CMAX as int);
        crate::fixed::lemma_tdiv_bound(up.0 * w.1 - up.1 * w.0, SCALE as int, 2 * CMAX as int);
    }
    let cr: Vec3 = up.cross(&w);
    let u: Vec3 = if cr == Vec3(0, 0, 0) {
        Vec3(SCALE, 0, 0)
    } else {
        cr.unit()
    };
    proof {
        lemma_prod_bound(w.1 as int, u.2 as int, SCALE as int, SCALE as int);
        lemma_prod_bound(w.2 as int, u.1 as int, SCALE as int, SCALE as int);
        lemma_prod_bound(w.2 as int, u.0 as int, SCALE as int, SCALE as int);
        lemma_prod_bound(w.0 as int, u.2 as int, SCALE as int, SCALE as int);
        lemma_prod_bound(w.0 as int, u.1 as int, SCALE as int, SCALE as int);
        lemma_prod_bound(w.1 as int, u.0 as int, SCALE as int, SCALE as int);
        crate::fixed::lemma_tdiv_bound(w.1 * u.2 - w.2 * u.1, SCALE as int, 2 * SCALE as int);
        crate::fixed::lemma_tdiv_bound(w.2 * u.0 - w.0 * u.2, SCALE as int, 2 * SCALE as int);
        crate::fixed::lemma_tdiv_bound(w.0 * u.1 - w.1 * u.0, SCALE as int, 2 * SCALE as int);
    }
    let v: Vec3 = w.cross(&u);
    (w, u, v)
}

/// The clamped defocus-disc radius.
fn disc_radius(focus: i64, angle: i64) -> (r: i64)
    requires
        1 <= focus <= CMAX,
        0 <= angle <= 160 * SCALE,
    ensures
        r == spec_disc_radius(focus as int, angle as int),
        0 <= r <= DISC_MAX,
{
    let dth: i64 = tan_half(angle);
    proof {
        lemma_prod_bound(focus as int, dth as int, CMAX as int, 16 * SCALE as int);
        crate::fixed::lemma_tdiv_bound(focus * dth, SCALE as int, 0x10_0000_0000_0000);
        assert(focus * dth >= 0) by (nonlinear_arith)
            requires
                focus >= 0,
                dth >= 0,
        ;
        crate::fixed::lemma_tdiv_lower(focus * dth, SCALE as int, 0);
    }
    let dr0: i64 = crate::fixed::fx_mul(focus, dth);
    if dr0 > DISC_MAX {
        DISC_MAX
    } else {
        dr0
    }
}

impl CameraConfig {
    /// Builds the camera this configuration describes.
    #[verifier::rlimit(100)]
    pub fn into_camera(self) -> (cam: Camera)
        requires
            self.wf(),
        ensures
            cam == spec_camera(self),
            cam.wf(),
    {
        match self {
            CameraConfig::Orthogonal {
                look_from,
                look_at,
                up,
                fov_degrees,
                defocus_angle,
                focus_dist,
                image_width,
                image_height,
            } => {
                let vh: i64 = viewport_h(fov_degrees, focus_dist);
                let vw: i64 = viewport_w(vh, image_width as i64, image_height as i64);
                let basis: (Vec3, Vec3, Vec3) = view_basis(look_from, look_at, up);
                let w: Vec3 = basis.0;
                let u: Vec3 = basis.1;
                let v: Vec3 = basis.2;
                proof {
                    lemma_prod_bound(u.0 as int, vw as int, SCALE as int, VIEW_MAX as int);
                    lemma_prod_bound(u.1 as int, vw as int, SCALE as int, VIEW_MAX as int);
                    lemma_prod_bound(u.2 as int, vw as int, SCALE as int, VIEW_MAX as int);
                    crate::fixed::lemma_tdiv_bound(u.0 * vw, SCALE as int, VIEW_MAX as int);
                    crate::fixed::lemma_tdiv_bound(u.1 * vw, SCALE as int, VIEW_MAX as int);
                    crate::fixed::lemma_tdiv_bound(u.2 * vw, SCALE as int, VIEW_MAX as int);
                }
                let vu: Vec3 = u.scale(vw);
                let nv: Vec3 = v.neg();
                proof {
                    lemma_prod_bound(nv.0 as int, vh as int, 2 * SCALE as int, VIEW_MAX as int);
                    lemma_prod_bound(nv.1 as int, vh as int, 2 * SCALE as int, VIEW_MAX as int);
                    lemma_prod_bound(nv.2 as int, vh as int, 2 * SCALE as int, VIEW_MAX as int);
                    crate::fixed::lemma_tdiv_bound(nv.0 * vh, SCALE as int, 2 * VIEW_MAX as int);
                    crate::fixed::lemma_tdiv_bound(nv.1 * vh, SCALE as int, 2 * VIEW_MAX as int);
                    crate::fixed::lemma_tdiv_bound(nv.2 * vh, SCALE as int, 2 * VIEW_MAX as int);
                    lemma_prod_bound(w.0 as int, focus_dist as int, SCALE as int, CMAX as int);
                    lemma_prod_bound(w.1 as int, focus_dist as int, SCALE as int, CMAX as int);
                    lemma_prod_bound(w.2 as int, focus_dist as int, SCALE as int, CMAX as int);
                    crate::fixed::lemma_tdiv_bound(w.0 * focus_dist, SCALE as int, CMAX as int);
                    crate::fixed::lemma_tdiv_bound(w.1 * focus_dist, SCALE as int, CMAX as int);
                    crate::fixed::lemma_tdiv_bound(w.2 * focus_dist, SCALE as int, CMAX as int);
                }
                let vv: Vec3 = nv.scale(vh);
                let wf: Vec3 = w.scale(focus_dist);
                let upper_left: Vec3 = look_from.sub(wf).sub(vu.div_n(2)).sub(vv.div_n(2));
                proof {
                    assert(0x4_0000_0000 * (image_width as int) >= 0x4_0000_0000)
                        by (nonlinear_arith)
                        requires
                            image_width >= 1,
                    ;
                    assert(0x8_0000_0000 * (image_height as int) >= 0x8_0000_0000)
                        by (nonlinear_arith)
                        requires
                            image_height >= 1,
                    ;
                    crate::fixed::lemma_tdiv_bound(vu.0 as int, image_width as int, 0x4_0000_0000);
                    crate::fixed::lemma_tdiv_bound(vu.1 as int, image_width as int, 0x4_0000_0000);
                    crate::fixed::lemma_tdiv_bound(vu.2 as int, image_width as int, 0x4_0000_0000);
                    crate::fixed::lemma_tdiv_bound(
                        vv.0 as int,
                        image_height as int,
                        0x8_0000_0000,
                    );
                    crate::fixed::lemma_tdiv_bound(
                        vv.1 as int,
                        image_height as int,
                        0x8_0000_0000,
                    );
                    crate::fixed::lemma_tdiv_bound(
                        vv.2 as int,
                        image_height as int,
                        0x8_0000_0000,
                    );
                }
                let du: Vec3 = vu.div_n(image_width as i64);
                let dv: Vec3 = vv.div_n(image_height as i64);
                let pixel0: Vec3 = upper_left.add(du.add(dv).div_n(2));
                let defocus: Option<(Vec3, Vec3)> = if defocus_angle > 0 {
                    let dr: i64 = disc_radius(focus_dist, defocus_angle);
                    proof {
                        lemma_prod_bound(u.0 as int, dr as int, SCALE as int, DISC_MAX as int);
                        lemma_prod_bound(u.1 as int, dr as int, SCALE as int, DISC_MAX as int);
                        lemma_prod_bound(u.2 as int, dr as int, SCALE as int, DISC_MAX as int);
                        lemma_prod_bound(v.0 as int, dr as int, 2 * SCALE as int, DISC_MAX as int);
                        lemma_prod_bound(v.1 as int, dr as int, 2 * SCALE as int, DISC_MAX as int);
                        lemma_prod_bound(v.2 as int, dr as int, 2 * SCALE as int, DISC_MAX as int);
                        crate::fixed::lemma_tdiv_bound(u.0 * dr, SCALE as int, DISC_MAX as int);
                        crate::fixed::lemma_tdiv_bound(u.1 * dr, SCALE as int, DISC_MAX as int);
                        crate::fixed::lemma_tdiv_bound(u.2 * dr, SCALE as int, DISC_MAX as int);
                        crate::fixed::lemma_tdiv_bound(v.0 * dr, SCALE as int, 2 * DISC_MAX as int);
                        crate::fixed::lemma_tdiv_bound(v.1 * dr, SCALE as int, 2 * DISC_MAX as int);
                        crate::fixed::lemma_tdiv_bound(v.2 * dr, SCALE as int, 2 * DISC_MAX as int);
                    }
                    Some((u.scale(dr), v.scale(dr)))
                } else {
                    None
                };
                let eye: Ray = Ray { origin: look_from, direction: look_at.sub(look_from).unit() };
                Camera {
                    eye,
                    lens: CameraLens::Orthogonal {
                        pixel0_loc: pixel0,
                        pixel_delta_u: du,
                        pixel_delta_v: dv,
                        defocus_disc_uv: defocus,
                    },
                }
            },
        }
    }
}

/// A point in the unit disc (third component zero), by bounded rejection
/// sampling; the disc's centre stands in if every draw is rejected.
pub open spec fn spec_in_disk(s: u64, tries: nat) -> (Vec3, u64)
    decreases tries,
{
    if tries == 0 {
        (Vec3(0, 0, 0), s)
    } else {
        let s1 = next_state(s);
        let s2 = next_state(s1);
        let p = Vec3(symmetric_of(s1), symmetric_of(s2), 0);
        if spec_lsq(p) < SCALE {
            (p, s2)
        } else {
            spec_in_disk(s2, (tries - 1) as nat)
        }
    }
}

fn sample_disk(sampler: &mut Sampler, tries: u64) -> (r: Vec3)
    ensures
        (r, final(sampler).state) == spec_in_disk(old(sampler).state, tries as nat),
        r.within(SCALE as int),
        r.2 == 0,
    decreases tries,
{
    if tries == 0 {
        return Vec3(0, 0, 0);
    }
    let x: i64 = sampler.next_symmetric();
    let y: i64 = sampler.next_symmetric();
    let p: Vec3 = Vec3(x, y, 0);
    let lsq: i64 = p.length_squared();
    if lsq < SCALE {
        p
    } else {
        sample_disk(sampler, tries - 1)
    }
}

/// The ray `screen_to_world` generates: from the (possibly disc-jittered)
/// eye origin through the exact centre of pixel `(x, y)`; the eye ray
/// itself if the result would leave the tracer's coordinate bounds.
pub open spec fn spec_screen_to_world(cam: Camera, x: int, y: int, s: u64) -> (Ray, u64) {
    match cam.lens {
        CameraLens::Orthogonal { pixel0_loc, pixel_delta_u, pixel_delta_v, defocus_disc_uv } => {
            let ors = match defocus_disc_uv {
                Some(duv) => {
                    let pr = spec_in_disk(s, 32);
                    (
                        spec_add(
                            spec_add(cam.eye.origin, spec_scale(duv.0, pr.0.0 as int)),
                            spec_scale(duv.1, pr.0.1 as int),
                        ),
                        pr.1,
                    )
                },
                None => (cam.eye.origin, s),
            };
            let pixel_centre = spec_add(
                spec_add(pixel0_loc, spec_scale_n(pixel_delta_u, x)),
                spec_scale_n(pixel_delta_v, y),
            );
            let direction = spec_sub(pixel_centre, ors.0);
            if ors.0.within(RMAX as int) && direction.within(RMAX as int) {
                (Ray { origin: ors.0, direction }, ors.1)
            } else {
                (cam.eye, ors.1)
            }
        },
    }
}

/// Product with a plain (unscaled) integer, componentwise.
pub open spec fn spec_scale_n(v: Vec3, n: int) -> Vec3 {
    Vec3((v.0 * n) as i64, (v.1 * n) as i64, (v.2 * n) as i64)
}

/// The ray `screen_to_world_sampled` generates: as `screen_to_world`, but
/// with the target jittered by up to half a pixel on each viewport axis.
pub open spec fn spec_screen_to_world_sampled(cam: Camera, x: int, y: int, s: u64) -> (Ray, u64) {
    match cam.lens {
        CameraLens::Orthogonal { pixel0_loc, pixel_delta_u, pixel_delta_v, defocus_disc_uv } => {
            let rs = spec_screen_to_world(cam, x, y, s);
            let s1 = next_state(rs.1);
            let s2 = next_state(s1);
            let px = unit_of(s1) - 32768;
            let py = unit_of(s2) - 32768;
            let jitter = spec_add(spec_scale(pixel_delta_u, px), spec_scale(pixel_delta_v, py));
            let direction = spec_add(rs.0.direction, jitter);
            if direction.within(RMAX as int) {
                (Ray { origin: rs.0.origin, direction }, s2)
            } else {
                (rs.0, s2)
            }
        },
    }
}

impl Camera {
    /// The world-space ray through the centre of pixel `coord`, jittered
    /// across the aperture disc when a defocus disc is configured.
    pub fn screen_to_world(&self, coord: (usize, usize), sampler: &mut Sampler) -> (r: Ray)
        requires
            self.wf(),
            coord.0 < COORD_MAX,
            coord.1 < COORD_MAX,
        ensures
            (r, final(sampler).state) == spec_screen_to_world(
                *self,
                coord.0 as int,
                coord.1 as int,
                old(sampler).state,
            ),
            r.origin.within(RMAX as int),
            r.direction.within(RMAX as int),
    {
        match self.lens {
            CameraLens::Orthogonal { pixel0_loc, pixel_delta_u, pixel_delta_v, defocus_disc_uv } => {
                let origin: Vec3 = match defocus_disc_uv {
                    Some((ddu, ddv)) => {
                        let p: Vec3 = sample_disk(sampler, 32);
                        proof {
                            lemma_prod_bound(
                                ddu.0 as int,
                                p.0 as int,
                                2 * DISC_MAX as int,
                                SCALE as int,
                            );
                            lemma_prod_bound(
                                ddu.1 as int,
                                p.0 as int,
                                2 * DISC_MAX as int,
                                SCALE as int,
                            );
                            lemma_prod_bound(
                                ddu.2 as int,
                                p.0 as int,
                                2 * DISC_MAX as int,
                                SCALE as int,
                            );
                            lemma_prod_bound(
                                ddv.0 as int,
                                p.1 as int,
                                2 * DISC_MAX as int,
                                SCALE as int,
                            );
                            lemma_prod_bound(
                                ddv.1 as int,
                                p.1 as int,
                                2 * DISC_MAX as int,
                                SCALE as int,
                            );
                            lemma_prod_bound(
                                ddv.2 as int,
                                p.1 as int,
                                2 * DISC_MAX as int,
                                SCALE as int,
                            );
                            crate::fixed::lemma_tdiv_bound(
                                ddu.0 * p.0 as int,
                                SCALE as int,
                                2 * DISC_MAX as int,
                            );
                            crate::fixed::lemma_tdiv_bound(
                                ddu.1 * p.0 as int,
                                SCALE as int,
                                2 * DISC_MAX as int,
                            );
                            crate::fixed::lemma_tdiv_bound(
                                ddu.2 * p.0 as int,
                                SCALE as int,
                                2 * DISC_MAX as int,
                            );
                            crate::fixed::lemma_tdiv_bound(
                                ddv.0 * p.1 as int,
                                SCALE as int,
                                2 * DISC_MAX as int,
                            );
                            crate::fixed::lemma_tdiv_bound(
                                ddv.1 * p.1 as int,
                                SCALE as int,
                                2 * DISC_MAX as int,
                            );
                            crate::fixed::lemma_tdiv_bound(
                                ddv.2 * p.1 as int,
                                SCALE as int,
                                2 * DISC_MAX as int,
                            );
                        }
                        self.eye.origin.add(ddu.scale(p.0)).add(ddv.scale(p.1))
                    },
                    None => self.eye.origin,
                };
                let cx: i64 = coord.0 as i64;
                let cy: i64 = coord.1 as i64;
                proof {
                    lemma_prod_bound(pixel_delta_u.0 as int, cx as int, 0x8_0000_0000, 0x4000);
                    lemma_prod_bound(pixel_delta_u.1 as int, cx as int, 0x8_0000_0000, 0x4000);
                    lemma_prod_bound(pixel_delta_u.2 as int, cx as int, 0x8_0000_0000, 0x4000);
                    lemma_prod_bound(pixel_delta_v.0 as int, cy as int, 0x8_0000_0000, 0x4000);
                    lemma_prod_bound(pixel_delta_v.1 as int, cy as int, 0x8_0000_0000, 0x4000);
                    lemma_prod_bound(pixel_delta_v.2 as int, cy as int, 0x8_0000_0000, 0x4000);
                }
                let ux: Vec3 = Vec3(pixel_delta_u.0 * cx, pixel_delta_u.1 * cx, pixel_delta_u.2
                    * cx);
                let vy: Vec3 = Vec3(pixel_delta_v.0 * cy, pixel_delta_v.1 * cy, pixel_delta_v.2
                    * cy);
                let pixel_centre: Vec3 = pixel0_loc.add(ux).add(vy);
                let direction: Vec3 = pixel_centre.sub(origin);
                let ob: bool = origin.0 >= -RMAX && origin.0 <= RMAX && origin.1 >= -RMAX
                    && origin.1 <= RMAX && origin.2 >= -RMAX && origin.2 <= RMAX;
                let db: bool = direction.0 >= -RMAX && direction.0 <= RMAX && direction.1 >= -RMAX
                    && direction.1 <= RMAX && direction.2 >= -RMAX && direction.2 <= RMAX;
                if ob && db {
                    Ray { origin, direction }
                } else {
                    self.eye
                }
            },
        }
    }

    /// As `screen_to_world`, with the pixel target jittered by a uniform
    /// offset within half a pixel each way (box-filter antialiasing).
    pub fn screen_to_world_sampled(&self, coord: (usize, usize), sampler: &mut Sampler) -> (r: Ray)
        requires
            self.wf(),
            coord.0 < COORD_MAX,
            coord.1 < COORD_MAX,
        ensures
            (r, final(sampler).state) == spec_screen_to_world_sampled(
                *self,
                coord.0 as int,
                coord.1 as int,
                old(sampler).state,
            ),
            r.origin.within(RMAX as int),
            r.direction.within(RMAX as int),
    {
        let ray: Ray = self.screen_to_world(coord, sampler);
        match self.lens {
            CameraLens::Orthogonal { pixel0_loc: _, pixel_delta_u, pixel_delta_v, defocus_disc_uv: _ } => {
                let px: i64 = sampler.next_unit() - 32768;
                let py: i64 = sampler.next_unit() - 32768;
                proof {
                    lemma_prod_bound(pixel_delta_u.0 as int, px as int, 0x8_0000_0000, 32768);
                    lemma_prod_bound(pixel_delta_u.1 as int, px as int, 0x8_0000_0000, 32768);
                    lemma_prod_bound(pixel_delta_u.2 as int, px as int, 0x8_0000_0000, 32768);
                    lemma_prod_bound(pixel_delta_v.0 as int, py as int, 0x8_0000_0000, 32768);
                    lemma_prod_bound(pixel_delta_v.1 as int, py as int, 0x8_0000_0000, 32768);
                    lemma_prod_bound(pixel_delta_v.2 as int, py as int, 0x8_0000_0000, 32768);
                    crate::fixed::lemma_tdiv_bound(
                        pixel_delta_u.0 * px as int,
                        SCALE as int,
                        0x4_0000_0000,
                    );
                    crate::fixed::lemma_tdiv_bound(
                        pixel_delta_u.1 * px as int,
                        SCALE as int,
                        0x4_0000_0000,
                    );
                    crate::fixed::lemma_tdiv_bound(
                        pixel_delta_u.2 * px as int,
                        SCALE as int,
                        0x4_0000_0000,
                    );
                    crate::fixed::lemma_tdiv_bound(
                        pixel_delta_v.0 * py as int,
                        SCALE as int,
                        0x4_0000_0000,
                    );
                    crate::fixed::lemma_tdiv_bound(
                        pixel_delta_v.1 * py as int,
                        SCALE as int,
                        0x4_0000_0000,
                    );
                    crate::fixed::lemma_tdiv_bound(
                        pixel_delta_v.2 * py as int,
                        SCALE as int,
                        0x4_0000_0000,
                    );
                }
                let jitter: Vec3 = pixel_delta_u.scale(px).add(pixel_delta_v.scale(py));
                let direction: Vec3 = ray.direction.add(jitter);
                let db: bool = direction.0 >= -RMAX && direction.0 <= RMAX && direction.1 >= -RMAX
                    && direction.1 <= RMAX && direction.2 >= -RMAX && direction.2 <= RMAX;
                if db {
                    Ray { origin: ray.origin, direction }
                } else {
                    ray
                }
            },
        }
    }
}

} // verus!
