//! Stock scenes: geometry lists the library can generate itself.

use crate::colour::{spec_colour_random, Colour};
use crate::fixed::{tdiv, SCALE};
use crate::geometry::Geometry;
use crate::material::Material;
use crate::sampler::{next_state, unit_of, Sampler};
use crate::shape::Shape;
use crate::vec::{spec_length, spec_sub, Vec3};
use vstd::prelude::*;

verus! {

/// The scenes `generate` knows how to build.
#[derive(Clone, Copy, Debug, PartialEq, Eq, Structural)]
pub enum StockScene {
    RandomSpheres,
}

/// The ground: a huge matte sphere the small ones rest on.
pub open spec fn ground_geometry() -> Geometry {
    Geometry {
        shape: Shape::Sphere { centre: Vec3(0, -65536000i64, 0), radius: 65536000 },
        material: Material::Lambertian {
            colour: Colour(Vec3(32768, 32768, 32768)),
            albedo: 19661,
        },
    }
}

/// The large glass sphere at the centre.
pub open spec fn glass_geometry() -> Geometry {
    Geometry {
        shape: Shape::Sphere { centre: Vec3(0, 65536, 0), radius: 65536 },
        material: Material::Dielectric { ior: 98304 },
    }
}

/// The large matte sphere on the left.
pub open spec fn matte_geometry() -> Geometry {
    Geometry {
        shape: Shape::Sphere { centre: Vec3(-262144i64, 65536, 0), radius: 65536 },
        material: Material::Lambertian {
            colour: Colour(Vec3(26214, 13107, 6554)),
            albedo: 65536,
        },
    }
}

/// The large polished-metal sphere on the right.
pub open spec fn metal_geometry() -> Geometry {
    Geometry {
        shape: Shape::Sphere { centre: Vec3(262144, 65536, 0), radius: 65536 },
        material: Material::Metal { tint: Colour(Vec3(45875, 39322, 32768)), scatter: 0 },
    }
}

/// The sky behind everything.
pub open spec fn background_geometry() -> Geometry {
    Geometry { shape: Shape::Background, material: Material::ScreenSpaceGradient }
}

/// Whether a candidate small-sphere centre crowds the metal sphere's
/// spot (within nine tenths of a unit of where it rests).
pub open spec fn spec_near_reserved(centre: Vec3) -> bool {
    spec_length(spec_sub(centre, Vec3(262144, 13107, 0))) <= 58982
}

/// The small sphere one grid cell contributes, and the sampler state
/// after its draws: a jittered centre; nothing if it would crowd the
/// metal sphere; else a material chosen by one draw — mostly matte, some
/// fuzzed metal, a few glass.
pub open spec fn spec_cell(a: int, b: int, s: u64) -> (Option<Geometry>, u64) {
    let s1 = next_state(s);
    let s2 = next_state(s1);
    let centre = Vec3((a * SCALE + unit_of(s1)) as i64, 13107, (b * SCALE + unit_of(s2)) as i64);
    if spec_near_reserved(centre) {
        (None, s2)
    } else {
        let s3 = next_state(s2);
        let m = unit_of(s3);
        let shape = Shape::Sphere { centre, radius: 13107 };
        if m < 52429 {
            let c1 = spec_colour_random(0, SCALE as int, s3);
            let c2 = spec_colour_random(0, SCALE as int, c1.1);
            (
                Some(
                    Geometry {
                        shape,
                        material: Material::Lambertian {
                            colour: crate::colour::spec_tint(c1.0, c2.0),
                            albedo: 65536,
                        },
                    },
                ),
                c2.1,
            )
        } else if m < 62260 {
            let c1 = spec_colour_random(32768, SCALE as int, s3);
            let s4 = next_state(c1.1);
            (
                Some(
                    Geometry {
                        shape,
                        material: Material::Metal {
                            tint: c1.0,
                            scatter: tdiv(unit_of(s4) as int, 2) as i64,
                        },
                    },
                ),
                s4,
            )
        } else {
            (Some(Geometry { shape, material: Material::Dielectric { ior: 98304 } }), s3)
        }
    }
}

/// The small spheres the grid cells from `(a, b)` on contribute, row by
/// row, with the sampler state after all their draws.
pub open spec fn spec_grid(a: int, b: int, s: u64) -> (Seq<Geometry>, u64)
    decreases 11 - a, 11 - b,
{
    if a >= 11 || a < -11 || b < -11 {
        (Seq::empty(), s)
    } else if b >= 11 {
        spec_grid(a + 1, -11, s)
    } else {
        let cell = spec_cell(a, b, s);
        let rest = spec_grid(a, b + 1, cell.1);
        (
            match cell.0 {
                Some(g) => seq![g] + rest.0,
                None => rest.0,
            },
            rest.1,
        )
    }
}

/// What `generate_random_spheres` returns: the ground, the grid of small
/// spheres, the three large spheres, and the sky.
pub open spec fn spec_random_spheres(s: u64) -> (Seq<Geometry>, u64) {
    let grid = spec_grid(-11, -11, s);
    (
        seq![ground_geometry()] + grid.0 + seq![
            glass_geometry(),
            matte_geometry(),
            metal_geometry(),
            background_geometry(),
        ],
        grid.1,
    )
}

/// One grid cell's contribution.
fn grid_cell(a: i64, b: i64, sampler: &mut Sampler) -> (r: Option<Geometry>)
    requires
        -11 <= a < 11,
        -11 <= b < 11,
    ensures
        (r, final(sampler).state) == spec_cell(a as int, b as int, old(sampler).state),
        r matches Some(g) ==> g.wf(),
{
    let cx: i64 = a * SCALE + sampler.next_unit();
    let cz: i64 = b * SCALE + sampler.next_unit();
    let centre: Vec3 = Vec3(cx, 13107, cz);
    let offset: Vec3 = centre.sub(Vec3(262144, 13107, 0));
    if offset.length() <= 58982 {
        return None;
    }
    let m: i64 = sampler.next_unit();
    let shape: Shape = Shape::Sphere { centre, radius: 13107 };
    if m < 52429 {
        let c1: Colour = Colour::random(sampler, 0, SCALE);
        let c2: Colour = Colour::random(sampler, 0, SCALE);
        proof {
            crate::vec::lemma_prod_bound(c1.0.0 as int, c2.0.0 as int, SCALE as int, SCALE as int);
            crate::vec::lemma_prod_bound(c1.0.1 as int, c2.0.1 as int, SCALE as int, SCALE as int);
            crate::vec::lemma_prod_bound(c1.0.2 as int, c2.0.2 as int, SCALE as int, SCALE as int);
            crate::fixed::lemma_tdiv_bound(c1.0.0 * c2.0.0, SCALE as int, SCALE as int);
            crate::fixed::lemma_tdiv_bound(c1.0.1 * c2.0.1, SCALE as int, SCALE as int);
            crate::fixed::lemma_tdiv_bound(c1.0.2 * c2.0.2, SCALE as int, SCALE as int);
            assert(c1.0.0 * c2.0.0 >= 0 && c1.0.1 * c2.0.1 >= 0 && c1.0.2 * c2.0.2 >= 0)
                by (nonlinear_arith)
                requires
                    c1.0.0 >= 0 && c1.0.1 >= 0 && c1.0.2 >= 0,
                    c2.0.0 >= 0 && c2.0.1 >= 0 && c2.0.2 >= 0,
            ;
            crate::fixed::lemma_tdiv_lower(c1.0.0 * c2.0.0, SCALE as int, 0);
            crate::fixed::lemma_tdiv_lower(c1.0.1 * c2.0.1, SCALE as int, 0);
            crate::fixed::lemma_tdiv_lower(c1.0.2 * c2.0.2, SCALE as int, 0);
        }
        let colour: Colour = c1.mul(c2);
        Some(Geometry { shape, material: Material::Lambertian { colour, albedo: 65536 } })
    } else if m < 62260 {
        let tint: Colour = Colour::random(sampler, 32768, SCALE);
        let u: i64 = sampler.next_unit();
        let scatter: i64 = u / 2;
        Some(Geometry { shape, material: Material::Metal { tint, scatter } })
    } else {
        Some(Geometry { shape, material: Material::Dielectric { ior: 98304 } })
    }
}

/// The random-spheres scene: a grid of small spheres with randomly drawn
/// centres and materials, around three large ones, on a huge matte
/// ground, under the sky.
pub fn generate_random_spheres(sampler: &mut Sampler) -> (geometries: Vec<Geometry>)
    ensures
        (geometries@, final(sampler).state) == spec_random_spheres(old(sampler).state),
        forall|i: int| 0 <= i < geometries@.len() ==> (#[trigger] geometries@[i]).wf(),
{
    let ghost s0 = old(sampler).state;
    let ghost full = spec_grid(-11, -11, s0);
    let mut geometries: Vec<Geometry> = Vec::new();
    geometries.push(
        Geometry {
            shape: Shape::Sphere { centre: Vec3(0, -65536000i64, 0), radius: 65536000 },
            material: Material::Lambertian {
                colour: Colour(Vec3(32768, 32768, 32768)),
                albedo: 19661,
            },
        },
    );
    let ghost mut done: Seq<Geometry> = Seq::empty();
    let mut a: i64 = -11;
    while a < 11
        invariant
            -11 <= a <= 11,
            geometries@ == seq![ground_geometry()] + done,
            done + spec_grid(a as int, -11, sampler.state).0 == full.0,
            spec_grid(a as int, -11, sampler.state).1 == full.1,
            forall|i: int| 0 <= i < geometries@.len() ==> (#[trigger] geometries@[i]).wf(),
        decreases 11 - a,
    {
        let mut b: i64 = -11;
        while b < 11
            invariant
                -11 <= a < 11,
                -11 <= b <= 11,
                geometries@ == seq![ground_geometry()] + done,
                done + spec_grid(a as int, b as int, sampler.state).0 == full.0,
                spec_grid(a as int, b as int, sampler.state).1 == full.1,
                forall|i: int| 0 <= i < geometries@.len() ==> (#[trigger] geometries@[i]).wf(),
            decreases 11 - b,
        {
            let cell: Option<Geometry> = grid_cell(a, b, sampler);
            match cell {
                Some(g) => {
                    proof {
                        assert(done + (seq![g] + spec_grid(a as int, b as int + 1, sampler.state).0)
                            =~= (done + seq![g]) + spec_grid(
                            a as int,
                            b as int + 1,
                            sampler.state,
                        ).0);
                        assert((seq![ground_geometry()] + done).push(g) =~= seq![ground_geometry()]
                            + (done + seq![g]));
                    }
                    geometries.push(g);
                    proof {
                        done = done + seq![g];
                    }
                },
                None => {},
            }
            b = b + 1;
        }
        a = a + 1;
    }
    geometries.push(
        Geometry {
            shape: Shape::Sphere { centre: Vec3(0, 65536, 0), radius: 65536 },
            material: Material::Dielectric { ior: 98304 },
        },
    );
    geometries.push(
        Geometry {
            shape: Shape::Sphere { centre: Vec3(-262144i64, 65536, 0), radius: 65536 },
            material: Material::Lambertian {
                colour: Colour(Vec3(26214, 13107, 6554)),
                albedo: 65536,
            },
        },
    );
    geometries.push(
        Geometry {
            shape: Shape::Sphere { centre: Vec3(262144, 65536, 0), radius: 65536 },
            material: Material::Metal { tint: Colour(Vec3(45875, 39322, 32768)), scatter: 0 },
        },
    );
    geometries.push(Geometry { shape: Shape::Background, material: Material::ScreenSpaceGradient });
    proof {
        assert(geometries@ =~= seq![ground_geometry()] + done + seq![
            glass_geometry(),
            matte_geometry(),
            metal_geometry(),
            background_geometry(),
        ]);
        assert(geometries@ =~= spec_random_spheres(s0).0);
    }
    geometries
}

impl StockScene {
    /// The geometry list for this stock scene.
    pub fn generate(&self, sampler: &mut Sampler) -> (geometries: Vec<Geometry>)
        ensures
            (geometries@, final(sampler).state) == spec_random_spheres(old(sampler).state),
            forall|i: int| 0 <= i < geometries@.len() ==> (#[trigger] geometries@[i]).wf(),
    {
        match self {
            StockScene::RandomSpheres => generate_random_spheres(sampler),
        }
    }
}

} // verus!
