//! The closed set of material behaviours a surface can have.

use crate::colour::{channels_within, Colour};
use crate::fixed::SCALE;
use vstd::prelude::*;

verus! {

#[derive(Clone, Copy, Debug, PartialEq, Eq, Structural)]
pub enum Material {
    /// Sky gradient derived from the ray direction; for backgrounds.
    ScreenSpaceGradient,
    /// Visualizes the hit normal as a colour; a debugging aid.
    NormalSpaceGradient,
    /// A flat emitter: the stored colour, no recursion.
    SolidColour { colour: Colour },
    /// Diffuse scattering with a retained-energy fraction.
    Lambertian { colour: Colour, albedo: i64 },
    /// Specular reflection, fuzzed by a scatter fraction.
    Metal { tint: Colour, scatter: i64 },
    /// A colourless refractive medium with the given index of refraction.
    Dielectric { ior: i64 },
}

impl Material {
    /// Validity of a material's parameters: colours and fractions within
    /// `[0, 1]`, the refractive index positive and within reason.
    pub open spec fn wf(self) -> bool {
        match self {
            Material::ScreenSpaceGradient => true,
            Material::NormalSpaceGradient => true,
            Material::SolidColour { colour } => channels_within(colour, 0, SCALE as int),
            Material::Lambertian { colour, albedo } => channels_within(colour, 0, SCALE as int)
                && 0 <= albedo <= SCALE,
            Material::Metal { tint, scatter } => channels_within(tint, 0, SCALE as int) && 0
                <= scatter <= SCALE,
            Material::Dielectric { ior } => 16384 <= ior <= 16 * SCALE,
        }
    }
}

} // verus!
