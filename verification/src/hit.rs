//! The record an intersection produces, alive for one scatter evaluation.

use crate::material::Material;
use crate::vec::Vec3;
use vstd::prelude::*;

verus! {

#[derive(Clone, Copy, Debug, PartialEq, Eq, Structural)]
pub struct Hit {
    pub material: Material,
    pub point: Vec3,
    /// Unit-length surface normal, flipped to face against the incoming
    /// ray.
    pub normal: Vec3,
    /// Hit distance along the ray.
    pub t: i64,
    /// Whether the ray struck the surface from its outward side.
    pub front_face: bool,
}

} // verus!
