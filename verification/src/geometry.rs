//! A shape paired with the material covering it.

use crate::material::Material;
use crate::shape::Shape;
use vstd::prelude::*;

verus! {

#[derive(Clone, Copy, Debug, PartialEq, Eq, Structural)]
pub struct Geometry {
    pub shape: Shape,
    pub material: Material,
}

impl Geometry {
    pub open spec fn wf(self) -> bool {
        self.shape.wf() && self.material.wf()
    }
}

} // verus!
