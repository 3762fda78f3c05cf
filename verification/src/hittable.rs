//! The result of a successful ray/surface intersection.

use vstd::prelude::*;

use crate::fixed::fx_ok;
use crate::material::Material;
use crate::ray3::Ray3;
use crate::vec3::Vec3;

verus! {

/// One intersection event: the ray parameter, the point reached, the
/// normal corrected to oppose the incoming ray, which side was struck, and
/// the material of the surface.
#[derive(Clone, Copy, PartialEq, Eq, Structural, Debug)]
pub struct HitRecord {
    pub t: i64,
    pub point: Vec3,
    pub normal: Vec3,
    pub is_front_face: bool,
    pub material: Material,
}

impl HitRecord {
    /// All fields lie in the representable range.
    pub open spec fn wf(self) -> bool {
        fx_ok(self.t) && self.point.wf() && self.normal.wf() && self.material.wf()
    }

    /// The outward-facing convention: the stored normal never points with
    /// the incoming ray.
    pub open spec fn opposes(self, ray: Ray3) -> bool {
        self.normal.dot_raw_s(ray.direction) <= 0
    }
}

} // verus!
