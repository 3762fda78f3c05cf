//! A ray: a parametric half-line with an origin, a direction and a time
//! stamp used for motion blur.

use vstd::prelude::*;

use crate::fixed::fx_ok;
use crate::vec3::Vec3;

verus! {

/// A directed line `origin + direction * t`, tagged with the shutter time at
/// which it was cast.
#[derive(Clone, Copy, PartialEq, Eq, Structural, Debug)]
pub struct Ray3 {
    pub origin: Vec3,
    pub direction: Vec3,
    pub time: i64,
}

impl Ray3 {
    /// All fields lie in the representable range.
    pub open spec fn wf(self) -> bool {
        self.origin.wf() && self.direction.wf() && fx_ok(self.time)
    }

    /// The point the ray reaches at parameter `t`.
    pub open spec fn at_s(self, t: i64) -> Vec3 {
        self.origin.add_s(self.direction.scale_s(t))
    }

    /// Build a ray from its parts.
    pub fn new(origin: Vec3, direction: Vec3, time: i64) -> (r: Ray3)
        ensures
            r == (Ray3 { origin, direction, time }),
    {
        Ray3 { origin, direction, time }
    }

    /// `origin + direction * t`.
    pub fn at(&self, t: i64) -> (r: Vec3)
        requires
            self.wf(),
            fx_ok(t),
        ensures
            r == self.at_s(t),
            r.wf(),
    {
        self.origin.add(self.direction.scale(t))
    }
}

} // verus!
