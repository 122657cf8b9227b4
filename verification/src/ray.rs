//! Rays: an origin and a direction, evaluated at a scalar parameter.

use vstd::prelude::*;
use crate::fx::Fx;
use crate::vec3::{Vec3, Point3, V3, v3_add, v3_scale, v3_fits};

verus! {

/// A half-line through `orig` along `dir`, parametrized by `t`.
#[derive(Clone, Copy, PartialEq, Eq, Structural, Debug)]
pub struct Ray {
    pub orig: Point3,
    pub dir: Vec3,
}

/// The point a ray reaches at parameter mantissa `t`:
/// `orig + dir * t`, with the scaling's truncation.
pub open spec fn at_val(orig: V3, dir: V3, t: int) -> V3 {
    v3_add(orig, v3_scale(dir, t))
}

impl Ray {
    /// A ray from an origin and a direction.
    pub fn new(o: Point3, d: Vec3) -> (r: Ray)
        ensures
            r.orig == o,
            r.dir == d,
    {
        Ray { dir: d, orig: o }
    }

    /// The point at parameter `t` (which may be negative; callers
    /// constrain it through their own bounds).
    pub fn at(self, t: Fx) -> (r: Point3)
        requires
            v3_fits(v3_scale(self.dir@, t.m as int)),
            v3_fits(at_val(self.orig@, self.dir@, t.m as int)),
        ensures
            r@ == at_val(self.orig@, self.dir@, t.m as int),
    {
        self.orig + self.dir * t
    }
}

} // verus!
