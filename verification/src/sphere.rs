//! Spheres and their ray-intersection routine.
//!
//! A ray `O + t*D` meets the sphere `|P - C|^2 = r^2` where
//! `a*t^2 + 2*half_b*t + c = 0`, with `a = dot(D,D)`,
//! `half_b = dot(O-C, D)` and `c = |O-C|^2 - r^2`.  The coefficients
//! are computed on raw mantissa products without intermediate
//! rounding, so the discriminant's sign — hit or miss — is exact.

use vstd::prelude::*;
use crate::fx::{Fx, SCALE, tdiv, fits, sqrt_floor, is_sqrt};
use crate::vec3::{
    Vec3, V3, v3_sub, v3_neg, v3_div, v3_fits, v3_bounded, dot_val, norm2_raw, VEC_LIMIT,
};
use crate::ray::{Ray, at_val};
use crate::material::Material;

verus! {

/// The largest componentwise mantissa of scene geometry (centers, ray
/// origins, directions, radii) under which the intersection
/// arithmetic stays inside `i128`.
pub const GEOM_LIMIT: i64 = 0x4000_0000;

/// The largest magnitude of a ray-parameter bound under which hit
/// points stay inside `i64` mantissas.
pub const T_LIMIT: i64 = 0x8000_0000;

/// A sphere with its material; a negative radius is allowed (its
/// normals point inward, which models hollow glass), zero is not.
#[derive(Clone, Copy, PartialEq, Eq, Structural, Debug)]
pub struct Sphere {
    pub center: Vec3,
    pub radius: Fx,
    pub material: Material,
}

/// Geometric well-formedness of a sphere.
pub open spec fn sphere_wf(s: Sphere) -> bool {
    v3_bounded(s.center@, GEOM_LIMIT as int) && s.radius.m != 0
        && -GEOM_LIMIT <= s.radius.m <= GEOM_LIMIT
}

/// Geometric well-formedness of a ray for intersection queries: a
/// bounded origin and a bounded, nonzero direction.
pub open spec fn ray_wf(r: Ray) -> bool {
    v3_bounded(r.orig@, GEOM_LIMIT as int) && v3_bounded(r.dir@, GEOM_LIMIT as int)
        && norm2_raw(r.dir@) > 0
}

/// The vector from the sphere's center to the ray's origin.
pub open spec fn oc_of(s: Sphere, r: Ray) -> V3 {
    v3_sub(r.orig@, s.center@)
}

/// The quadratic's leading coefficient `dot(D, D)`, on raw products.
pub open spec fn a_of(r: Ray) -> int {
    norm2_raw(r.dir@)
}

/// The quadratic's half middle coefficient `dot(O-C, D)`, on raw
/// products.
pub open spec fn half_b_of(s: Sphere, r: Ray) -> int {
    oc_of(s, r).x * r.dir@.x + oc_of(s, r).y * r.dir@.y + oc_of(s, r).z * r.dir@.z
}

/// The quadratic's constant coefficient `|O-C|^2 - r^2`, on raw
/// products.
pub open spec fn c_of(s: Sphere, r: Ray) -> int {
    norm2_raw(oc_of(s, r)) - s.radius.m * s.radius.m
}

/// The discriminant `half_b^2 - a*c`, exact: its sign separates hit
/// from miss.
pub open spec fn disc_of(s: Sphere, r: Ray) -> int {
    half_b_of(s, r) * half_b_of(s, r) - a_of(r) * c_of(s, r)
}

/// The smaller root's mantissa, `(-half_b - sqrt(disc)) / a` brought
/// to fixed-point scale.
pub open spec fn root1_of(s: Sphere, r: Ray) -> int {
    tdiv(SCALE * (-half_b_of(s, r) - sqrt_floor(disc_of(s, r))), a_of(r))
}

/// The larger root's mantissa.
pub open spec fn root2_of(s: Sphere, r: Ray) -> int {
    tdiv(SCALE * (-half_b_of(s, r) + sqrt_floor(disc_of(s, r))), a_of(r))
}

/// The hit point at parameter `t`.
pub open spec fn hit_point_of(s: Sphere, r: Ray, t: int) -> V3 {
    at_val(r.orig@, r.dir@, t)
}

/// The outward normal at parameter `t`: `(P - C) / radius`.
pub open spec fn outward_of(s: Sphere, r: Ray, t: int) -> V3 {
    v3_div(v3_sub(hit_point_of(s, r, t), s.center@), s.radius.m as int)
}

/// Whether the rounded outward normal at `t` is usable: close enough
/// to unit length (the fixed-point rounding can in principle degrade
/// a normal; such a hit is refused).
pub open spec fn outward_ok(s: Sphere, r: Ray, t: int) -> bool {
    crate::hittable::normal_in_range(outward_of(s, r, t))
}

/// Whether the struck side faces the ray: the ray arrives against the
/// outward normal.
pub open spec fn front_face_of(s: Sphere, r: Ray, t: int) -> bool {
    dot_val(r.dir@, outward_of(s, r, t)) < 0
}

/// The stored normal at `t`: the outward normal, oriented against the
/// ray.
pub open spec fn normal_of(s: Sphere, r: Ray, t: int) -> V3 {
    if front_face_of(s, r, t) {
        outward_of(s, r, t)
    } else {
        v3_neg(outward_of(s, r, t))
    }
}

/// The parameter at which the ray first hits the sphere strictly
/// inside `(tmin, tmax)`: the smaller root when it lies in range
/// (refusing the hit outright if that root's rounded normal is
/// unusable), else the larger root under the same rule, else no hit.
/// A negative discriminant is a miss; a zero one is the tangent
/// double root.
pub open spec fn hit_t_of(s: Sphere, r: Ray, tmin: int, tmax: int) -> Option<int> {
    if disc_of(s, r) < 0 {
        None
    } else {
        let t1 = root1_of(s, r);
        let t2 = root2_of(s, r);
        if tmin < t1 < tmax {
            if outward_ok(s, r, t1) {
                Some(t1)
            } else {
                None
            }
        } else if tmin < t2 < tmax {
            if outward_ok(s, r, t2) {
                Some(t2)
            } else {
                None
            }
        } else {
            None
        }
    }
}

/// A ray whose closest approach to the center exceeds the radius
/// reports no hit, whatever the query bounds.  "Closest approach
/// beyond the radius" is stated in exact cross-multiplied form:
/// `|D|^2 * (|O-C|^2 - r^2) > dot(O-C, D)^2` — dividing by `|D|^2`
/// gives the squared approach distance on the left against `r^2`.
pub proof fn lemma_sphere_miss(s: Sphere, r: Ray, tmin: int, tmax: int)
    requires
        a_of(r) * c_of(s, r) > half_b_of(s, r) * half_b_of(s, r),
    ensures
        hit_t_of(s, r, tmin, tmax) is None,
{
}

/// A ray fired straight down the z axis at a sphere centered at the
/// origin, from outside it, hits at exactly `z0 - r`: the
/// discriminant is the perfect square `(SCALE * r)^2`, so no rounding
/// enters, the hit strikes the front face and the stored unit normal
/// points straight back along the approach.
pub proof fn lemma_axis_hit(s: Sphere, r: Ray, tmin: int, tmax: int)
    requires
        s.center@ == (V3 { x: 0int, y: 0int, z: 0int }),
        0 < s.radius.m <= GEOM_LIMIT,
        r.orig@.x == 0,
        r.orig@.y == 0,
        s.radius.m < r.orig@.z <= GEOM_LIMIT,
        r.dir@ == (V3 { x: 0int, y: 0int, z: -65536int }),
        0 <= tmin < r.orig@.z - s.radius.m,
        r.orig@.z - s.radius.m < tmax,
    ensures
        hit_t_of(s, r, tmin, tmax) == Some(r.orig@.z - s.radius.m),
        r.orig@.z - s.radius.m > 0,
        front_face_of(s, r, r.orig@.z - s.radius.m),
        normal_of(s, r, r.orig@.z - s.radius.m) == (V3 { x: 0int, y: 0int, z: 65536int }),
{
    let z0 = r.orig@.z;
    let rad = s.radius.m as int;
    let t = z0 - rad;
    assert(a_of(r) == 65536 * 65536) by (nonlinear_arith)
        requires
            r.dir@ == (V3 { x: 0int, y: 0int, z: -65536int }),
    ;
    assert(half_b_of(s, r) == -(65536 * z0)) by (nonlinear_arith)
        requires
            oc_of(s, r) == (V3 { x: 0int, y: 0int, z: z0 }),
            r.dir@ == (V3 { x: 0int, y: 0int, z: -65536int }),
    ;
    assert(c_of(s, r) == z0 * z0 - rad * rad) by (nonlinear_arith)
        requires
            oc_of(s, r) == (V3 { x: 0int, y: 0int, z: z0 }),
            c_of(s, r) == norm2_raw(oc_of(s, r)) - rad * rad,
    ;
    assert(disc_of(s, r) == (65536 * rad) * (65536 * rad)) by (nonlinear_arith)
        requires
            disc_of(s, r) == (-(65536 * z0)) * (-(65536 * z0)) - (65536 * 65536) * (z0 * z0 - rad
                * rad),
    ;
    assert(disc_of(s, r) > 0) by (nonlinear_arith)
        requires
            disc_of(s, r) == (65536 * rad) * (65536 * rad),
            rad > 0,
    ;
    assert(is_sqrt(disc_of(s, r), 65536 * rad)) by (nonlinear_arith)
        requires
            disc_of(s, r) == (65536 * rad) * (65536 * rad),
            rad > 0,
    ;
    crate::fx::lemma_sqrt_floor(disc_of(s, r));
    crate::fx::lemma_sqrt_unique(disc_of(s, r), 65536 * rad, sqrt_floor(disc_of(s, r)));
    assert(SCALE * (-half_b_of(s, r) - sqrt_floor(disc_of(s, r))) == (65536 * 65536) * t)
        by (nonlinear_arith)
        requires
            half_b_of(s, r) == -(65536 * z0),
            sqrt_floor(disc_of(s, r)) == 65536 * rad,
            t == z0 - rad,
            SCALE == 65536,
    ;
    vstd::arithmetic::div_mod::lemma_div_multiples_vanish(t, 65536int * 65536int);
    assert(t >= 0);
    assert(root1_of(s, r) == t);
    // the hit point: the z component walks back exactly onto the
    // sphere's surface, the others stay zero
    assert(tdiv(0 * t, SCALE as int) == 0) by {
        vstd::arithmetic::mul::lemma_mul_by_zero_is_zero(t);
        vstd::arithmetic::div_mod::lemma_div_of0(SCALE as int);
    }
    assert((-65536) * t == -(65536 * t)) by (nonlinear_arith);
    vstd::arithmetic::div_mod::lemma_div_multiples_vanish(t, 65536);
    crate::fx::lemma_tdiv_odd(65536 * t, 65536 as int);
    assert(hit_point_of(s, r, t) == (V3 { x: 0int, y: 0int, z: rad }));
    // the outward normal is exactly the unit z vector
    assert(tdiv(0 * SCALE, rad) == 0) by {
        vstd::arithmetic::mul::lemma_mul_by_zero_is_zero(SCALE as int);
        vstd::arithmetic::div_mod::lemma_div_of0(rad);
    }
    assert(rad * 65536 == 65536 * rad) by (nonlinear_arith);
    vstd::arithmetic::div_mod::lemma_div_multiples_vanish(65536, rad);
    assert(outward_of(s, r, t) == (V3 { x: 0int, y: 0int, z: 65536int }));
    // the approach is head-on: the dot with the outward normal is
    // exactly minus one
    assert(0 * 0 + 0 * 0 + (-65536) * 65536 == -(65536 * 65536)) by (nonlinear_arith);
    assert(tdiv(-(65536 * 65536), 65536) == -65536) by {
        vstd::arithmetic::div_mod::lemma_div_multiples_vanish(65536, 65536);
        assert(65536 * 65536 == 65536 * 65536) by (nonlinear_arith);
    }
    assert(dot_val(r.dir@, outward_of(s, r, t)) == -65536);
    assert(front_face_of(s, r, t));
    assert(crate::hittable::normal_in_range(outward_of(s, r, t))) by {
        vstd::arithmetic::mul::lemma_mul_by_zero_is_zero(0);
        assert(65536int * 65536int == 4294967296int) by (nonlinear_arith);
        assert(norm2_raw(outward_of(s, r, t)) == 4294967296int) by (nonlinear_arith)
            requires
                outward_of(s, r, t) == (V3 { x: 0int, y: 0int, z: 65536int }),
        ;
    }
}

/// The smaller root never exceeds the larger one.
pub proof fn lemma_root_order(s: Sphere, r: Ray)
    requires
        a_of(r) > 0,
        disc_of(s, r) >= 0,
    ensures
        root1_of(s, r) <= root2_of(s, r),
{
    crate::fx::lemma_sqrt_floor(disc_of(s, r));
    vstd::arithmetic::mul::lemma_mul_left_inequality(
        SCALE as int,
        -half_b_of(s, r) - sqrt_floor(disc_of(s, r)),
        -half_b_of(s, r) + sqrt_floor(disc_of(s, r)),
    );
    crate::fx::lemma_tdiv_monotone(
        SCALE * (-half_b_of(s, r) - sqrt_floor(disc_of(s, r))),
        SCALE * (-half_b_of(s, r) + sqrt_floor(disc_of(s, r))),
        a_of(r),
    );
}

/// A reported hit parameter lies strictly inside the query bounds.
pub proof fn lemma_hit_t_range(s: Sphere, r: Ray, tmin: int, tmax: int, t: int)
    requires
        hit_t_of(s, r, tmin, tmax) == Some(t),
    ensures
        tmin < t < tmax,
{
}

/// Widening the upper bound of a query that already reports a hit
/// reports the same hit: the closest qualifying root does not depend
/// on how much farther the query could see.
pub proof fn lemma_hit_t_shrink(s: Sphere, r: Ray, tmin: int, b1: int, b2: int, t: int)
    requires
        a_of(r) > 0,
        b1 <= b2,
        hit_t_of(s, r, tmin, b1) == Some(t),
    ensures
        hit_t_of(s, r, tmin, b2) == Some(t),
{
    lemma_root_order(s, r);
}

impl Sphere {
    /// Builds the hit record for a root `t` already known to lie in
    /// range: hit point, oriented normal, struck side.  Refuses the
    /// hit when the rounded outward normal is unusable.
    fn record_at(&self, ray: &Ray, t: i64) -> (res: Option<crate::hittable::HitRecord>)
        requires
            sphere_wf(*self),
            ray_wf(*ray),
            -T_LIMIT < t < T_LIMIT,
        ensures
            match res {
                Some(hr) => {
                    &&& outward_ok(*self, *ray, t as int)
                    &&& hr.t.m == t
                    &&& hr.p@ == hit_point_of(*self, *ray, t as int)
                    &&& hr.front_face == front_face_of(*self, *ray, t as int)
                    &&& hr.normal@ == normal_of(*self, *ray, t as int)
                    &&& hr.material == self.material
                    &&& dot_val(ray.dir@, hr.normal@) <= 0
                    &&& crate::hittable::normal_in_range(hr.normal@)
                },
                None => !outward_ok(*self, *ray, t as int),
            },
    {
        let dx: i128 = ray.dir.x.m as i128;
        let dy: i128 = ray.dir.y.m as i128;
        let dz: i128 = ray.dir.z.m as i128;
        proof {
            crate::fx::lemma_mul_abs_bound(dx as int, t as int, GEOM_LIMIT as int, T_LIMIT as int);
            crate::fx::lemma_mul_abs_bound(dy as int, t as int, GEOM_LIMIT as int, T_LIMIT as int);
            crate::fx::lemma_mul_abs_bound(dz as int, t as int, GEOM_LIMIT as int, T_LIMIT as int);
            crate::fx::lemma_tdiv_bound(dx as int * t as int, SCALE as int);
            crate::fx::lemma_tdiv_bound(dy as int * t as int, SCALE as int);
            crate::fx::lemma_tdiv_bound(dz as int * t as int, SCALE as int);
        }
        let px: i128 = (ray.orig.x.m as i128) + (dx * (t as i128)) / (SCALE as i128);
        let py: i128 = (ray.orig.y.m as i128) + (dy * (t as i128)) / (SCALE as i128);
        let pz: i128 = (ray.orig.z.m as i128) + (dz * (t as i128)) / (SCALE as i128);
        let rad: i128 = self.radius.m as i128;
        let wxn: i128 = (px - (self.center.x.m as i128)) * (SCALE as i128);
        let wyn: i128 = (py - (self.center.y.m as i128)) * (SCALE as i128);
        let wzn: i128 = (pz - (self.center.z.m as i128)) * (SCALE as i128);
        let wx: i128 = if rad > 0 {
            proof {
                crate::fx::lemma_tdiv_bound(wxn as int, rad as int);
            }
            wxn / rad
        } else {
            proof {
                crate::fx::lemma_tdiv_bound(-(wxn as int), -(rad as int));
            }
            (-wxn) / (-rad)
        };
        let wy: i128 = if rad > 0 {
            proof {
                crate::fx::lemma_tdiv_bound(wyn as int, rad as int);
            }
            wyn / rad
        } else {
            proof {
                crate::fx::lemma_tdiv_bound(-(wyn as int), -(rad as int));
            }
            (-wyn) / (-rad)
        };
        let wz: i128 = if rad > 0 {
            proof {
                crate::fx::lemma_tdiv_bound(wzn as int, rad as int);
            }
            wzn / rad
        } else {
            proof {
                crate::fx::lemma_tdiv_bound(-(wzn as int), -(rad as int));
            }
            (-wzn) / (-rad)
        };
        let lim: i128 = crate::hittable::NORMAL_LIMIT as i128;
        if wx > lim || wx < -lim || wy > lim || wy < -lim || wz > lim || wz < -lim {
            return None;
        }
        proof {
            crate::fx::lemma_mul_abs_bound(
                wx as int,
                wx as int,
                crate::hittable::NORMAL_LIMIT as int,
                crate::hittable::NORMAL_LIMIT as int,
            );
            crate::fx::lemma_mul_abs_bound(
                wy as int,
                wy as int,
                crate::hittable::NORMAL_LIMIT as int,
                crate::hittable::NORMAL_LIMIT as int,
            );
            crate::fx::lemma_mul_abs_bound(
                wz as int,
                wz as int,
                crate::hittable::NORMAL_LIMIT as int,
                crate::hittable::NORMAL_LIMIT as int,
            );
            crate::fx::lemma_mul_abs_bound(
                dx as int,
                wx as int,
                GEOM_LIMIT as int,
                crate::hittable::NORMAL_LIMIT as int,
            );
            crate::fx::lemma_mul_abs_bound(
                dy as int,
                wy as int,
                GEOM_LIMIT as int,
                crate::hittable::NORMAL_LIMIT as int,
            );
            crate::fx::lemma_mul_abs_bound(
                dz as int,
                wz as int,
                GEOM_LIMIT as int,
                crate::hittable::NORMAL_LIMIT as int,
            );
        }
        let n2: i128 = wx * wx + wy * wy + wz * wz;
        if n2 < (crate::hittable::NORMAL_MIN2 as i128) {
            return None;
        }
        let dsum: i128 = dx * wx + dy * wy + dz * wz;
        proof {
            crate::fx::lemma_tdiv_bound(dsum as int, SCALE as int);
        }
        let dq: i128 = dsum / (SCALE as i128);
        let front = dq < 0;
        let w = Vec3::from_mantissas(wx as i64, wy as i64, wz as i64);
        let p = Vec3::from_mantissas(px as i64, py as i64, pz as i64);
        let normal = if front {
            w
        } else {
            proof {
                crate::vec3::lemma_dot_neg_right(ray.dir@, w@);
                crate::vec3::lemma_norm2_neg(w@);
            }
            Vec3 {
                x: Fx { m: -w.x.m },
                y: Fx { m: -w.y.m },
                z: Fx { m: -w.z.m },
            }
        };
        Some(
            crate::hittable::HitRecord {
                p,
                normal,
                material: self.material,
                t: Fx { m: t },
                front_face: front,
            },
        )
    }

    /// The nearest intersection of `ray` with this sphere strictly
    /// between `tmin` and `tmax`, if any: solves the quadratic on
    /// exact raw products, takes the smaller qualifying root, and
    /// reports the surface data at that parameter.
    pub fn hit(&self, ray: &Ray, tmin: Fx, tmax: Fx) -> (res: Option<crate::hittable::HitRecord>)
        requires
            sphere_wf(*self),
            ray_wf(*ray),
            -T_LIMIT <= tmin.m <= T_LIMIT,
            -T_LIMIT <= tmax.m <= T_LIMIT,
        ensures
            match res {
                Some(hr) => {
                    &&& hit_t_of(*self, *ray, tmin.m as int, tmax.m as int) == Some(hr.t.m as int)
                    &&& tmin.m < hr.t.m < tmax.m
                    &&& hr.p@ == hit_point_of(*self, *ray, hr.t.m as int)
                    &&& hr.front_face == front_face_of(*self, *ray, hr.t.m as int)
                    &&& hr.normal@ == normal_of(*self, *ray, hr.t.m as int)
                    &&& hr.material == self.material
                    &&& dot_val(ray.dir@, hr.normal@) <= 0
                    &&& crate::hittable::normal_in_range(hr.normal@)
                },
                None => hit_t_of(*self, *ray, tmin.m as int, tmax.m as int) is None,
            },
    {
        let dx: i128 = ray.dir.x.m as i128;
        let dy: i128 = ray.dir.y.m as i128;
        let dz: i128 = ray.dir.z.m as i128;
        let ocx: i128 = (ray.orig.x.m as i128) - (self.center.x.m as i128);
        let ocy: i128 = (ray.orig.y.m as i128) - (self.center.y.m as i128);
        let ocz: i128 = (ray.orig.z.m as i128) - (self.center.z.m as i128);
        let rad: i128 = self.radius.m as i128;
        proof {
            crate::fx::lemma_mul_abs_bound(dx as int, dx as int, GEOM_LIMIT as int, GEOM_LIMIT as int);
            crate::fx::lemma_mul_abs_bound(dy as int, dy as int, GEOM_LIMIT as int, GEOM_LIMIT as int);
            crate::fx::lemma_mul_abs_bound(dz as int, dz as int, GEOM_LIMIT as int, GEOM_LIMIT as int);
            crate::fx::lemma_mul_abs_bound(ocx as int, dx as int, 0x8000_0000, GEOM_LIMIT as int);
            crate::fx::lemma_mul_abs_bound(ocy as int, dy as int, 0x8000_0000, GEOM_LIMIT as int);
            crate::fx::lemma_mul_abs_bound(ocz as int, dz as int, 0x8000_0000, GEOM_LIMIT as int);
            crate::fx::lemma_mul_abs_bound(ocx as int, ocx as int, 0x8000_0000, 0x8000_0000);
            crate::fx::lemma_mul_abs_bound(ocy as int, ocy as int, 0x8000_0000, 0x8000_0000);
            crate::fx::lemma_mul_abs_bound(ocz as int, ocz as int, 0x8000_0000, 0x8000_0000);
            crate::fx::lemma_mul_abs_bound(rad as int, rad as int, GEOM_LIMIT as int, GEOM_LIMIT as int);
        }
        let a: i128 = dx * dx + dy * dy + dz * dz;
        let half_b: i128 = ocx * dx + ocy * dy + ocz * dz;
        let c: i128 = ocx * ocx + ocy * ocy + ocz * ocz - rad * rad;
        proof {
            crate::fx::lemma_mul_abs_bound(
                half_b as int,
                half_b as int,
                0x6000_0000_0000_0000,
                0x6000_0000_0000_0000,
            );
            crate::fx::lemma_mul_abs_bound(
                a as int,
                c as int,
                0x3000_0000_0000_0000,
                0xD000_0000_0000_0000,
            );
        }
        let disc: i128 = half_b * half_b - a * c;
        if disc < 0 {
            return None;
        }
        let root: u64 = crate::fx::isqrt(disc as u128);
        proof {
            crate::fx::lemma_mul_abs_bound(
                SCALE as int,
                -(half_b as int) - (root as int),
                SCALE as int,
                0x1_6000_0000_0000_0000,
            );
            crate::fx::lemma_mul_abs_bound(
                SCALE as int,
                -(half_b as int) + (root as int),
                SCALE as int,
                0x1_6000_0000_0000_0000,
            );
        }
        let num1: i128 = (SCALE as i128) * (-half_b - (root as i128));
        proof {
            crate::fx::lemma_tdiv_bound(num1 as int, a as int);
        }
        let t1: i128 = num1 / a;
        if (tmin.m as i128) < t1 && t1 < (tmax.m as i128) {
            return self.record_at(ray, t1 as i64);
        }
        let num2: i128 = (SCALE as i128) * (-half_b + (root as i128));
        proof {
            crate::fx::lemma_tdiv_bound(num2 as int, a as int);
        }
        let t2: i128 = num2 / a;
        if (tmin.m as i128) < t2 && t2 < (tmax.m as i128) {
            return self.record_at(ray, t2 as i64);
        }
        None
    }
}

/// Splits a dot product's sign test off an outward normal: returns
/// whether the ray arrives against the given outward normal, and that
/// normal oriented against the ray.
pub fn set_face_normal(ray: &Ray, outward_normal: Vec3) -> (res: (bool, Vec3))
    requires
        v3_bounded(ray.dir@, VEC_LIMIT as int),
        v3_bounded(outward_normal@, VEC_LIMIT as int),
        fits(dot_val(ray.dir@, outward_normal@)),
        v3_fits(v3_neg(outward_normal@)),
    ensures
        res.0 == (dot_val(ray.dir@, outward_normal@) < 0),
        res.0 ==> res.1@ == outward_normal@,
        !res.0 ==> res.1@ == v3_neg(outward_normal@),
        dot_val(ray.dir@, res.1@) <= 0,
{
    let d = ray.dir.dot(outward_normal);
    let front_face = d.m < 0;
    if front_face {
        (front_face, outward_normal)
    } else {
        proof {
            crate::vec3::lemma_dot_neg_right(ray.dir@, outward_normal@);
        }
        (
            front_face,
            Vec3 {
                x: Fx { m: -outward_normal.x.m },
                y: Fx { m: -outward_normal.y.m },
                z: Fx { m: -outward_normal.z.m },
            },
        )
    }
}

} // verus!
