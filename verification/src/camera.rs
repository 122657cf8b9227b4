//! The camera: immutable viewing configuration and ray generation.
//!
//! The vertical field of view enters as the tangent of its half
//! angle, already in fixed point (trigonometry stays with the
//! caller); the rest of the configuration follows from it, the aspect
//! ratio, the focus distance and the aperture.

use vstd::prelude::*;
use crate::fx::{Fx, SCALE, mul_val, lemma_tdiv_quotient_bound, lemma_mul_abs_bound};
use crate::vec3::{
    Vec3, Point3, V3, v3_add, v3_sub, v3_scale, v3_div, v3_bounded, cross_val, norm2_raw,
    unit_val, lemma_scale_scaled_bounded, lemma_div_scaled_bounded, lemma_norm2_pos,
    lemma_norm2_zero_of_zero,
};
use crate::ray::Ray;
use crate::sphere::GEOM_LIMIT;

verus! {

/// Bounds under which ray generation stays inside the intersection
/// routine's geometry limits.
pub open spec fn camera_wf(c: Camera) -> bool {
    &&& v3_bounded(c.origin@, 0x80_0000)
    &&& v3_bounded(c.lower_left_corner@, 0x800_0000)
    &&& v3_bounded(c.horizontal@, 0x800_0000)
    &&& v3_bounded(c.vertical@, 0x400_0000)
    &&& v3_bounded(c.u@, 2 * SCALE as int)
    &&& v3_bounded(c.v@, 2 * SCALE as int)
    &&& v3_bounded(c.w@, 2 * SCALE as int)
    &&& 0 <= c.lens_radius.m <= 0x10_0000
}

/// The lens offset a disk sample `rd` produces: its x along the
/// camera's right axis plus its y along the up axis.
pub open spec fn offset_of(c: Camera, rd: V3) -> V3 {
    v3_add(v3_scale(c.u@, rd.x), v3_scale(c.v@, rd.y))
}

/// The origin of the generated ray: the camera origin shifted by the
/// lens offset.
pub open spec fn getray_orig(c: Camera, rd: V3) -> V3 {
    v3_add(c.origin@, offset_of(c, rd))
}

/// The direction of the generated ray: through the image-plane point
/// `(s, t)`, back from the shifted origin.
pub open spec fn getray_dir(c: Camera, s: int, t: int, rd: V3) -> V3 {
    v3_sub(
        v3_sub(
            v3_add(
                v3_add(c.lower_left_corner@, v3_scale(c.horizontal@, s)),
                v3_scale(c.vertical@, t),
            ),
            c.origin@,
        ),
        offset_of(c, rd),
    )
}

/// The immutable camera configuration: position, viewport frame and
/// lens radius, all derived once.
#[derive(Clone, Copy, PartialEq, Eq, Structural, Debug)]
pub struct Camera {
    pub origin: Point3,
    pub lower_left_corner: Point3,
    pub horizontal: Vec3,
    pub vertical: Point3,
    pub u: Vec3,
    pub v: Vec3,
    pub w: Vec3,
    pub lens_radius: Fx,
}

impl Camera {
    /// Derives the camera frame from the view parameters.  For the
    /// degenerate placements no real scene uses (a view direction of
    /// zero length, or an up vector parallel to it) the frame falls
    /// back to the world axes; otherwise every field carries the
    /// exact fixed-point formula, and for a separation of at least
    /// one unit the derived basis is within rounding of orthonormal.
    /// The caps on the tangent and the aspect ratio (both at 2: a
    /// field of view up to about 126 degrees, frames up to 2:1) are
    /// fixed-point range budgets, not optical limits: they keep the
    /// viewport arithmetic inside the geometry bounds that ray
    /// generation needs.
    pub fn new(
        lookfrom: Point3,
        lookat: Point3,
        vup: Vec3,
        tan_half_vfov: Fx,
        aspect_ratio: Fx,
        aperture: Fx,
        focus_dist: Fx,
    ) -> (r: Camera)
        requires
            v3_bounded(lookfrom@, 0x80_0000),
            v3_bounded(lookat@, 0x80_0000),
            v3_bounded(vup@, 0x10_0000),
            0 <= tan_half_vfov.m <= 2 * SCALE,
            0 < aspect_ratio.m <= 2 * SCALE,
            0 <= aperture.m <= 0x10_0000,
            0 < focus_dist.m <= 0x80_0000,
        ensures
            camera_wf(r),
            r.origin == lookfrom,
            r.lens_radius.m == aperture.m / 2,
            ({
                let diff = v3_sub(lookfrom@, lookat@);
                norm2_raw(diff) > 0 && norm2_raw(cross_val(vup@, unit_val(diff))) > 0
            }) ==> ({
                let diff = v3_sub(lookfrom@, lookat@);
                let w = unit_val(diff);
                let u = unit_val(cross_val(vup@, w));
                let v = cross_val(w, u);
                let vh = 2 * tan_half_vfov.m;
                let vw = mul_val(aspect_ratio.m as int, vh);
                let hm = mul_val(focus_dist.m as int, vw);
                let vm = mul_val(focus_dist.m as int, vh);
                &&& r.w@ == w
                &&& r.u@ == u
                &&& r.v@ == v
                &&& r.horizontal@ == v3_scale(u, hm)
                &&& r.vertical@ == v3_scale(v, vm)
                &&& r.lower_left_corner@ == v3_sub(
                    v3_sub(
                        v3_sub(lookfrom@, v3_div(v3_scale(u, hm), 2 * SCALE as int)),
                        v3_div(v3_scale(v, vm), 2 * SCALE as int),
                    ),
                    v3_scale(w, focus_dist.m as int),
                )
            }),
            ({
                let diff = v3_sub(lookfrom@, lookat@);
                norm2_raw(diff) >= 65536 * 65536 && norm2_raw(
                    cross_val(vup@, unit_val(diff)),
                ) >= 65536 * 65536
            }) ==> {
                &&& 65531 <= crate::vec3::len_val(r.w@) <= 65537
                &&& 65531 <= crate::vec3::len_val(r.u@) <= 65537
                &&& -6 <= crate::vec3::dot_val(r.u@, r.w@) <= 6
                &&& -3 <= crate::vec3::dot_val(r.v@, r.w@) <= 3
                &&& -3 <= crate::vec3::dot_val(r.v@, r.u@) <= 3
            },
    {
        let diffv = lookfrom - lookat;
        let w: Vec3 = if diffv.x.m == 0 && diffv.y.m == 0 && diffv.z.m == 0 {
            proof {
                lemma_norm2_zero_of_zero(diffv@);
            }
            Vec3 { x: Fx { m: 0 }, y: Fx { m: 0 }, z: Fx { m: 65536 } }
        } else {
            proof {
                lemma_norm2_pos(diffv@);
            }
            diffv.unit_vector()
        };
        proof {
            crate::vec3::lemma_cross_scaled_bounded(vup@, w@, 16, 1);
        }
        let cv = vup.cross(w);
        let u: Vec3 = if cv.x.m == 0 && cv.y.m == 0 && cv.z.m == 0 {
            proof {
                lemma_norm2_zero_of_zero(cv@);
            }
            Vec3 { x: Fx { m: 65536 }, y: Fx { m: 0 }, z: Fx { m: 0 } }
        } else {
            proof {
                lemma_norm2_pos(cv@);
            }
            cv.unit_vector()
        };
        proof {
            crate::vec3::lemma_cross_scaled_bounded(w@, u@, 1, 1);
        }
        let v = w.cross(u);
        proof {
            // under a separation of at least one unit (and an up
            // vector not parallel to the view), the basis is within
            // rounding of orthonormal
            let diff = v3_sub(lookfrom@, lookat@);
            if norm2_raw(diff) >= 65536 * 65536 && norm2_raw(
                cross_val(vup@, unit_val(diff)),
            ) >= 65536 * 65536 {
                crate::vec3::lemma_unit_length(diff);
                crate::vec3::lemma_unit_length(cross_val(vup@, unit_val(diff)));
                crate::vec3::lemma_unit_cross_orthogonal(vup@, w@, 0x10_0000);
                crate::vec3::lemma_cross_dot_bound(w@, u@, SCALE as int, SCALE as int);
                crate::fx::lemma_tdiv_quotient_bound(
                    v@.x * w@.x + v@.y * w@.y + v@.z * w@.z,
                    SCALE as int,
                    3,
                );
                crate::fx::lemma_tdiv_quotient_bound(
                    v@.x * u@.x + v@.y * u@.y + v@.z * u@.z,
                    SCALE as int,
                    3,
                );
            }
        }
        let vhf = Fx { m: 2 * tan_half_vfov.m };
        proof {
            lemma_mul_abs_bound(aspect_ratio.m as int, vhf.m as int, 2 * SCALE as int, 4 * SCALE as int);
            assert((2 * SCALE) * (4 * SCALE) == (8 * SCALE) * SCALE) by (nonlinear_arith)
                requires
                    SCALE == 65536,
            ;
            lemma_tdiv_quotient_bound(aspect_ratio.m as int * vhf.m as int, SCALE as int, 8 * SCALE as int);
        }
        let vwf = aspect_ratio * vhf;
        proof {
            lemma_mul_abs_bound(focus_dist.m as int, vwf.m as int, 0x80_0000, 8 * SCALE as int);
            assert(0x80_0000 * (8 * SCALE) == 0x400_0000int * SCALE) by (nonlinear_arith)
                requires
                    SCALE == 65536,
            ;
            lemma_tdiv_quotient_bound(focus_dist.m as int * vwf.m as int, SCALE as int, 0x400_0000);
            lemma_mul_abs_bound(focus_dist.m as int, vhf.m as int, 0x80_0000, 4 * SCALE as int);
            assert(0x80_0000 * (4 * SCALE) == 0x200_0000int * SCALE) by (nonlinear_arith)
                requires
                    SCALE == 65536,
            ;
            lemma_tdiv_quotient_bound(focus_dist.m as int * vhf.m as int, SCALE as int, 0x200_0000);
        }
        let hwf = focus_dist * vwf;
        let vvf = focus_dist * vhf;
        proof {
            lemma_scale_scaled_bounded(u@, hwf.m as int, 2, 0x400_0000);
            lemma_scale_scaled_bounded(v@, vvf.m as int, 2, 0x200_0000);
            lemma_scale_scaled_bounded(w@, focus_dist.m as int, 2, 0x80_0000);
        }
        let horizontal = hwf * u;
        let vertical = vvf * v;
        let fw = focus_dist * w;
        let half = Fx { m: 2 * SCALE };
        proof {
            lemma_div_scaled_bounded(horizontal@, 2 * SCALE as int, 0x800_0000, 0x400_0000);
            lemma_div_scaled_bounded(vertical@, 2 * SCALE as int, 0x400_0000, 0x200_0000);
        }
        let lower_left_corner = lookfrom - horizontal / half - vertical / half - fw;
        Camera {
            origin: lookfrom,
            lower_left_corner,
            horizontal,
            vertical,
            u,
            v,
            w,
            lens_radius: Fx { m: aperture.m / 2 },
        }
    }

    /// Generates the ray through normalized image-plane coordinates
    /// `(s, t)`, with its origin jittered on the lens disk for
    /// defocus blur: there is a disk sample `rd` (bounded by the lens
    /// radius) from which origin and direction follow exactly.
    pub fn getray(self, s: Fx, t: Fx, rng: &mut rand::rngs::StdRng) -> (res: Ray)
        requires
            camera_wf(self),
            0 <= s.m <= SCALE,
            0 <= t.m <= SCALE,
        ensures
            v3_bounded(res.orig@, GEOM_LIMIT as int),
            v3_bounded(res.dir@, GEOM_LIMIT as int),
            exists|rd: V3|
                {
                    &&& v3_bounded(rd, self.lens_radius.m as int)
                    &&& res.orig@ == #[trigger] getray_orig(self, rd)
                    &&& res.dir@ == getray_dir(self, s.m as int, t.m as int, rd)
                },
    {
        let disk = Vec3::random_in_unit_disk(rng);
        proof {
            lemma_scale_scaled_bounded(disk@, self.lens_radius.m as int, 1, self.lens_radius.m as int);
        }
        let rd = self.lens_radius * disk;
        proof {
            lemma_scale_scaled_bounded(self.u@, rd.x.m as int, 2, 0x10_0000);
            lemma_scale_scaled_bounded(self.v@, rd.y.m as int, 2, 0x10_0000);
        }
        let offset = self.u * rd.x + self.v * rd.y;
        let orig = self.origin + offset;
        proof {
            lemma_scale_scaled_bounded(self.horizontal@, s.m as int, 0x800, SCALE as int);
            lemma_scale_scaled_bounded(self.vertical@, t.m as int, 0x400, SCALE as int);
        }
        let dir = self.lower_left_corner + self.horizontal * s + self.vertical * t - self.origin
            - offset;
        let res = Ray { orig, dir };
        proof {
            let g = rd@;
            assert(v3_bounded(g, self.lens_radius.m as int));
            assert(res.orig@ == getray_orig(self, g));
            assert(res.dir@ == getray_dir(self, s.m as int, t.m as int, g));
        }
        res
    }
}

} // verus!
