//! Surface materials: diffuse, metallic and dielectric scattering.
//!
//! A material decides whether a ray that struck a surface continues,
//! and with what direction and colour attenuation.  The closed set of
//! behaviours is a tagged enum dispatched by pattern matching.

use vstd::prelude::*;
use crate::fx::{
    Fx, SCALE, tdiv, div_val, sqrt_floor, lemma_tdiv_bound, lemma_tdiv_quotient_bound,
    lemma_tdiv_fundamental, lemma_square_nonneg, lemma_mul_abs_bound,
};
use crate::vec3::{
    Vec3, Colour, V3, v3_add, v3_scale, v3_bounded, dot_val, norm2_raw, len_sqred_val, unit_val,
    reflect_val, refract_cos, refract_val, lemma_len_sqred_bounded, lemma_dot_scaled_bounded,
    lemma_scale_scaled_bounded, lemma_norm2_zero,
};
use crate::ray::Ray;
use crate::hittable::{HitRecord, normal_in_range};
use crate::sphere::ray_wf;
use crate::rng::rand_below;

verus! {

/// The largest componentwise magnitude of a scattered ray's
/// direction.
pub const SCATTER_LIMIT: i64 = 200 * 65536;

/// A diffuse surface: scatters into a random direction around the
/// surface normal, attenuated by its albedo.
#[derive(Clone, Copy, PartialEq, Eq, Structural, Debug)]
pub struct Lambertian {
    pub albedo: Colour,
}

/// A metallic surface: reflects the incoming ray, roughened by `fuzz`,
/// attenuated by its albedo.
#[derive(Clone, Copy, PartialEq, Eq, Structural, Debug)]
pub struct Metal {
    pub albedo: Colour,
    pub fuzz: Fx,
}

/// A dielectric (glass-like) surface: refracts or reflects according
/// to Snell's law and the Schlick reflectance; never absorbs.
#[derive(Clone, Copy, PartialEq, Eq, Structural, Debug)]
pub struct Dielectric {
    pub ir: Fx,
}

/// The closed set of material behaviours.
#[derive(Clone, Copy, PartialEq, Eq, Structural, Debug)]
pub enum Material {
    Lambertian(Lambertian),
    Metal(Metal),
    Dielectric(Dielectric),
}

/// A colour whose channels lie in `[0, 1]`.
pub open spec fn colour_in_unit(c: V3) -> bool {
    0 <= c.x <= SCALE && 0 <= c.y <= SCALE && 0 <= c.z <= SCALE
}

/// Well-formedness: albedos are colours in `[0, 1]` and fuzz lies in
/// `[0, 1]`.  A refractive index must be positive; the `[1/2, 4]`
/// window (which covers every physical medium) is a fixed-point range
/// budget: it keeps `1/ir` and the Schlick arithmetic inside their
/// proved bounds.
pub open spec fn material_wf(m: Material) -> bool {
    match m {
        Material::Lambertian(l) => colour_in_unit(l.albedo@),
        Material::Metal(mt) => colour_in_unit(mt.albedo@) && 0 <= mt.fuzz.m <= SCALE,
        Material::Dielectric(d) => 32768 <= d.ir.m <= 4 * SCALE,
    }
}

/// The refraction ratio a dielectric uses: `1/ir` when the ray
/// arrives from outside the medium, `ir` when it leaves it.
pub open spec fn ratio_of(d: Dielectric, front_face: bool) -> int {
    if front_face {
        div_val(SCALE as int, d.ir.m as int)
    } else {
        d.ir.m as int
    }
}

/// The sine of the grazing angle, from its cosine:
/// `sqrt(1 - cos^2)` at mantissa scale (a cosine beyond unit — which
/// only rounding can produce — counts as a zero sine argument).
pub open spec fn sin_theta_of(cos: int) -> int {
    let c2 = tdiv(cos * cos, SCALE as int);
    let arg = if c2 > SCALE {
        0int
    } else {
        SCALE - c2
    };
    sqrt_floor(arg * SCALE)
}

/// Whether Snell's law admits no refraction: `ratio * sin_theta > 1`.
pub open spec fn cannot_refract_of(unit_dir: V3, n: V3, ratio: int) -> bool {
    tdiv(ratio * sin_theta_of(refract_cos(unit_dir, n)), SCALE as int) > SCALE
}

/// The Schlick approximation of a dielectric's reflectance:
/// `r0 + (1 - r0) * (1 - cos)^5` with `r0 = ((1-ratio)/(1+ratio))^2`,
/// evaluated in fixed point (the fifth power by square, square,
/// multiply).
pub open spec fn reflectance_val(cosine: int, ref_ratio: int) -> int {
    let q0 = tdiv((SCALE - ref_ratio) * SCALE, SCALE + ref_ratio);
    let r0 = tdiv(q0 * q0, SCALE as int);
    let omc = SCALE - cosine;
    let p2 = tdiv(omc * omc, SCALE as int);
    let p4 = tdiv(p2 * p2, SCALE as int);
    let p5 = tdiv(p4 * omc, SCALE as int);
    r0 + tdiv((SCALE - r0) * p5, SCALE as int)
}

/// The Schlick reflectance, evaluated on mantissas.
fn reflectance(cosine: Fx, ref_idx: Fx) -> (r: Fx)
    requires
        0 < ref_idx.m <= 4 * SCALE,
        -(12 * SCALE) <= cosine.m <= SCALE,
    ensures
        r.m == reflectance_val(cosine.m as int, ref_idx.m as int),
{
    let num: i128 = ((SCALE - ref_idx.m) as i128) * (SCALE as i128);
    let den: i128 = (SCALE + ref_idx.m) as i128;
    proof {
        assert(-((3 * SCALE) * den) <= num <= (3 * SCALE) * den) by (nonlinear_arith)
            requires
                num == (SCALE - ref_idx.m) * SCALE,
                den == SCALE + ref_idx.m,
                0 < ref_idx.m <= 4 * SCALE,
                SCALE == 65536,
        ;
        lemma_tdiv_quotient_bound(num as int, den as int, 3 * SCALE as int);
    }
    let q0: i128 = num / den;
    proof {
        lemma_mul_abs_bound(q0 as int, q0 as int, 3 * SCALE as int, 3 * SCALE as int);
        lemma_square_nonneg(q0 as int);
        assert((3 * SCALE) * (3 * SCALE) == (9 * SCALE) * SCALE) by (nonlinear_arith)
            requires
                SCALE == 65536,
        ;
        lemma_tdiv_quotient_bound(q0 as int * q0 as int, SCALE as int, 9 * SCALE as int);
        vstd::arithmetic::div_mod::lemma_div_pos_is_pos(q0 as int * q0 as int, SCALE as int);
    }
    let r0: i128 = (q0 * q0) / (SCALE as i128);
    let omc: i128 = (SCALE as i128) - (cosine.m as i128);
    proof {
        lemma_mul_abs_bound(omc as int, omc as int, 13 * SCALE as int, 13 * SCALE as int);
        lemma_square_nonneg(omc as int);
        assert((13 * SCALE) * (13 * SCALE) == (169 * SCALE) * SCALE) by (nonlinear_arith)
            requires
                SCALE == 65536,
        ;
        lemma_tdiv_quotient_bound(omc as int * omc as int, SCALE as int, 169 * SCALE as int);
        vstd::arithmetic::div_mod::lemma_div_pos_is_pos(omc as int * omc as int, SCALE as int);
    }
    let p2: i128 = (omc * omc) / (SCALE as i128);
    proof {
        lemma_mul_abs_bound(p2 as int, p2 as int, 169 * SCALE as int, 169 * SCALE as int);
        lemma_square_nonneg(p2 as int);
        assert((169 * SCALE) * (169 * SCALE) == (28561 * SCALE) * SCALE) by (nonlinear_arith)
            requires
                SCALE == 65536,
        ;
        lemma_tdiv_quotient_bound(p2 as int * p2 as int, SCALE as int, 28561 * SCALE as int);
        vstd::arithmetic::div_mod::lemma_div_pos_is_pos(p2 as int * p2 as int, SCALE as int);
    }
    let p4: i128 = (p2 * p2) / (SCALE as i128);
    proof {
        lemma_mul_abs_bound(p4 as int, omc as int, 28561 * SCALE as int, 13 * SCALE as int);
        assert((28561 * SCALE) * (13 * SCALE) == (371293 * SCALE) * SCALE) by (nonlinear_arith)
            requires
                SCALE == 65536,
        ;
        lemma_tdiv_quotient_bound(p4 as int * omc as int, SCALE as int, 371293 * SCALE as int);
    }
    let p5: i128 = (p4 * omc) / (SCALE as i128);
    proof {
        lemma_mul_abs_bound(
            (SCALE as int) - r0 as int,
            p5 as int,
            9 * SCALE as int,
            371293 * SCALE as int,
        );
        assert((9 * SCALE) * (371293 * SCALE) == (3341637 * SCALE) * SCALE) by (nonlinear_arith)
            requires
                SCALE == 65536,
        ;
        lemma_tdiv_quotient_bound(
            ((SCALE as int) - r0 as int) * p5 as int,
            SCALE as int,
            3341637 * SCALE as int,
        );
    }
    let res: i128 = r0 + (((SCALE as i128) - r0) * p5) / (SCALE as i128);
    Fx { m: res as i64 }
}

impl Lambertian {
    /// Diffuse scattering: a ray from the hit point along the normal
    /// plus a random unit vector (falling back to the normal itself
    /// when that sum degenerates), attenuated by the albedo; never
    /// absorbs.
    pub fn scatter(&self, _ray_in: &Ray, hit_record: &HitRecord, rng: &mut rand::rngs::StdRng)
        -> (res: Option<(Ray, Colour)>)
        requires
            normal_in_range(hit_record.normal@),
        ensures
            res is Some,
            match res {
                Some(rc) => {
                    &&& rc.1 == self.albedo
                    &&& rc.0.orig == hit_record.p
                    &&& norm2_raw(rc.0.dir@) >= SCALE
                    &&& v3_bounded(rc.0.dir@, SCATTER_LIMIT as int)
                    &&& exists|s: V3|
                        {
                            &&& v3_bounded(s, SCALE as int)
                            &&& norm2_raw(s) >= SCALE
                            &&& rc.0.dir@ == (if len_sqred_val(
                                #[trigger] v3_add(hit_record.normal@, s),
                            ) > 0 {
                                v3_add(hit_record.normal@, s)
                            } else {
                                hit_record.normal@
                            })
                        }
                },
                None => false,
            },
    {
        let ruv = Vec3::random_unit_vector(rng);
        let scatter_direction = hit_record.normal + ruv;
        proof {
            lemma_len_sqred_bounded(scatter_direction@, 5 * SCALE as int);
        }
        let ls = scatter_direction.len_sqred();
        let dir = if ls.m > 0 {
            proof {
                lemma_tdiv_fundamental(norm2_raw(scatter_direction@), SCALE as int);
                vstd::arithmetic::mul::lemma_mul_inequality(
                    1,
                    len_sqred_val(scatter_direction@),
                    SCALE as int,
                );
            }
            scatter_direction
        } else {
            hit_record.normal
        };
        proof {
            assert(scatter_direction@ == v3_add(hit_record.normal@, ruv@));
        }
        Some((Ray::new(hit_record.p, dir), self.albedo))
    }
}

impl Metal {
    /// Metallic scattering: mirror reflection of the unit incoming
    /// direction, perturbed by `fuzz` times a random point in the
    /// unit sphere; absorbed (`None`) when the perturbed direction
    /// does not leave the surface.  With zero fuzz the outcome is the
    /// exact reflection.
    pub fn scatter(&self, ray_in: &Ray, hit_record: &HitRecord, rng: &mut rand::rngs::StdRng)
        -> (res: Option<(Ray, Colour)>)
        requires
            0 <= self.fuzz.m <= SCALE,
            ray_wf(*ray_in),
            normal_in_range(hit_record.normal@),
        ensures
            match res {
                Some(rc) => {
                    &&& rc.1 == self.albedo
                    &&& rc.0.orig == hit_record.p
                    &&& dot_val(rc.0.dir@, hit_record.normal@) > 0
                    &&& norm2_raw(rc.0.dir@) > 0
                    &&& v3_bounded(rc.0.dir@, SCATTER_LIMIT as int)
                },
                None => true,
            },
            exists|s: V3|
                {
                    &&& norm2_raw(s) < SCALE * SCALE
                    &&& v3_bounded(s, SCALE as int)
                    &&& match res {
                        Some(rc) => rc.0.dir@ == v3_add(
                            reflect_val(unit_val(ray_in.dir@), hit_record.normal@),
                            #[trigger] v3_scale(s, self.fuzz.m as int),
                        ),
                        None => dot_val(
                            v3_add(
                                reflect_val(unit_val(ray_in.dir@), hit_record.normal@),
                                v3_scale(s, self.fuzz.m as int),
                            ),
                            hit_record.normal@,
                        ) <= 0,
                    }
                },
            self.fuzz.m == 0 ==> {
                let refl = reflect_val(unit_val(ray_in.dir@), hit_record.normal@);
                match res {
                    Some(rc) => rc.0.dir@ == refl && dot_val(refl, hit_record.normal@) > 0,
                    None => dot_val(refl, hit_record.normal@) <= 0,
                }
            },
    {
        let u = ray_in.dir.unit_vector();
        proof {
            lemma_dot_scaled_bounded(u@, hit_record.normal@, 1, 4 * SCALE as int);
            lemma_scale_scaled_bounded(
                hit_record.normal@,
                2 * dot_val(u@, hit_record.normal@),
                4,
                24 * SCALE as int,
            );
        }
        let reflected = u.reflect(hit_record.normal);
        let rs = Vec3::random_in_unit_sphere(rng);
        proof {
            lemma_scale_scaled_bounded(rs@, self.fuzz.m as int, 1, SCALE as int);
        }
        let fuzzed = self.fuzz * rs;
        let dirv = reflected + fuzzed;
        proof {
            lemma_dot_scaled_bounded(dirv@, hit_record.normal@, 98, 4 * SCALE as int);
            if self.fuzz.m == 0 {
                vstd::arithmetic::mul::lemma_mul_by_zero_is_zero(rs@.x);
                vstd::arithmetic::mul::lemma_mul_by_zero_is_zero(rs@.y);
                vstd::arithmetic::mul::lemma_mul_by_zero_is_zero(rs@.z);
                vstd::arithmetic::div_mod::lemma_div_of0(SCALE as int);
            }
        }
        proof {
            assert(dirv@ == v3_add(
                reflect_val(unit_val(ray_in.dir@), hit_record.normal@),
                v3_scale(rs@, self.fuzz.m as int),
            ));
        }
        let d = dirv.dot(hit_record.normal);
        if d.m > 0 {
            proof {
                lemma_square_nonneg(dirv@.x);
                lemma_square_nonneg(dirv@.y);
                lemma_square_nonneg(dirv@.z);
                if norm2_raw(dirv@) == 0 {
                    lemma_norm2_zero(dirv@);
                    assert(dirv@.x * hit_record.normal@.x == 0) by (nonlinear_arith)
                        requires
                            dirv@.x == 0,
                    ;
                    assert(dirv@.y * hit_record.normal@.y == 0) by (nonlinear_arith)
                        requires
                            dirv@.y == 0,
                    ;
                    assert(dirv@.z * hit_record.normal@.z == 0) by (nonlinear_arith)
                        requires
                            dirv@.z == 0,
                    ;
                    vstd::arithmetic::div_mod::lemma_div_of0(SCALE as int);
                    assert(dot_val(dirv@, hit_record.normal@) == 0);
                    assert(false);
                }
            }
            Some((Ray::new(hit_record.p, dirv), self.albedo))
        } else {
            None
        }
    }
}

impl Dielectric {
    /// Dielectric scattering: refracts by Snell's law unless total
    /// internal reflection or a Schlick-weighted random draw forces a
    /// reflection; the attenuation is pure white and the ray is never
    /// absorbed.
    pub fn scatter(&self, ray_in: &Ray, hit_record: &HitRecord, rng: &mut rand::rngs::StdRng)
        -> (res: Option<(Ray, Colour)>)
        requires
            32768 <= self.ir.m <= 4 * SCALE,
            ray_wf(*ray_in),
            normal_in_range(hit_record.normal@),
        ensures
            res is Some,
            match res {
                Some(rc) => {
                    &&& rc.1@ == (V3 { x: SCALE as int, y: SCALE as int, z: SCALE as int })
                    &&& rc.0.orig == hit_record.p
                    &&& v3_bounded(rc.0.dir@, SCATTER_LIMIT as int)
                    &&& (rc.0.dir@ == reflect_val(unit_val(ray_in.dir@), hit_record.normal@)
                        || rc.0.dir@ == refract_val(
                        unit_val(ray_in.dir@),
                        hit_record.normal@,
                        ratio_of(*self, hit_record.front_face),
                    ))
                    &&& cannot_refract_of(
                        unit_val(ray_in.dir@),
                        hit_record.normal@,
                        ratio_of(*self, hit_record.front_face),
                    ) ==> rc.0.dir@ == reflect_val(unit_val(ray_in.dir@), hit_record.normal@)
                },
                None => false,
            },
    {
        let attenuation = Vec3 { x: Fx { m: SCALE }, y: Fx { m: SCALE }, z: Fx { m: SCALE } };
        let refraction_ratio: Fx = if hit_record.front_face {
            proof {
                assert(-((2 * SCALE) * self.ir.m) <= SCALE * SCALE <= (2 * SCALE) * self.ir.m)
                    by (nonlinear_arith)
                    requires
                        32768 <= self.ir.m,
                        SCALE == 65536,
                ;
                lemma_tdiv_quotient_bound(SCALE as int * SCALE as int, self.ir.m as int, 2 * SCALE as int);
                vstd::arithmetic::div_mod::lemma_div_by_self(self.ir.m as int);
                vstd::arithmetic::div_mod::lemma_div_is_ordered(
                    self.ir.m as int,
                    SCALE as int * SCALE as int,
                    self.ir.m as int,
                );
            }
            Fx { m: SCALE } / self.ir
        } else {
            self.ir
        };
        let unit_direction = crate::vec3::unit_vector(ray_in.dir);
        proof {
            lemma_dot_scaled_bounded(unit_direction@, hit_record.normal@, 1, 4 * SCALE as int);
        }
        let d = unit_direction.dot(hit_record.normal);
        let cos: i64 = if -d.m < SCALE {
            -d.m
        } else {
            SCALE
        };
        proof {
            lemma_mul_abs_bound(cos as int, cos as int, 12 * SCALE as int, 12 * SCALE as int);
            lemma_square_nonneg(cos as int);
            assert((12 * SCALE) * (12 * SCALE) == (144 * SCALE) * SCALE) by (nonlinear_arith)
                requires
                    SCALE == 65536,
            ;
            lemma_tdiv_quotient_bound(cos as int * cos as int, SCALE as int, 144 * SCALE as int);
            vstd::arithmetic::div_mod::lemma_div_pos_is_pos(cos as int * cos as int, SCALE as int);
        }
        let c2: i64 = (((cos as i128) * (cos as i128)) / (SCALE as i128)) as i64;
        let arg: i64 = if c2 > SCALE {
            0
        } else {
            SCALE - c2
        };
        let sinf = Fx { m: arg }.sqrt();
        proof {
            assert(sinf.m <= 2 * SCALE) by (nonlinear_arith)
                requires
                    (sinf.m as int) * (sinf.m as int) <= (arg as int) * (SCALE as int),
                    0 <= arg <= SCALE,
                    sinf.m >= 0,
                    SCALE == 65536,
            ;
            lemma_mul_abs_bound(
                refraction_ratio.m as int,
                sinf.m as int,
                4 * SCALE as int,
                2 * SCALE as int,
            );
            assert((4 * SCALE) * (2 * SCALE) == (8 * SCALE) * SCALE) by (nonlinear_arith)
                requires
                    SCALE == 65536,
            ;
            lemma_tdiv_quotient_bound(
                refraction_ratio.m as int * sinf.m as int,
                SCALE as int,
                8 * SCALE as int,
            );
        }
        let rs: i64 = (((refraction_ratio.m as i128) * (sinf.m as i128)) / (SCALE as i128)) as i64;
        let cannot_refract = rs > SCALE;
        let draw = rand_below(rng, SCALE as u64) as i64;
        let schlick = reflectance(Fx { m: cos }, refraction_ratio);
        let dirv: Vec3;
        if cannot_refract || schlick.m > draw {
            proof {
                lemma_scale_scaled_bounded(
                    hit_record.normal@,
                    2 * dot_val(unit_direction@, hit_record.normal@),
                    4,
                    24 * SCALE as int,
                );
            }
            dirv = unit_direction.reflect(hit_record.normal);
        } else {
            match unit_direction.refract(hit_record.normal, refraction_ratio) {
                Some(v) => {
                    dirv = v;
                },
                None => {
                    proof {
                        lemma_scale_scaled_bounded(
                            hit_record.normal@,
                            2 * dot_val(unit_direction@, hit_record.normal@),
                            4,
                            24 * SCALE as int,
                        );
                    }
                    dirv = unit_direction.reflect(hit_record.normal);
                },
            }
        }
        Some((Ray::new(hit_record.p, dirv), attenuation))
    }
}

impl Material {
    /// Dispatches to the variant's scattering behaviour.
    pub fn scatter(&self, ray_in: &Ray, hit_record: &HitRecord, rng: &mut rand::rngs::StdRng)
        -> (res: Option<(Ray, Colour)>)
        requires
            material_wf(*self),
            ray_wf(*ray_in),
            normal_in_range(hit_record.normal@),
        ensures
            match res {
                Some(rc) => {
                    &&& rc.0.orig == hit_record.p
                    &&& v3_bounded(rc.0.dir@, SCATTER_LIMIT as int)
                    &&& colour_in_unit(rc.1@)
                },
                None => true,
            },
            !(self is Metal) ==> res is Some,
    {
        match self {
            Material::Lambertian(l) => l.scatter(ray_in, hit_record, rng),
            Material::Metal(m) => m.scatter(ray_in, hit_record, rng),
            Material::Dielectric(d) => d.scatter(ray_in, hit_record, rng),
        }
    }
}

} // verus!
