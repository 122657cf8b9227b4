//! Three-component fixed-point vectors, used for points, directions and
//! colours.
//!
//! The mathematical model of a vector is `V3`, a triple of mantissa
//! integers; every operation's contract states the exact mantissa
//! arithmetic, including its truncations.

use vstd::prelude::*;
use crate::fx::{
    Fx, SCALE, tdiv, fits, div_val, is_sqrt, sqrt_floor, isqrt,
    lemma_mul_abs_bound, lemma_square_nonneg, lemma_abs_le_of_square,
    lemma_tdiv_bound, lemma_tdiv_scale_bound, lemma_tdiv_fundamental,
    lemma_sqrt_floor, lemma_sqrt_unique,
};
use crate::rng::rand_below;

verus! {

/// The model of a vector: the three mantissas as unbounded integers.
pub ghost struct V3 {
    pub x: int,
    pub y: int,
    pub z: int,
}

/// Componentwise sum.
pub open spec fn v3_add(a: V3, b: V3) -> V3 {
    V3 { x: a.x + b.x, y: a.y + b.y, z: a.z + b.z }
}

/// Componentwise difference.
pub open spec fn v3_sub(a: V3, b: V3) -> V3 {
    V3 { x: a.x - b.x, y: a.y - b.y, z: a.z - b.z }
}

/// Componentwise negation.
pub open spec fn v3_neg(a: V3) -> V3 {
    V3 { x: -a.x, y: -a.y, z: -a.z }
}

/// Scaling by a fixed-point mantissa: each product is rescaled by
/// `SCALE` with truncation toward zero.
pub open spec fn v3_scale(a: V3, s: int) -> V3 {
    V3 {
        x: tdiv(a.x * s, SCALE as int),
        y: tdiv(a.y * s, SCALE as int),
        z: tdiv(a.z * s, SCALE as int),
    }
}

/// Componentwise product (colour tinting), each rescaled by `SCALE`.
pub open spec fn v3_mul(a: V3, b: V3) -> V3 {
    V3 {
        x: tdiv(a.x * b.x, SCALE as int),
        y: tdiv(a.y * b.y, SCALE as int),
        z: tdiv(a.z * b.z, SCALE as int),
    }
}

/// Division by a fixed-point mantissa, truncating toward zero.
pub open spec fn v3_div(a: V3, s: int) -> V3 {
    V3 {
        x: crate::fx::div_val(a.x, s),
        y: crate::fx::div_val(a.y, s),
        z: crate::fx::div_val(a.z, s),
    }
}

/// The dot product: the exact sum of products, rescaled once.
pub open spec fn dot_val(a: V3, b: V3) -> int {
    tdiv(a.x * b.x + a.y * b.y + a.z * b.z, SCALE as int)
}

/// The cross product, each component rescaled once.
pub open spec fn cross_val(a: V3, b: V3) -> V3 {
    V3 {
        x: tdiv(a.y * b.z - a.z * b.y, SCALE as int),
        y: tdiv(a.z * b.x - a.x * b.z, SCALE as int),
        z: tdiv(a.x * b.y - a.y * b.x, SCALE as int),
    }
}

/// The squared length at raw scale: the exact sum of squared
/// mantissas, **not** rescaled (it stands for `SCALE * SCALE` times
/// the real squared length).
pub open spec fn norm2_raw(a: V3) -> int {
    a.x * a.x + a.y * a.y + a.z * a.z
}

/// Every component fits in an `i64` mantissa.
pub open spec fn v3_fits(a: V3) -> bool {
    fits(a.x) && fits(a.y) && fits(a.z)
}

/// Every component's magnitude is at most `b`.
pub open spec fn v3_bounded(a: V3, b: int) -> bool {
    -b <= a.x <= b && -b <= a.y <= b && -b <= a.z <= b
}

/// The squared-length mantissa: the raw sum of squares, rescaled once.
pub open spec fn len_sqred_val(a: V3) -> int {
    tdiv(norm2_raw(a), SCALE as int)
}

/// The length mantissa: the integer square root of the raw sum of
/// squares (scale cancels: the sum is at `SCALE^2`, its root at `SCALE`).
pub open spec fn len_val(a: V3) -> int {
    sqrt_floor(norm2_raw(a))
}

/// The unit vector: each component divided by the length.
pub open spec fn unit_val(a: V3) -> V3 {
    v3_div(a, len_val(a))
}

/// A bound under which all the vector operations below stay inside
/// their intermediate `i128` arithmetic.
pub const VEC_LIMIT: i64 = 0x4000_0000_0000_0000;

/// A point, direction or colour: three fixed-point components.
#[derive(Clone, Copy, PartialEq, Eq, Structural, Debug)]
pub struct Vec3 {
    pub x: Fx,
    pub y: Fx,
    pub z: Fx,
}

/// A point in space (same representation as `Vec3`).
pub type Point3 = Vec3;

/// A colour (same representation as `Vec3`).
pub type Colour = Vec3;

impl View for Vec3 {
    type V = V3;

    open spec fn view(&self) -> V3 {
        V3 { x: self.x.m as int, y: self.y.m as int, z: self.z.m as int }
    }
}

impl Vec3 {
    /// The zero vector.
    pub fn new() -> (r: Vec3)
        ensures
            r@ == (V3 { x: 0int, y: 0int, z: 0int }),
    {
        Vec3 { x: Fx { m: 0 }, y: Fx { m: 0 }, z: Fx { m: 0 } }
    }

    /// The vector with the given whole-number components.
    pub fn from_ints(x: i64, y: i64, z: i64) -> (r: Vec3)
        requires
            -0x4000_0000_0000 <= x <= 0x4000_0000_0000,
            -0x4000_0000_0000 <= y <= 0x4000_0000_0000,
            -0x4000_0000_0000 <= z <= 0x4000_0000_0000,
        ensures
            r@ == (V3 { x: x * SCALE, y: y * SCALE, z: z * SCALE }),
    {
        Vec3 { x: Fx::from_int(x), y: Fx::from_int(y), z: Fx::from_int(z) }
    }

    /// The vector with the given raw mantissas.
    pub fn from_mantissas(x: i64, y: i64, z: i64) -> (r: Vec3)
        ensures
            r@ == (V3 { x: x as int, y: y as int, z: z as int }),
    {
        Vec3 { x: Fx { m: x }, y: Fx { m: y }, z: Fx { m: z } }
    }

    /// The dot product: the exact sum of component products, rescaled
    /// once with truncation.
    pub fn dot(self, other: Vec3) -> (r: Fx)
        requires
            v3_bounded(self@, VEC_LIMIT as int),
            v3_bounded(other@, VEC_LIMIT as int),
            fits(dot_val(self@, other@)),
        ensures
            r.m == dot_val(self@, other@),
    {
        proof {
            lemma_mul_abs_bound(self@.x, other@.x, VEC_LIMIT as int, VEC_LIMIT as int);
            lemma_mul_abs_bound(self@.y, other@.y, VEC_LIMIT as int, VEC_LIMIT as int);
            lemma_mul_abs_bound(self@.z, other@.z, VEC_LIMIT as int, VEC_LIMIT as int);
        }
        let p: i128 = (self.x.m as i128) * (other.x.m as i128)
            + (self.y.m as i128) * (other.y.m as i128)
            + (self.z.m as i128) * (other.z.m as i128);
        proof {
            lemma_tdiv_bound(p as int, SCALE as int);
        }
        let q: i128 = p / (SCALE as i128);
        Fx { m: q as i64 }
    }

    /// The cross product, each component rescaled once with truncation.
    pub fn cross(self, other: Vec3) -> (r: Vec3)
        requires
            v3_bounded(self@, VEC_LIMIT as int),
            v3_bounded(other@, VEC_LIMIT as int),
            v3_fits(cross_val(self@, other@)),
        ensures
            r@ == cross_val(self@, other@),
    {
        proof {
            lemma_mul_abs_bound(self@.y, other@.z, VEC_LIMIT as int, VEC_LIMIT as int);
            lemma_mul_abs_bound(self@.z, other@.y, VEC_LIMIT as int, VEC_LIMIT as int);
            lemma_mul_abs_bound(self@.z, other@.x, VEC_LIMIT as int, VEC_LIMIT as int);
            lemma_mul_abs_bound(self@.x, other@.z, VEC_LIMIT as int, VEC_LIMIT as int);
            lemma_mul_abs_bound(self@.x, other@.y, VEC_LIMIT as int, VEC_LIMIT as int);
            lemma_mul_abs_bound(self@.y, other@.x, VEC_LIMIT as int, VEC_LIMIT as int);
        }
        let nx: i128 = (self.y.m as i128) * (other.z.m as i128)
            - (self.z.m as i128) * (other.y.m as i128);
        let ny: i128 = (self.z.m as i128) * (other.x.m as i128)
            - (self.x.m as i128) * (other.z.m as i128);
        let nz: i128 = (self.x.m as i128) * (other.y.m as i128)
            - (self.y.m as i128) * (other.x.m as i128);
        proof {
            lemma_tdiv_bound(nx as int, SCALE as int);
            lemma_tdiv_bound(ny as int, SCALE as int);
            lemma_tdiv_bound(nz as int, SCALE as int);
        }
        let cx: i128 = nx / (SCALE as i128);
        let cy: i128 = ny / (SCALE as i128);
        let cz: i128 = nz / (SCALE as i128);
        Vec3 { x: Fx { m: cx as i64 }, y: Fx { m: cy as i64 }, z: Fx { m: cz as i64 } }
    }

    /// The squared length, rescaled once with truncation; never negative.
    pub fn len_sqred(self) -> (r: Fx)
        requires
            v3_bounded(self@, VEC_LIMIT as int),
            fits(len_sqred_val(self@)),
        ensures
            r.m == len_sqred_val(self@),
            r.m >= 0,
    {
        proof {
            lemma_mul_abs_bound(self@.x, self@.x, VEC_LIMIT as int, VEC_LIMIT as int);
            lemma_mul_abs_bound(self@.y, self@.y, VEC_LIMIT as int, VEC_LIMIT as int);
            lemma_mul_abs_bound(self@.z, self@.z, VEC_LIMIT as int, VEC_LIMIT as int);
            lemma_square_nonneg(self@.x);
            lemma_square_nonneg(self@.y);
            lemma_square_nonneg(self@.z);
        }
        let p: i128 = (self.x.m as i128) * (self.x.m as i128)
            + (self.y.m as i128) * (self.y.m as i128)
            + (self.z.m as i128) * (self.z.m as i128);
        proof {
            lemma_tdiv_bound(p as int, SCALE as int);
        }
        let q: i128 = p / (SCALE as i128);
        Fx { m: q as i64 }
    }

    /// The length: the integer square root of the raw sum of squares
    /// (a single rounding, rather than a root of the already-rounded
    /// squared length).
    pub fn len(self) -> (r: Fx)
        requires
            v3_bounded(self@, VEC_LIMIT as int),
        ensures
            r.m == len_val(self@),
            is_sqrt(norm2_raw(self@), r.m as int),
            r.m >= 0,
    {
        proof {
            lemma_mul_abs_bound(self@.x, self@.x, VEC_LIMIT as int, VEC_LIMIT as int);
            lemma_mul_abs_bound(self@.y, self@.y, VEC_LIMIT as int, VEC_LIMIT as int);
            lemma_mul_abs_bound(self@.z, self@.z, VEC_LIMIT as int, VEC_LIMIT as int);
            lemma_square_nonneg(self@.x);
            lemma_square_nonneg(self@.y);
            lemma_square_nonneg(self@.z);
        }
        let p: i128 = (self.x.m as i128) * (self.x.m as i128)
            + (self.y.m as i128) * (self.y.m as i128)
            + (self.z.m as i128) * (self.z.m as i128);
        let root: u64 = isqrt(p as u128);
        proof {
            lemma_sqrt_floor(norm2_raw(self@));
            lemma_sqrt_unique(norm2_raw(self@), root as int, sqrt_floor(norm2_raw(self@)));
            assert(root < 0x8000_0000_0000_0000u64) by (nonlinear_arith)
                requires
                    (root as int) * (root as int) <= norm2_raw(self@),
                    norm2_raw(self@) < 0x8000_0000_0000_0000int * 0x8000_0000_0000_0000int,
            ;
        }
        Fx { m: root as i64 }
    }

    /// The vector scaled to unit length (up to the fixed-point
    /// rounding); the input must not be the zero vector.
    pub fn unit_vector(self) -> (r: Vec3)
        requires
            v3_bounded(self@, VEC_LIMIT as int),
            norm2_raw(self@) > 0,
        ensures
            r@ == unit_val(self@),
            v3_bounded(r@, SCALE as int),
    {
        let l = self.len();
        proof {
            lemma_square_nonneg(self@.x);
            lemma_square_nonneg(self@.y);
            lemma_square_nonneg(self@.z);
            assert(l.m >= 1) by (nonlinear_arith)
                requires
                    0 <= l.m,
                    norm2_raw(self@) < (l.m + 1) * (l.m + 1),
                    norm2_raw(self@) > 0,
            ;
            lemma_abs_le_of_square(self@.x, l.m as int);
            lemma_abs_le_of_square(self@.y, l.m as int);
            lemma_abs_le_of_square(self@.z, l.m as int);
            lemma_tdiv_scale_bound(self@.x, l.m as int, SCALE as int);
            lemma_tdiv_scale_bound(self@.y, l.m as int, SCALE as int);
            lemma_tdiv_scale_bound(self@.z, l.m as int, SCALE as int);
        }
        self / l
    }
}

impl std::ops::Add<Vec3> for Vec3 {
    type Output = Vec3;

    fn add(self, rhs: Vec3) -> (r: Vec3) {
        Vec3 { x: self.x + rhs.x, y: self.y + rhs.y, z: self.z + rhs.z }
    }
}

impl vstd::std_specs::ops::AddSpecImpl<Vec3> for Vec3 {
    open spec fn obeys_add_spec() -> bool {
        true
    }

    open spec fn add_req(self, rhs: Vec3) -> bool {
        v3_fits(v3_add(self@, rhs@))
    }

    open spec fn add_spec(self, rhs: Vec3) -> Vec3 {
        Vec3 {
            x: Fx { m: (self.x.m + rhs.x.m) as i64 },
            y: Fx { m: (self.y.m + rhs.y.m) as i64 },
            z: Fx { m: (self.z.m + rhs.z.m) as i64 },
        }
    }
}

impl std::ops::Sub<Vec3> for Vec3 {
    type Output = Vec3;

    fn sub(self, rhs: Vec3) -> (r: Vec3) {
        Vec3 { x: self.x - rhs.x, y: self.y - rhs.y, z: self.z - rhs.z }
    }
}

impl vstd::std_specs::ops::SubSpecImpl<Vec3> for Vec3 {
    open spec fn obeys_sub_spec() -> bool {
        true
    }

    open spec fn sub_req(self, rhs: Vec3) -> bool {
        v3_fits(v3_sub(self@, rhs@))
    }

    open spec fn sub_spec(self, rhs: Vec3) -> Vec3 {
        Vec3 {
            x: Fx { m: (self.x.m - rhs.x.m) as i64 },
            y: Fx { m: (self.y.m - rhs.y.m) as i64 },
            z: Fx { m: (self.z.m - rhs.z.m) as i64 },
        }
    }
}

impl std::ops::Neg for Vec3 {
    type Output = Vec3;

    fn neg(self) -> (r: Vec3) {
        Vec3 {
            x: Fx { m: -self.x.m },
            y: Fx { m: -self.y.m },
            z: Fx { m: -self.z.m },
        }
    }
}

impl vstd::std_specs::ops::NegSpecImpl for Vec3 {
    open spec fn obeys_neg_spec() -> bool {
        true
    }

    open spec fn neg_req(self) -> bool {
        self.x.m != i64::MIN && self.y.m != i64::MIN && self.z.m != i64::MIN
    }

    open spec fn neg_spec(self) -> Vec3 {
        Vec3 {
            x: Fx { m: (-self.x.m) as i64 },
            y: Fx { m: (-self.y.m) as i64 },
            z: Fx { m: (-self.z.m) as i64 },
        }
    }
}

impl std::ops::Mul<Vec3> for Vec3 {
    type Output = Vec3;

    fn mul(self, rhs: Vec3) -> (r: Vec3) {
        Vec3 { x: self.x * rhs.x, y: self.y * rhs.y, z: self.z * rhs.z }
    }
}

impl vstd::std_specs::ops::MulSpecImpl<Vec3> for Vec3 {
    open spec fn obeys_mul_spec() -> bool {
        true
    }

    open spec fn mul_req(self, rhs: Vec3) -> bool {
        v3_fits(v3_mul(self@, rhs@))
    }

    open spec fn mul_spec(self, rhs: Vec3) -> Vec3 {
        Vec3 {
            x: Fx { m: tdiv(self.x.m * rhs.x.m, SCALE as int) as i64 },
            y: Fx { m: tdiv(self.y.m * rhs.y.m, SCALE as int) as i64 },
            z: Fx { m: tdiv(self.z.m * rhs.z.m, SCALE as int) as i64 },
        }
    }
}

impl std::ops::Mul<Fx> for Vec3 {
    type Output = Vec3;

    fn mul(self, rhs: Fx) -> (r: Vec3) {
        Vec3 { x: self.x * rhs, y: self.y * rhs, z: self.z * rhs }
    }
}

impl vstd::std_specs::ops::MulSpecImpl<Fx> for Vec3 {
    open spec fn obeys_mul_spec() -> bool {
        true
    }

    open spec fn mul_req(self, rhs: Fx) -> bool {
        v3_fits(v3_scale(self@, rhs.m as int))
    }

    open spec fn mul_spec(self, rhs: Fx) -> Vec3 {
        Vec3 {
            x: Fx { m: tdiv(self.x.m * rhs.m, SCALE as int) as i64 },
            y: Fx { m: tdiv(self.y.m * rhs.m, SCALE as int) as i64 },
            z: Fx { m: tdiv(self.z.m * rhs.m, SCALE as int) as i64 },
        }
    }
}

impl std::ops::Mul<Vec3> for Fx {
    type Output = Vec3;

    fn mul(self, rhs: Vec3) -> (r: Vec3) {
        proof {
            vstd::arithmetic::mul::lemma_mul_is_commutative(self.m as int, rhs.x.m as int);
            vstd::arithmetic::mul::lemma_mul_is_commutative(self.m as int, rhs.y.m as int);
            vstd::arithmetic::mul::lemma_mul_is_commutative(self.m as int, rhs.z.m as int);
        }
        Vec3 { x: rhs.x * self, y: rhs.y * self, z: rhs.z * self }
    }
}

impl vstd::std_specs::ops::MulSpecImpl<Vec3> for Fx {
    open spec fn obeys_mul_spec() -> bool {
        true
    }

    open spec fn mul_req(self, rhs: Vec3) -> bool {
        v3_fits(v3_scale(rhs@, self.m as int))
    }

    open spec fn mul_spec(self, rhs: Vec3) -> Vec3 {
        Vec3 {
            x: Fx { m: tdiv(rhs.x.m * self.m, SCALE as int) as i64 },
            y: Fx { m: tdiv(rhs.y.m * self.m, SCALE as int) as i64 },
            z: Fx { m: tdiv(rhs.z.m * self.m, SCALE as int) as i64 },
        }
    }
}

impl std::ops::Div<Fx> for Vec3 {
    type Output = Vec3;

    fn div(self, rhs: Fx) -> (r: Vec3) {
        Vec3 { x: self.x / rhs, y: self.y / rhs, z: self.z / rhs }
    }
}

impl vstd::std_specs::ops::DivSpecImpl<Fx> for Vec3 {
    open spec fn obeys_div_spec() -> bool {
        true
    }

    open spec fn div_req(self, rhs: Fx) -> bool {
        rhs.m != 0 && v3_fits(v3_div(self@, rhs.m as int))
    }

    open spec fn div_spec(self, rhs: Fx) -> Vec3 {
        Vec3 {
            x: Fx { m: div_val(self.x.m as int, rhs.m as int) as i64 },
            y: Fx { m: div_val(self.y.m as int, rhs.m as int) as i64 },
            z: Fx { m: div_val(self.z.m as int, rhs.m as int) as i64 },
        }
    }
}

/// The reflection of `v` about the normal `n`:
/// `v - 2*dot(v,n)*n`, with the fixed-point rescaling of the dot
/// product and of the scaling.
pub open spec fn reflect_val(v: V3, n: V3) -> V3 {
    v3_sub(v, v3_scale(n, 2 * dot_val(v, n)))
}

/// The grazing cosine used by refraction: `min(dot(-uv, n), 1)`.
pub open spec fn refract_cos(uv: V3, n: V3) -> int {
    if -dot_val(uv, n) < SCALE {
        -dot_val(uv, n)
    } else {
        SCALE as int
    }
}

/// The component of the refracted ray perpendicular to the normal:
/// `ratio * (uv + cos_theta * n)`.
pub open spec fn refract_perp(uv: V3, n: V3, ratio: int) -> V3 {
    v3_scale(v3_add(uv, v3_scale(n, refract_cos(uv, n))), ratio)
}

/// The refracted direction: the perpendicular component plus
/// `-sqrt(1 - |perp|^2) * n`.
pub open spec fn refract_val(uv: V3, n: V3, ratio: int) -> V3 {
    let perp = refract_perp(uv, n, ratio);
    let k = SCALE - len_sqred_val(perp);
    v3_add(perp, v3_scale(n, -sqrt_floor(k * SCALE)))
}

impl Vec3 {
    /// The reflection of `self` about the normal `n`.
    pub fn reflect(self, n: Vec3) -> (r: Vec3)
        requires
            v3_bounded(self@, VEC_LIMIT as int),
            v3_bounded(n@, VEC_LIMIT as int),
            fits(dot_val(self@, n@)),
            fits(2 * dot_val(self@, n@)),
            v3_fits(v3_scale(n@, 2 * dot_val(self@, n@))),
            v3_fits(reflect_val(self@, n@)),
        ensures
            r@ == reflect_val(self@, n@),
    {
        let d = self.dot(n);
        let t = Fx { m: 2 * d.m };
        self - n * t
    }

    /// Snell's-law refraction of the near-unit direction `self` at a
    /// surface with normal `n`; `None` reports that the perpendicular
    /// component has grown past unit length (total internal
    /// reflection), which a caller answers with a reflection.
    pub fn refract(self, n: Vec3, etai_over_etat: Fx) -> (res: Option<Vec3>)
        requires
            v3_bounded(self@, SCALE as int),
            v3_bounded(n@, 4 * SCALE as int),
            0 <= etai_over_etat.m <= 4 * SCALE,
        ensures
            match res {
                Some(r) => {
                    &&& len_sqred_val(refract_perp(self@, n@, etai_over_etat.m as int)) <= SCALE
                    &&& r@ == refract_val(self@, n@, etai_over_etat.m as int)
                    &&& v3_bounded(r@, 200 * SCALE as int)
                },
                None => len_sqred_val(refract_perp(self@, n@, etai_over_etat.m as int)) > SCALE,
            },
    {
        proof {
            lemma_dot_scaled_bounded(self@, n@, 1, 4 * SCALE as int);
        }
        let d = self.dot(n);
        let cos: i64 = if -d.m < SCALE {
            -d.m
        } else {
            SCALE
        };
        proof {
            lemma_scale_scaled_bounded(n@, cos as int, 4, 12 * SCALE as int);
        }
        let cosf = Fx { m: cos };
        let sum = self + n * cosf;
        proof {
            lemma_scale_scaled_bounded(sum@, etai_over_etat.m as int, 49, 4 * SCALE as int);
        }
        let perp = sum * etai_over_etat;
        proof {
            lemma_len_sqred_bounded(perp@, 196 * SCALE as int);
        }
        let ls = perp.len_sqred();
        if ls.m > SCALE {
            return None;
        }
        let k = Fx { m: SCALE - ls.m };
        let s = k.sqrt();
        proof {
            assert(s.m <= SCALE) by (nonlinear_arith)
                requires
                    (s.m as int) * (s.m as int) <= (k.m as int) * (SCALE as int),
                    0 <= k.m <= SCALE,
                    s.m >= 0,
                    SCALE == 65536,
            ;
            lemma_scale_scaled_bounded(n@, -(s.m as int), 4, SCALE as int);
        }
        let coef = Fx { m: -s.m };
        Some(perp + n * coef)
    }
}

impl Colour {
    /// Maps an accumulated colour to one output pixel: divides by the
    /// sample count, applies gamma-2 correction (a square root),
    /// clamps each channel to `[0, 0.999]` and scales to 8 bits.
    pub fn write_colour(self, samples_per_pixel: u32) -> (rgb: (u8, u8, u8))
        requires
            samples_per_pixel >= 1,
            0 <= self@.x,
            0 <= self@.y,
            0 <= self@.z,
        ensures
            rgb.0 == channel_val(self@.x, samples_per_pixel as int),
            rgb.1 == channel_val(self@.y, samples_per_pixel as int),
            rgb.2 == channel_val(self@.z, samples_per_pixel as int),
    {
        let r = colour_channel(self.x, samples_per_pixel);
        let g = colour_channel(self.y, samples_per_pixel);
        let b = colour_channel(self.z, samples_per_pixel);
        (r, g, b)
    }
}

/// One channel of `write_colour`.
fn colour_channel(sum: Fx, n: u32) -> (c: u8)
    requires
        n >= 1,
        sum.m >= 0,
    ensures
        c == channel_val(sum.m as int, n as int),
{
    proof {
        lemma_tdiv_bound(sum.m as int, n as int);
    }
    let avg: i64 = sum.m / (n as i64);
    let g = Fx { m: avg }.sqrt();
    let c0: i64 = clamp(g.m, 0, 65470);
    proof {
        vstd::arithmetic::div_mod::lemma_div_is_ordered(255999 * c0, 255999int * 65470int, 65536000int);
        vstd::arithmetic::div_mod::lemma_div_pos_is_pos(255999 * c0, 65536000);
    }
    let q: i64 = (255999 * c0) / 65536000;
    q as u8
}

/// Clamps a mantissa into `[min, max]`.
fn clamp(x: i64, min: i64, max: i64) -> (r: i64)
    ensures
        r == clamp_val(x as int, min as int, max as int),
{
    if x < min {
        return min;
    }
    if x > max {
        return max;
    }
    x
}

/// The input scaled to unit length; the free-function form of
/// `Vec3::unit_vector`.
pub fn unit_vector(v: Vec3) -> (r: Vec3)
    requires
        v3_bounded(v@, VEC_LIMIT as int),
        norm2_raw(v@) > 0,
    ensures
        r@ == unit_val(v@),
        v3_bounded(r@, SCALE as int),
{
    v.unit_vector()
}

/// One component of a normalization: dividing the scaled component by
/// the length keeps its square within `3 * SCALE * l^2` of the exact
/// ratio's square, and within the unit range.
proof fn lemma_unit_comp(x: int, l: int)
    requires
        1 <= l,
        -l <= x <= l,
    ensures
        tdiv(x * 65536, l) * tdiv(x * 65536, l) * (l * l) <= (x * 65536) * (x * 65536),
        tdiv(x * 65536, l) * tdiv(x * 65536, l) * (l * l) >= (x * 65536) * (x * 65536) - 3 * 65536
            * (l * l),
        -65536 <= tdiv(x * 65536, l) <= 65536,
{
    lemma_tdiv_fundamental(x * 65536, l);
    lemma_tdiv_scale_bound(x, l, 65536);
    let q = tdiv(x * 65536, l);
    if x * 65536 >= 0 {
        crate::fx::lemma_tdiv_bound(x * 65536, l);
        assert(q * q * (l * l) <= (x * 65536) * (x * 65536) && q * q * (l * l) >= (x * 65536) * (x
            * 65536) - 3 * 65536 * (l * l)) by (nonlinear_arith)
            requires
                l >= 1,
                0 <= q <= 65536,
                q * l <= x * 65536,
                x * 65536 < q * l + l,
        ;
    } else {
        crate::fx::lemma_tdiv_bound(x * 65536, l);
        assert(q * q * (l * l) <= (x * 65536) * (x * 65536) && q * q * (l * l) >= (x * 65536) * (x
            * 65536) - 3 * 65536 * (l * l)) by (nonlinear_arith)
            requires
                l >= 1,
                -65536 <= q <= 0,
                q * l - l < x * 65536,
                x * 65536 <= q * l,
        ;
    }
}

/// The fixed-point counterpart of `|unit(a)| = 1`: for any vector at
/// least half a unit long, the length of its unit vector lies within
/// a few mantissa steps of one (whose mantissa is 65536).
pub proof fn lemma_unit_length(a: V3)
    requires
        norm2_raw(a) >= 32768 * 32768,
    ensures
        65531 <= len_val(unit_val(a)) <= 65537,
{
    let n = norm2_raw(a);
    lemma_sqrt_floor(n);
    let l = sqrt_floor(n);
    assert(l >= 32768) by (nonlinear_arith)
        requires
            0 <= l,
            n < (l + 1) * (l + 1),
            n >= 32768 * 32768,
    ;
    lemma_square_nonneg(a.x);
    lemma_square_nonneg(a.y);
    lemma_square_nonneg(a.z);
    lemma_abs_le_of_square(a.x, l);
    lemma_abs_le_of_square(a.y, l);
    lemma_abs_le_of_square(a.z, l);
    lemma_unit_comp(a.x, l);
    lemma_unit_comp(a.y, l);
    lemma_unit_comp(a.z, l);
    let qx = tdiv(a.x * 65536, l);
    let qy = tdiv(a.y * 65536, l);
    let qz = tdiv(a.z * 65536, l);
    let u = qx * qx + qy * qy + qz * qz;
    assert(u * (l * l) == qx * qx * (l * l) + qy * qy * (l * l) + qz * qz * (l * l))
        by (nonlinear_arith)
        requires
            u == qx * qx + qy * qy + qz * qz,
    ;
    assert((65536 * 65536) * n == (a.x * 65536) * (a.x * 65536) + (a.y * 65536) * (a.y * 65536) + (
    a.z * 65536) * (a.z * 65536)) by (nonlinear_arith)
        requires
            n == a.x * a.x + a.y * a.y + a.z * a.z,
    ;
    assert(u * (l * l) <= (65536 * 65536) * n);
    assert(u * (l * l) >= (65536 * 65536) * n - 9 * 65536 * (l * l)) by (nonlinear_arith)
        requires
            u == qx * qx + qy * qy + qz * qz,
            n == a.x * a.x + a.y * a.y + a.z * a.z,
            qx * qx * (l * l) >= (a.x * 65536) * (a.x * 65536) - 3 * 65536 * (l * l),
            qy * qy * (l * l) >= (a.y * 65536) * (a.y * 65536) - 3 * 65536 * (l * l),
            qz * qz * (l * l) >= (a.z * 65536) * (a.z * 65536) - 3 * 65536 * (l * l),
    ;
    assert((65536 * 65536) * n < (65536 * 65536) * ((l + 1) * (l + 1))) by (nonlinear_arith)
        requires
            n < (l + 1) * (l + 1),
    ;
    assert(65536 * (l + 1) <= 65538 * l) by (nonlinear_arith)
        requires
            l >= 32768,
    ;
    assert((65536 * (l + 1)) * (65536 * (l + 1)) <= (65538 * l) * (65538 * l))
        by (nonlinear_arith)
        requires
            0 <= 65536 * (l + 1) <= 65538 * l,
    ;
    assert((65536 * 65536) * ((l + 1) * (l + 1)) == (65536 * (l + 1)) * (65536 * (l + 1)))
        by (nonlinear_arith);
    assert((65538 * l) * (65538 * l) == (65538 * 65538) * (l * l)) by (nonlinear_arith);
    assert(u < 65538 * 65538) by (nonlinear_arith)
        requires
            l >= 1,
            u * (l * l) <= (65536 * 65536) * n,
            (65536 * 65536) * n < (65538 * 65538) * (l * l),
    ;
    assert(u > 65531 * 65531) by (nonlinear_arith)
        requires
            l >= 32768,
            u * (l * l) >= (65536 * 65536) * n - 9 * 65536 * (l * l),
            n >= l * l,
    ;
    assert(norm2_raw(unit_val(a)) == u);
    lemma_sqrt_floor(u);
    let rt = sqrt_floor(u);
    assert(65531 <= rt <= 65537) by (nonlinear_arith)
        requires
            0 <= rt,
            rt * rt <= u,
            u < (rt + 1) * (rt + 1),
            65531 * 65531 < u,
            u < 65538 * 65538,
    ;
}

/// The dot product does not depend on the order of its arguments.
pub proof fn lemma_dot_symmetric(a: V3, b: V3)
    ensures
        dot_val(a, b) == dot_val(b, a),
{
    vstd::arithmetic::mul::lemma_mul_is_commutative(a.x, b.x);
    vstd::arithmetic::mul::lemma_mul_is_commutative(a.y, b.y);
    vstd::arithmetic::mul::lemma_mul_is_commutative(a.z, b.z);
}

/// For a vector bounded by `b`, the raw squared length and the
/// squared-length mantissa are bounded too.
pub proof fn lemma_len_sqred_bounded(a: V3, b: int)
    requires
        v3_bounded(a, b),
        0 <= b,
    ensures
        0 <= norm2_raw(a) <= 3 * (b * b),
        0 <= len_sqred_val(a) <= norm2_raw(a),
{
    lemma_mul_abs_bound(a.x, a.x, b, b);
    lemma_mul_abs_bound(a.y, a.y, b, b);
    lemma_mul_abs_bound(a.z, a.z, b, b);
    lemma_square_nonneg(a.x);
    lemma_square_nonneg(a.y);
    lemma_square_nonneg(a.z);
    lemma_tdiv_bound(norm2_raw(a), SCALE as int);
}

/// For vectors bounded by `pa * SCALE` and `bb`, the dot product is
/// bounded by `3 * pa * bb` (the rescaling divides one factor of
/// `SCALE` back out).
pub proof fn lemma_dot_scaled_bounded(a: V3, b: V3, pa: int, bb: int)
    requires
        v3_bounded(a, pa * SCALE),
        v3_bounded(b, bb),
        0 <= pa,
        0 <= bb,
    ensures
        -(3 * (pa * bb)) <= dot_val(a, b) <= 3 * (pa * bb),
{
    lemma_mul_abs_bound(a.x, b.x, pa * SCALE, bb);
    lemma_mul_abs_bound(a.y, b.y, pa * SCALE, bb);
    lemma_mul_abs_bound(a.z, b.z, pa * SCALE, bb);
    assert(3 * ((pa * SCALE) * bb) == (3 * (pa * bb)) * SCALE) by (nonlinear_arith);
    crate::fx::lemma_tdiv_quotient_bound(
        a.x * b.x + a.y * b.y + a.z * b.z,
        SCALE as int,
        3 * (pa * bb),
    );
}

/// Scaling a vector bounded by `pa * SCALE` by a mantissa bounded by
/// `bs` gives a vector bounded by `pa * bs`.
pub proof fn lemma_scale_scaled_bounded(a: V3, s: int, pa: int, bs: int)
    requires
        v3_bounded(a, pa * SCALE),
        -bs <= s <= bs,
        0 <= pa,
        0 <= bs,
    ensures
        v3_bounded(v3_scale(a, s), pa * bs),
{
    lemma_mul_abs_bound(a.x, s, pa * SCALE, bs);
    lemma_mul_abs_bound(a.y, s, pa * SCALE, bs);
    lemma_mul_abs_bound(a.z, s, pa * SCALE, bs);
    assert((pa * SCALE) * bs == (pa * bs) * SCALE) by (nonlinear_arith);
    crate::fx::lemma_tdiv_quotient_bound(a.x * s, SCALE as int, pa * bs);
    crate::fx::lemma_tdiv_quotient_bound(a.y * s, SCALE as int, pa * bs);
    crate::fx::lemma_tdiv_quotient_bound(a.z * s, SCALE as int, pa * bs);
}

/// The cross product of vectors bounded by `pa * SCALE` and
/// `pb * SCALE` is bounded by `2 * pa * pb * SCALE`.
pub proof fn lemma_cross_scaled_bounded(a: V3, b: V3, pa: int, pb: int)
    requires
        v3_bounded(a, pa * SCALE),
        v3_bounded(b, pb * SCALE),
        0 <= pa,
        0 <= pb,
    ensures
        v3_bounded(cross_val(a, b), 2 * (pa * pb) * SCALE),
{
    lemma_mul_abs_bound(a.y, b.z, pa * SCALE, pb * SCALE);
    lemma_mul_abs_bound(a.z, b.y, pa * SCALE, pb * SCALE);
    lemma_mul_abs_bound(a.z, b.x, pa * SCALE, pb * SCALE);
    lemma_mul_abs_bound(a.x, b.z, pa * SCALE, pb * SCALE);
    lemma_mul_abs_bound(a.x, b.y, pa * SCALE, pb * SCALE);
    lemma_mul_abs_bound(a.y, b.x, pa * SCALE, pb * SCALE);
    assert(2 * ((pa * SCALE) * (pb * SCALE)) == (2 * (pa * pb) * SCALE) * SCALE)
        by (nonlinear_arith)
        requires
            SCALE == 65536,
    ;
    crate::fx::lemma_tdiv_quotient_bound(
        a.y * b.z - a.z * b.y,
        SCALE as int,
        2 * (pa * pb) * SCALE,
    );
    crate::fx::lemma_tdiv_quotient_bound(
        a.z * b.x - a.x * b.z,
        SCALE as int,
        2 * (pa * pb) * SCALE,
    );
    crate::fx::lemma_tdiv_quotient_bound(
        a.x * b.y - a.y * b.x,
        SCALE as int,
        2 * (pa * pb) * SCALE,
    );
}

/// Dividing a bounded vector by a positive mantissa keeps it within
/// any `c` with `ba * SCALE <= c * s`.
pub proof fn lemma_div_scaled_bounded(a: V3, s: int, ba: int, c: int)
    requires
        s > 0,
        v3_bounded(a, ba),
        0 <= ba,
        0 <= c,
        ba * SCALE <= c * s,
    ensures
        v3_bounded(v3_div(a, s), c),
{
    lemma_mul_abs_bound(a.x, SCALE as int, ba, SCALE as int);
    lemma_mul_abs_bound(a.y, SCALE as int, ba, SCALE as int);
    lemma_mul_abs_bound(a.z, SCALE as int, ba, SCALE as int);
    crate::fx::lemma_tdiv_quotient_bound(a.x * SCALE, s, c);
    crate::fx::lemma_tdiv_quotient_bound(a.y * SCALE, s, c);
    crate::fx::lemma_tdiv_quotient_bound(a.z * SCALE, s, c);
}

/// A vector with a nonzero component has positive raw squared length.
pub proof fn lemma_norm2_pos(a: V3)
    requires
        a.x != 0 || a.y != 0 || a.z != 0,
    ensures
        norm2_raw(a) > 0,
{
    lemma_square_nonneg(a.x);
    lemma_square_nonneg(a.y);
    lemma_square_nonneg(a.z);
    assert(a.x != 0 ==> a.x * a.x >= 1) by (nonlinear_arith);
    assert(a.y != 0 ==> a.y * a.y >= 1) by (nonlinear_arith);
    assert(a.z != 0 ==> a.z * a.z >= 1) by (nonlinear_arith);
}

/// The zero vector has zero raw squared length.
pub proof fn lemma_norm2_zero_of_zero(a: V3)
    requires
        a.x == 0,
        a.y == 0,
        a.z == 0,
    ensures
        norm2_raw(a) == 0,
{
    assert(a.x * a.x == 0 && a.y * a.y == 0 && a.z * a.z == 0) by (nonlinear_arith)
        requires
            a.x == 0 && a.y == 0 && a.z == 0,
    ;
}

/// The componentwise product of two colours with channels in `[0, 1]`
/// has channels in `[0, 1]`.
pub proof fn lemma_mul_unit_channels(a: V3, b: V3)
    requires
        0 <= a.x <= SCALE,
        0 <= a.y <= SCALE,
        0 <= a.z <= SCALE,
        0 <= b.x <= SCALE,
        0 <= b.y <= SCALE,
        0 <= b.z <= SCALE,
    ensures
        0 <= v3_mul(a, b).x <= SCALE,
        0 <= v3_mul(a, b).y <= SCALE,
        0 <= v3_mul(a, b).z <= SCALE,
{
    vstd::arithmetic::mul::lemma_mul_nonnegative(a.x, b.x);
    vstd::arithmetic::mul::lemma_mul_nonnegative(a.y, b.y);
    vstd::arithmetic::mul::lemma_mul_nonnegative(a.z, b.z);
    vstd::arithmetic::mul::lemma_mul_upper_bound(a.x, SCALE as int, b.x, SCALE as int);
    vstd::arithmetic::mul::lemma_mul_upper_bound(a.y, SCALE as int, b.y, SCALE as int);
    vstd::arithmetic::mul::lemma_mul_upper_bound(a.z, SCALE as int, b.z, SCALE as int);
    crate::fx::lemma_tdiv_quotient_bound(a.x * b.x, SCALE as int, SCALE as int);
    crate::fx::lemma_tdiv_quotient_bound(a.y * b.y, SCALE as int, SCALE as int);
    crate::fx::lemma_tdiv_quotient_bound(a.z * b.z, SCALE as int, SCALE as int);
    crate::fx::lemma_tdiv_bound(a.x * b.x, SCALE as int);
    crate::fx::lemma_tdiv_bound(a.y * b.y, SCALE as int);
    crate::fx::lemma_tdiv_bound(a.z * b.z, SCALE as int);
}

impl Vec3 {
    /// A vector with each component drawn uniformly from `[0, 1)`.
    pub fn random(rng: &mut rand::rngs::StdRng) -> (r: Vec3)
        ensures
            0 <= r@.x < SCALE,
            0 <= r@.y < SCALE,
            0 <= r@.z < SCALE,
    {
        let x = rand_below(rng, SCALE as u64);
        let y = rand_below(rng, SCALE as u64);
        let z = rand_below(rng, SCALE as u64);
        Vec3 { x: Fx { m: x as i64 }, y: Fx { m: y as i64 }, z: Fx { m: z as i64 } }
    }

    /// A vector with each component drawn uniformly from `[min, max)`.
    pub fn random_range(rng: &mut rand::rngs::StdRng, min: Fx, max: Fx) -> (r: Vec3)
        requires
            min.m < max.m,
            fits(max.m - min.m),
        ensures
            min.m <= r@.x < max.m,
            min.m <= r@.y < max.m,
            min.m <= r@.z < max.m,
    {
        let span: u64 = (max.m - min.m) as u64;
        let x = min.m + (rand_below(rng, span) as i64);
        let y = min.m + (rand_below(rng, span) as i64);
        let z = min.m + (rand_below(rng, span) as i64);
        Vec3 { x: Fx { m: x }, y: Fx { m: y }, z: Fx { m: z } }
    }

    /// A point strictly inside the unit sphere: rejection sampling on
    /// the enclosing cube, with a fixed interior fallback after a
    /// bounded number of tries (so the loop provably terminates).
    pub fn random_in_unit_sphere(rng: &mut rand::rngs::StdRng) -> (r: Vec3)
        ensures
            v3_bounded(r@, SCALE as int),
            norm2_raw(r@) < SCALE * SCALE,
    {
        let mut tries: u64 = 0;
        while tries < 64
            invariant
                tries <= 64,
            decreases 64 - tries,
        {
            let v = Vec3::random_range(rng, Fx { m: -SCALE }, Fx { m: SCALE });
            proof {
                lemma_len_sqred_bounded(v@, SCALE as int);
            }
            let ls = v.len_sqred();
            if ls.m < SCALE {
                proof {
                    lemma_tdiv_fundamental(norm2_raw(v@), SCALE as int);
                    vstd::arithmetic::mul::lemma_mul_inequality(
                        len_sqred_val(v@) + 1,
                        SCALE as int,
                        SCALE as int,
                    );
                }
                return v;
            }
            tries = tries + 1;
        }
        Vec3 { x: Fx { m: 32768 }, y: Fx { m: 0 }, z: Fx { m: 0 } }
    }

    /// A point strictly inside the unit disk of the XY plane, by the
    /// same bounded rejection sampling.
    pub fn random_in_unit_disk(rng: &mut rand::rngs::StdRng) -> (r: Vec3)
        ensures
            v3_bounded(r@, SCALE as int),
            norm2_raw(r@) < SCALE * SCALE,
            r@.z == 0,
    {
        let mut tries: u64 = 0;
        while tries < 64
            invariant
                tries <= 64,
            decreases 64 - tries,
        {
            let p = Vec3::random_range(rng, Fx { m: -SCALE }, Fx { m: SCALE });
            let v = Vec3 { x: p.x, y: p.y, z: Fx { m: 0 } };
            proof {
                lemma_len_sqred_bounded(v@, SCALE as int);
            }
            let ls = v.len_sqred();
            if ls.m < SCALE {
                proof {
                    lemma_tdiv_fundamental(norm2_raw(v@), SCALE as int);
                    vstd::arithmetic::mul::lemma_mul_inequality(
                        len_sqred_val(v@) + 1,
                        SCALE as int,
                        SCALE as int,
                    );
                }
                return v;
            }
            tries = tries + 1;
        }
        Vec3 { x: Fx { m: 32768 }, y: Fx { m: 0 }, z: Fx { m: 0 } }
    }

    /// A random direction of roughly unit length: a sphere sample
    /// normalized, with a fixed axis fallback for the degenerate
    /// draws.
    pub fn random_unit_vector(rng: &mut rand::rngs::StdRng) -> (r: Vec3)
        ensures
            v3_bounded(r@, SCALE as int),
            norm2_raw(r@) >= SCALE,
            65531 <= len_val(r@) <= 65537,
    {
        let mut tries: u64 = 0;
        while tries < 64
            invariant
                tries <= 64,
            decreases 64 - tries,
        {
            let v = Vec3::random_range(rng, Fx { m: -SCALE }, Fx { m: SCALE });
            proof {
                lemma_len_sqred_bounded(v@, SCALE as int);
            }
            let ls = v.len_sqred();
            // accept only draws of at least half a unit, so the
            // normalized result provably has near-unit length
            if 16384 < ls.m && ls.m < SCALE {
                proof {
                    lemma_tdiv_fundamental(norm2_raw(v@), SCALE as int);
                    vstd::arithmetic::mul::lemma_mul_inequality(
                        16385,
                        len_sqred_val(v@),
                        SCALE as int,
                    );
                    lemma_unit_length(v@);
                }
                let u = v.unit_vector();
                proof {
                    lemma_square_nonneg(u@.x);
                    lemma_square_nonneg(u@.y);
                    lemma_square_nonneg(u@.z);
                    lemma_sqrt_floor(norm2_raw(u@));
                    assert(norm2_raw(u@) >= SCALE) by (nonlinear_arith)
                        requires
                            len_val(u@) * len_val(u@) <= norm2_raw(u@),
                            len_val(u@) >= 65531,
                    ;
                }
                return u;
            }
            tries = tries + 1;
        }
        let r = Vec3 { x: Fx { m: 65536 }, y: Fx { m: 0 }, z: Fx { m: 0 } };
        proof {
            assert(norm2_raw(r@) == 65536 * 65536 + 0 * 0 + 0 * 0);
            assert(65536int * 65536int == 4294967296int) by (nonlinear_arith);
            assert(is_sqrt(4294967296int, 65536int)) by (nonlinear_arith);
            lemma_sqrt_floor(norm2_raw(r@));
            lemma_sqrt_unique(norm2_raw(r@), 65536int, sqrt_floor(norm2_raw(r@)));
        }
        r
    }
}

/// The value of one clamped into `[lo, hi]` (checking the lower bound
/// first, as the clamping code does).
pub open spec fn clamp_val(x: int, lo: int, hi: int) -> int {
    if x < lo {
        lo
    } else if x > hi {
        hi
    } else {
        x
    }
}

/// One output channel of a pixel: the accumulated channel divided by
/// the sample count, gamma-corrected by a square root, clamped to
/// `[0, 0.999]` and scaled by `255.999` into an 8-bit value.
pub open spec fn channel_val(sum: int, n: int) -> int {
    let avg = tdiv(sum, n);
    let g = sqrt_floor(avg * SCALE);
    let c = clamp_val(g, 0, 65470);
    tdiv(255999 * c, 65536000)
}

/// Only the zero vector has zero raw squared length.
pub proof fn lemma_norm2_zero(a: V3)
    requires
        norm2_raw(a) == 0,
    ensures
        a.x == 0 && a.y == 0 && a.z == 0,
{
    lemma_square_nonneg(a.x);
    lemma_square_nonneg(a.y);
    lemma_square_nonneg(a.z);
    assert(a.x == 0 && a.y == 0 && a.z == 0) by (nonlinear_arith)
        requires
            a.x * a.x == 0,
            a.y * a.y == 0,
            a.z * a.z == 0,
    ;
}

/// The truncated cross product stays within rounding of orthogonal to
/// both factors: the raw dot of `cross(a, b)` with either factor is
/// at most three times that factor's bound (before rounding it is
/// exactly zero).
pub proof fn lemma_cross_dot_bound(a: V3, b: V3, ba: int, bb: int)
    requires
        v3_bounded(a, ba),
        v3_bounded(b, bb),
        0 <= ba,
        0 <= bb,
    ensures
        -(3 * bb) <= cross_val(a, b).x * b.x + cross_val(a, b).y * b.y + cross_val(a, b).z * b.z
            <= 3 * bb,
        -(3 * ba) <= cross_val(a, b).x * a.x + cross_val(a, b).y * a.y + cross_val(a, b).z * a.z
            <= 3 * ba,
{
    let ex = a.y * b.z - a.z * b.y;
    let ey = a.z * b.x - a.x * b.z;
    let ez = a.x * b.y - a.y * b.x;
    let cx = tdiv(ex, SCALE as int);
    let cy = tdiv(ey, SCALE as int);
    let cz = tdiv(ez, SCALE as int);
    lemma_tdiv_fundamental(ex, SCALE as int);
    lemma_tdiv_fundamental(ey, SCALE as int);
    lemma_tdiv_fundamental(ez, SCALE as int);
    let rx = ex - cx * 65536;
    let ry = ey - cy * 65536;
    let rz = ez - cz * 65536;
    assert(ex * b.x + ey * b.y + ez * b.z == 0) by (nonlinear_arith)
        requires
            ex == a.y * b.z - a.z * b.y,
            ey == a.z * b.x - a.x * b.z,
            ez == a.x * b.y - a.y * b.x,
    ;
    assert(ex * a.x + ey * a.y + ez * a.z == 0) by (nonlinear_arith)
        requires
            ex == a.y * b.z - a.z * b.y,
            ey == a.z * b.x - a.x * b.z,
            ez == a.x * b.y - a.y * b.x,
    ;
    lemma_mul_abs_bound(rx, b.x, SCALE as int, bb);
    lemma_mul_abs_bound(ry, b.y, SCALE as int, bb);
    lemma_mul_abs_bound(rz, b.z, SCALE as int, bb);
    lemma_mul_abs_bound(rx, a.x, SCALE as int, ba);
    lemma_mul_abs_bound(ry, a.y, SCALE as int, ba);
    lemma_mul_abs_bound(rz, a.z, SCALE as int, ba);
    assert(65536 * (cx * b.x + cy * b.y + cz * b.z) == -(rx * b.x + ry * b.y + rz * b.z))
        by (nonlinear_arith)
        requires
            ex == cx * 65536 + rx,
            ey == cy * 65536 + ry,
            ez == cz * 65536 + rz,
            ex * b.x + ey * b.y + ez * b.z == 0,
    ;
    assert(65536 * (cx * a.x + cy * a.y + cz * a.z) == -(rx * a.x + ry * a.y + rz * a.z))
        by (nonlinear_arith)
        requires
            ex == cx * 65536 + rx,
            ey == cy * 65536 + ry,
            ez == cz * 65536 + rz,
            ex * a.x + ey * a.y + ez * a.z == 0,
    ;
    assert(-(3 * bb) <= cx * b.x + cy * b.y + cz * b.z <= 3 * bb) by (nonlinear_arith)
        requires
            65536 * (cx * b.x + cy * b.y + cz * b.z) == -(rx * b.x + ry * b.y + rz * b.z),
            -(65536 * bb) <= rx * b.x <= 65536 * bb,
            -(65536 * bb) <= ry * b.y <= 65536 * bb,
            -(65536 * bb) <= rz * b.z <= 65536 * bb,
    ;
    assert(-(3 * ba) <= cx * a.x + cy * a.y + cz * a.z <= 3 * ba) by (nonlinear_arith)
        requires
            65536 * (cx * a.x + cy * a.y + cz * a.z) == -(rx * a.x + ry * a.y + rz * a.z),
            -(65536 * ba) <= rx * a.x <= 65536 * ba,
            -(65536 * ba) <= ry * a.y <= 65536 * ba,
            -(65536 * ba) <= rz * a.z <= 65536 * ba,
    ;
}

/// Normalizing the cross product keeps it within rounding of
/// orthogonal: against a factor bounded by one unit, the dot of
/// `unit(cross(a, b))` with that factor lies within six mantissa
/// steps of zero, provided the cross product is at least a unit long.
pub proof fn lemma_unit_cross_orthogonal(a: V3, b: V3, ba: int)
    requires
        v3_bounded(a, ba),
        0 <= ba,
        v3_bounded(b, SCALE as int),
        norm2_raw(cross_val(a, b)) >= 65536 * 65536,
    ensures
        -6 <= dot_val(unit_val(cross_val(a, b)), b) <= 6,
{
    let c = cross_val(a, b);
    lemma_cross_dot_bound(a, b, ba, SCALE as int);
    lemma_sqrt_floor(norm2_raw(c));
    let l = sqrt_floor(norm2_raw(c));
    assert(l >= 65536) by (nonlinear_arith)
        requires
            0 <= l,
            norm2_raw(cross_val(a, b)) < (l + 1) * (l + 1),
            norm2_raw(cross_val(a, b)) >= 65536 * 65536,
    ;
    let ux = tdiv(c.x * 65536, l);
    let uy = tdiv(c.y * 65536, l);
    let uz = tdiv(c.z * 65536, l);
    lemma_tdiv_fundamental(c.x * 65536, l);
    lemma_tdiv_fundamental(c.y * 65536, l);
    lemma_tdiv_fundamental(c.z * 65536, l);
    let sx = c.x * 65536 - ux * l;
    let sy = c.y * 65536 - uy * l;
    let sz = c.z * 65536 - uz * l;
    lemma_mul_abs_bound(sx, b.x, l, SCALE as int);
    lemma_mul_abs_bound(sy, b.y, l, SCALE as int);
    lemma_mul_abs_bound(sz, b.z, l, SCALE as int);
    assert(l * (ux * b.x) == 65536 * (c.x * b.x) - sx * b.x) by (nonlinear_arith)
        requires
            c.x * 65536 == ux * l + sx,
    ;
    assert(l * (uy * b.y) == 65536 * (c.y * b.y) - sy * b.y) by (nonlinear_arith)
        requires
            c.y * 65536 == uy * l + sy,
    ;
    assert(l * (uz * b.z) == 65536 * (c.z * b.z) - sz * b.z) by (nonlinear_arith)
        requires
            c.z * 65536 == uz * l + sz,
    ;
    assert(l * (ux * b.x + uy * b.y + uz * b.z) == l * (ux * b.x) + l * (uy * b.y) + l * (uz
        * b.z)) by (nonlinear_arith);
    assert(65536 * (c.x * b.x + c.y * b.y + c.z * b.z) == 65536 * (c.x * b.x) + 65536 * (c.y * b.y)
        + 65536 * (c.z * b.z)) by (nonlinear_arith);
    assert(l * (ux * b.x + uy * b.y + uz * b.z) == 65536 * (c.x * b.x + c.y * b.y + c.z * b.z) - (
    sx * b.x + sy * b.y + sz * b.z));
    assert(-(6 * (l * 65536)) <= l * (ux * b.x + uy * b.y + uz * b.z) <= 6 * (l * 65536))
        by (nonlinear_arith)
        requires
            l >= 65536,
            l * (ux * b.x + uy * b.y + uz * b.z) == 65536 * (c.x * b.x + c.y * b.y + c.z * b.z) - (
            sx * b.x + sy * b.y + sz * b.z),
            -(3 * 65536) <= c.x * b.x + c.y * b.y + c.z * b.z <= 3 * 65536,
            -(l * 65536) <= sx * b.x <= l * 65536,
            -(l * 65536) <= sy * b.y <= l * 65536,
            -(l * 65536) <= sz * b.z <= l * 65536,
    ;
    assert(-(6 * 65536) <= ux * b.x + uy * b.y + uz * b.z <= 6 * 65536) by (nonlinear_arith)
        requires
            l >= 1,
            -(6 * (l * 65536)) <= l * (ux * b.x + uy * b.y + uz * b.z) <= 6 * (l * 65536),
    ;
    crate::fx::lemma_tdiv_quotient_bound(ux * b.x + uy * b.y + uz * b.z, SCALE as int, 6);
}

/// Negating a vector keeps its raw squared length.
pub proof fn lemma_norm2_neg(a: V3)
    ensures
        norm2_raw(v3_neg(a)) == norm2_raw(a),
{
    vstd::arithmetic::mul::lemma_mul_cancels_negatives(a.x, a.x);
    vstd::arithmetic::mul::lemma_mul_cancels_negatives(a.y, a.y);
    vstd::arithmetic::mul::lemma_mul_cancels_negatives(a.z, a.z);
}

/// Negating one argument of the dot product negates the result
/// exactly, even with the fixed-point truncation.
pub proof fn lemma_dot_neg_right(a: V3, b: V3)
    ensures
        dot_val(a, v3_neg(b)) == -dot_val(a, b),
{
    vstd::arithmetic::mul::lemma_mul_is_commutative(a.x, -b.x);
    vstd::arithmetic::mul::lemma_mul_is_commutative(a.y, -b.y);
    vstd::arithmetic::mul::lemma_mul_is_commutative(a.z, -b.z);
    vstd::arithmetic::mul::lemma_mul_unary_negation(b.x, a.x);
    vstd::arithmetic::mul::lemma_mul_unary_negation(b.y, a.y);
    vstd::arithmetic::mul::lemma_mul_unary_negation(b.z, a.z);
    vstd::arithmetic::mul::lemma_mul_is_commutative(b.x, a.x);
    vstd::arithmetic::mul::lemma_mul_is_commutative(b.y, a.y);
    vstd::arithmetic::mul::lemma_mul_is_commutative(b.z, a.z);
    crate::fx::lemma_tdiv_odd(a.x * b.x + a.y * b.y + a.z * b.z, SCALE as int);
}

/// Swapping the cross product's arguments negates it exactly, even
/// with the fixed-point truncations.
pub proof fn lemma_cross_antisymmetric(a: V3, b: V3)
    ensures
        cross_val(a, b) == v3_neg(cross_val(b, a)),
{
    vstd::arithmetic::mul::lemma_mul_is_commutative(a.y, b.z);
    vstd::arithmetic::mul::lemma_mul_is_commutative(a.z, b.y);
    vstd::arithmetic::mul::lemma_mul_is_commutative(a.z, b.x);
    vstd::arithmetic::mul::lemma_mul_is_commutative(a.x, b.z);
    vstd::arithmetic::mul::lemma_mul_is_commutative(a.x, b.y);
    vstd::arithmetic::mul::lemma_mul_is_commutative(a.y, b.x);
    crate::fx::lemma_tdiv_odd(a.y * b.z - a.z * b.y, SCALE as int);
    crate::fx::lemma_tdiv_odd(a.z * b.x - a.x * b.z, SCALE as int);
    crate::fx::lemma_tdiv_odd(a.x * b.y - a.y * b.x, SCALE as int);
}

} // verus!
