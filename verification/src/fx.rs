//! Fixed-point scalar arithmetic.
//!
//! A real number is represented by an `i64` mantissa `m` standing for
//! the value `m / SCALE`.  All operations round toward zero, and every
//! operation carries a precondition ruling out `i64` overflow.

use vstd::prelude::*;
use vstd::arithmetic::div_mod::{
    lemma_div_pos_is_pos, lemma_div_nonincreasing, lemma_fundamental_div_mod,
};

verus! {

/// Mantissa units per whole unit: an `Fx` with mantissa `m` stands for
/// the real number `m / 65536`.
pub const SCALE: i64 = 65536;

/// Division truncating toward zero (the behaviour of `/` on Rust's
/// signed integers), for a positive divisor.
pub open spec fn tdiv(a: int, b: int) -> int {
    if a >= 0 {
        a / b
    } else {
        -((-a) / b)
    }
}

/// The product of two fixed-point mantissas, rescaled.
pub open spec fn mul_val(a: int, b: int) -> int {
    tdiv(a * b, SCALE as int)
}

/// The quotient of two fixed-point mantissas, rescaled; truncation
/// toward zero for either sign of the divisor.
pub open spec fn div_val(a: int, b: int) -> int {
    if b > 0 {
        tdiv(a * SCALE, b)
    } else {
        tdiv(-(a * SCALE), -b)
    }
}

/// Whether a mathematical integer fits in an `i64` mantissa.
pub open spec fn fits(x: int) -> bool {
    i64::MIN <= x <= i64::MAX
}

/// Truncating division keeps the result between zero and the dividend.
pub proof fn lemma_tdiv_bound(a: int, b: int)
    requires
        b >= 1,
    ensures
        a >= 0 ==> 0 <= tdiv(a, b) <= a,
        a < 0 ==> a <= tdiv(a, b) <= 0,
{
    if a >= 0 {
        lemma_div_pos_is_pos(a, b);
        lemma_div_nonincreasing(a, b);
    } else {
        lemma_div_pos_is_pos(-a, b);
        lemma_div_nonincreasing(-a, b);
    }
}

/// The fundamental property of truncating division: the quotient times
/// the divisor falls within one divisor of the dividend, on the zero
/// side.
pub proof fn lemma_tdiv_fundamental(a: int, b: int)
    requires
        b >= 1,
    ensures
        a >= 0 ==> tdiv(a, b) * b <= a < tdiv(a, b) * b + b,
        a < 0 ==> tdiv(a, b) * b - b < a <= tdiv(a, b) * b,
{
    if a >= 0 {
        lemma_fundamental_div_mod(a, b);
        vstd::arithmetic::div_mod::lemma_mod_division_less_than_divisor(a, b);
        let q = a / b;
        vstd::arithmetic::mul::lemma_mul_is_commutative(b, q);
        assert(a == b * q + a % b);
    } else {
        lemma_fundamental_div_mod(-a, b);
        vstd::arithmetic::div_mod::lemma_mod_division_less_than_divisor(-a, b);
        let q = (-a) / b;
        vstd::arithmetic::mul::lemma_mul_is_commutative(b, q);
        vstd::arithmetic::mul::lemma_mul_unary_negation(q, b);
        assert(-a == b * q + (-a) % b);
    }
}

/// Truncating division is an odd function of the dividend.
pub proof fn lemma_tdiv_odd(a: int, b: int)
    requires
        b >= 1,
    ensures
        tdiv(-a, b) == -tdiv(a, b),
{
    if a == 0 {
        vstd::arithmetic::div_mod::lemma_div_of0(b);
    }
}

/// A product is bounded by the product of the factors' bounds.
pub proof fn lemma_mul_abs_bound(x: int, y: int, bx: int, by: int) by (nonlinear_arith)
    requires
        -bx <= x <= bx,
        -by <= y <= by,
        0 <= bx,
        0 <= by,
    ensures
        -(bx * by) <= x * y <= bx * by,
{
}

/// A square is never negative.
pub proof fn lemma_square_nonneg(x: int) by (nonlinear_arith)
    ensures
        x * x >= 0,
{
}

/// A number whose square is under `(l + 1)^2` lies within `[-l, l]`.
pub proof fn lemma_abs_le_of_square(x: int, l: int) by (nonlinear_arith)
    requires
        l >= 0,
        x * x < (l + 1) * (l + 1),
    ensures
        -l <= x <= l,
{
}

/// Scaling a value bounded by the divisor, then dividing, is bounded by
/// the scale factor.
pub proof fn lemma_tdiv_scale_bound(a: int, b: int, s: int)
    requires
        b >= 1,
        s >= 0,
        -b <= a <= b,
    ensures
        -s <= tdiv(a * s, b) <= s,
{
    vstd::arithmetic::mul::lemma_mul_inequality(a, b, s);
    vstd::arithmetic::mul::lemma_mul_inequality(-b, a, s);
    vstd::arithmetic::mul::lemma_mul_unary_negation(b, s);
    vstd::arithmetic::div_mod::lemma_div_multiples_vanish(s, b);
    assert(b * s == s * b) by (nonlinear_arith);
    if a * s >= 0 {
        lemma_div_pos_is_pos(a * s, b);
        vstd::arithmetic::div_mod::lemma_div_is_ordered(a * s, b * s, b);
    } else {
        lemma_div_pos_is_pos(-(a * s), b);
        vstd::arithmetic::div_mod::lemma_div_is_ordered(-(a * s), b * s, b);
    }
}

/// Truncating division is monotone in the dividend.
pub proof fn lemma_tdiv_monotone(a: int, b: int, d: int)
    requires
        d >= 1,
        a <= b,
    ensures
        tdiv(a, d) <= tdiv(b, d),
{
    if a >= 0 {
        vstd::arithmetic::div_mod::lemma_div_is_ordered(a, b, d);
    } else if b >= 0 {
        lemma_div_pos_is_pos(-a, d);
        lemma_div_pos_is_pos(b, d);
    } else {
        vstd::arithmetic::div_mod::lemma_div_is_ordered(-b, -a, d);
    }
}

/// A dividend within `c` divisors of zero divides to within `c`.
pub proof fn lemma_tdiv_quotient_bound(x: int, b: int, c: int)
    requires
        b >= 1,
        c >= 0,
        -(c * b) <= x <= c * b,
    ensures
        -c <= tdiv(x, b) <= c,
{
    vstd::arithmetic::div_mod::lemma_div_multiples_vanish(c, b);
    assert(b * c == c * b) by (nonlinear_arith);
    if x >= 0 {
        lemma_div_pos_is_pos(x, b);
        vstd::arithmetic::div_mod::lemma_div_is_ordered(x, c * b, b);
    } else {
        lemma_div_pos_is_pos(-x, b);
        vstd::arithmetic::div_mod::lemma_div_is_ordered(-x, c * b, b);
    }
}

/// A fixed-point number: the real value `m / SCALE`.
#[derive(Clone, Copy, PartialEq, Eq, Structural, Debug)]
pub struct Fx {
    pub m: i64,
}

impl Fx {
    /// The fixed-point representation of a small integer.
    pub fn from_int(w: i64) -> (r: Fx)
        requires
            -0x4000_0000_0000 <= w <= 0x4000_0000_0000,
        ensures
            r.m == w * SCALE,
    {
        Fx { m: w * SCALE }
    }

    /// A fixed-point number from a raw mantissa (`m` stands for `m / SCALE`).
    pub fn from_mantissa(m: i64) -> (r: Fx)
        ensures
            r.m == m,
    {
        Fx { m }
    }

    /// The zero value.
    pub fn zero() -> (r: Fx)
        ensures
            r.m == 0,
    {
        Fx { m: 0 }
    }

    /// The square root, rounded down to the nearest representable value.
    pub fn sqrt(self) -> (r: Fx)
        requires
            self.m >= 0,
        ensures
            r.m == sqrt_floor(self.m * SCALE),
            is_sqrt(self.m * SCALE, r.m as int),
            0 <= r.m,
    {
        let raw: u128 = (self.m as u128) * (SCALE as u128);
        let root: u64 = isqrt(raw);
        proof {
            lemma_sqrt_floor(self.m * SCALE);
            lemma_sqrt_unique(self.m * SCALE, root as int, sqrt_floor(self.m * SCALE));
            assert((root as int) * (root as int) <= (self.m as int) * (SCALE as int));
            assert(root < 0x1_0000_0000_0000u64) by (nonlinear_arith)
                requires
                    (root as int) * (root as int) <= (self.m as int) * (SCALE as int),
                    self.m <= i64::MAX,
                    0x1_0000_0000_0000i64 * 0x1_0000_0000_0000i64 > i64::MAX * 0x1_0000i64,
            ;
        }
        Fx { m: root as i64 }
    }
}

impl std::ops::Add<Fx> for Fx {
    type Output = Fx;

    fn add(self, rhs: Fx) -> (r: Fx) {
        Fx { m: self.m + rhs.m }
    }
}

impl vstd::std_specs::ops::AddSpecImpl<Fx> for Fx {
    open spec fn obeys_add_spec() -> bool {
        true
    }

    open spec fn add_req(self, rhs: Fx) -> bool {
        fits(self.m + rhs.m)
    }

    open spec fn add_spec(self, rhs: Fx) -> Fx {
        Fx { m: (self.m + rhs.m) as i64 }
    }
}

impl std::ops::Sub<Fx> for Fx {
    type Output = Fx;

    fn sub(self, rhs: Fx) -> (r: Fx) {
        Fx { m: self.m - rhs.m }
    }
}

impl vstd::std_specs::ops::SubSpecImpl<Fx> for Fx {
    open spec fn obeys_sub_spec() -> bool {
        true
    }

    open spec fn sub_req(self, rhs: Fx) -> bool {
        fits(self.m - rhs.m)
    }

    open spec fn sub_spec(self, rhs: Fx) -> Fx {
        Fx { m: (self.m - rhs.m) as i64 }
    }
}

impl std::ops::Neg for Fx {
    type Output = Fx;

    fn neg(self) -> (r: Fx) {
        Fx { m: -self.m }
    }
}

impl vstd::std_specs::ops::NegSpecImpl for Fx {
    open spec fn obeys_neg_spec() -> bool {
        true
    }

    open spec fn neg_req(self) -> bool {
        self.m != i64::MIN
    }

    open spec fn neg_spec(self) -> Fx {
        Fx { m: (-self.m) as i64 }
    }
}

impl std::ops::Mul<Fx> for Fx {
    type Output = Fx;

    fn mul(self, rhs: Fx) -> (r: Fx) {
        let p: i128 = (self.m as i128) * (rhs.m as i128);
        proof {
            lemma_tdiv_bound(p as int, SCALE as int);
        }
        let q: i128 = p / (SCALE as i128);
        Fx { m: q as i64 }
    }
}

impl vstd::std_specs::ops::MulSpecImpl<Fx> for Fx {
    open spec fn obeys_mul_spec() -> bool {
        true
    }

    open spec fn mul_req(self, rhs: Fx) -> bool {
        fits(mul_val(self.m as int, rhs.m as int))
    }

    open spec fn mul_spec(self, rhs: Fx) -> Fx {
        Fx { m: mul_val(self.m as int, rhs.m as int) as i64 }
    }
}

impl std::ops::Div<Fx> for Fx {
    type Output = Fx;

    fn div(self, rhs: Fx) -> (r: Fx) {
        let num: i128 = (self.m as i128) * (SCALE as i128);
        let q: i128 = if rhs.m > 0 {
            proof {
                lemma_tdiv_bound(num as int, rhs.m as int);
            }
            num / (rhs.m as i128)
        } else {
            proof {
                lemma_tdiv_bound(-num as int, -rhs.m as int);
            }
            (-num) / (-(rhs.m as i128))
        };
        Fx { m: q as i64 }
    }
}

impl vstd::std_specs::ops::DivSpecImpl<Fx> for Fx {
    open spec fn obeys_div_spec() -> bool {
        true
    }

    open spec fn div_req(self, rhs: Fx) -> bool {
        rhs.m != 0 && fits(div_val(self.m as int, rhs.m as int))
    }

    open spec fn div_spec(self, rhs: Fx) -> Fx {
        Fx { m: div_val(self.m as int, rhs.m as int) as i64 }
    }
}

/// `r` is the integer square root of `x`, rounded down.
pub open spec fn is_sqrt(x: int, r: int) -> bool {
    0 <= r && r * r <= x && x < (r + 1) * (r + 1)
}

/// The integer square root of a nonnegative integer, rounded down.
pub open spec fn sqrt_floor(x: int) -> int {
    choose|r: int| #[trigger] is_sqrt(x, r)
}

/// Every nonnegative integer has an integer square root.
pub proof fn lemma_sqrt_exists(x: int)
    requires
        x >= 0,
    ensures
        exists|r: int| #[trigger] is_sqrt(x, r),
    decreases x,
{
    if x == 0 {
        assert(is_sqrt(0, 0));
    } else {
        lemma_sqrt_exists(x - 1);
        let r = choose|r: int| #[trigger] is_sqrt(x - 1, r);
        if x < (r + 1) * (r + 1) {
            assert(is_sqrt(x, r));
        } else {
            assert(x == (r + 1) * (r + 1));
            assert((r + 1) * (r + 1) < (r + 2) * (r + 2)) by (nonlinear_arith)
                requires
                    r >= 0,
            ;
            assert(is_sqrt(x, r + 1));
        }
    }
}

/// `sqrt_floor` satisfies its defining property.
pub proof fn lemma_sqrt_floor(x: int)
    requires
        x >= 0,
    ensures
        is_sqrt(x, sqrt_floor(x)),
{
    lemma_sqrt_exists(x);
}

/// The integer square root is unique.
pub proof fn lemma_sqrt_unique(x: int, a: int, b: int) by (nonlinear_arith)
    requires
        is_sqrt(x, a),
        is_sqrt(x, b),
    ensures
        a == b,
{
}

/// The integer square root, rounded down, by bisection.
pub fn isqrt(x: u128) -> (r: u64)
    ensures
        is_sqrt(x as int, r as int),
        r as int == sqrt_floor(x as int),
{
    let mut lo: u128 = 0;
    let mut hi: u128 = 0x1_0000_0000_0000_0000u128;
    assert(x < hi * hi) by (nonlinear_arith)
        requires
            hi == 0x1_0000_0000_0000_0000u128,
            x <= u128::MAX,
    ;
    while lo + 1 < hi
        invariant
            0 <= lo < hi <= 0x1_0000_0000_0000_0000u128,
            lo * lo <= x,
            x < hi * hi,
        decreases hi - lo,
    {
        let mid: u128 = lo + (hi - lo) / 2;
        assert(lo < mid < hi);
        assert(mid * mid <= u128::MAX) by (nonlinear_arith)
            requires
                mid < 0x1_0000_0000_0000_0000u128,
        ;
        if mid * mid <= x {
            lo = mid;
        } else {
            hi = mid;
        }
    }
    assert(hi == lo + 1);
    proof {
        lemma_sqrt_floor(x as int);
        lemma_sqrt_unique(x as int, lo as int, sqrt_floor(x as int));
    }
    lo as u64
}

} // verus!
