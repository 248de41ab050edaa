//! Decimal fixed-point numbers: the scalar type of the renderer.
//!
//! A [`Fixed`] holds a signed count of billionths. Every operation is total on
//! its stated domain and saturates at the ends of the range instead of
//! wrapping; products and quotients are rounded toward zero.

use core::ops::Neg;
use vstd::prelude::*;

verus! {

/// Number of raw units in one.
pub const SCALE: i64 = 1_000_000_000;

/// Clamps an integer into the range of raw values.
pub open spec fn sat(v: int) -> int {
    if v < i64::MIN {
        i64::MIN as int
    } else if v > i64::MAX {
        i64::MAX as int
    } else {
        v
    }
}

/// Quotient rounded toward zero.
pub open spec fn quot(n: int, d: int) -> int
    recommends
        d != 0,
{
    if d > 0 {
        if n >= 0 {
            n / d
        } else {
            -((-n) / d)
        }
    } else {
        if n >= 0 {
            -(n / (-d))
        } else {
            (-n) / (-d)
        }
    }
}

/// `r` is the largest integer whose square does not exceed `n`.
pub open spec fn is_floor_sqrt(n: int, r: int) -> bool {
    0 <= r && r * r <= n < (r + 1) * (r + 1)
}

/// The integer square root of a non-negative integer, rounded down.
pub open spec fn isqrt(n: int) -> int
    recommends
        n >= 0,
{
    choose|r: int| is_floor_sqrt(n, r)
}

/// A non-negative integer has at most one floor square root.
pub proof fn lemma_floor_sqrt_unique(n: int, r: int, s: int)
    requires
        is_floor_sqrt(n, r),
        is_floor_sqrt(n, s),
    ensures
        r == s,
{
    if r < s {
        assert((r + 1) * (r + 1) <= s * s) by (nonlinear_arith)
            requires
                0 <= r,
                r + 1 <= s,
        ;
    } else if s < r {
        assert((s + 1) * (s + 1) <= r * r) by (nonlinear_arith)
            requires
                0 <= s,
                s + 1 <= r,
        ;
    }
}

/// Every non-negative integer has a floor square root, and `isqrt` is it.
pub proof fn lemma_isqrt_is_floor_sqrt(n: int)
    requires
        n >= 0,
    ensures
        is_floor_sqrt(n, isqrt(n)),
    decreases n,
{
    if n == 0 {
        assert(is_floor_sqrt(0, 0));
    } else {
        lemma_isqrt_is_floor_sqrt(n - 1);
        let r = isqrt(n - 1);
        if (r + 1) * (r + 1) <= n {
            assert(n < (r + 2) * (r + 2)) by (nonlinear_arith)
                requires
                    0 <= r,
                    (r + 1) * (r + 1) == n,
            ;
            assert(is_floor_sqrt(n, r + 1));
        } else {
            assert(is_floor_sqrt(n, r));
        }
    }
}

/// Any floor square root that is exhibited is the value of `isqrt`.
pub proof fn lemma_isqrt_eq(n: int, r: int)
    requires
        is_floor_sqrt(n, r),
    ensures
        isqrt(n) == r,
{
    lemma_floor_sqrt_unique(n, r, isqrt(n));
}

/// Narrows a wide intermediate result to a raw value, clamping at the ends.
fn saturate(v: i128) -> (r: i64)
    ensures
        r == sat(v as int),
{
    if v > i64::MAX as i128 {
        i64::MAX
    } else if v < i64::MIN as i128 {
        i64::MIN
    } else {
        v as i64
    }
}

/// Divides two wide intermediate values, rounding toward zero.
fn divide(n: i128, d: i128) -> (q: i128)
    requires
        d != 0,
        -0x4000_0000_0000_0000_0000_0000_0000_0000 <= n,
        n <= 0x4000_0000_0000_0000_0000_0000_0000_0000,
        -0x4000_0000_0000_0000_0000_0000_0000_0000 <= d,
        d <= 0x4000_0000_0000_0000_0000_0000_0000_0000,
    ensures
        q == quot(n as int, d as int),
{
    if d > 0 {
        n / d
    } else {
        let m: i128 = -d;
        -(n / m)
    }
}

/// Integer square root by bisection.
fn floor_sqrt(n: u128) -> (r: u64)
    requires
        n < 0x4000_0000_0000_0000_0000_0000,
    ensures
        is_floor_sqrt(n as int, r as int),
        r < 0x8000_0000_0000,
{
    let mut lo: u128 = 0;
    let mut hi: u128 = 0x8000_0000_0000;
    while hi - lo > 1
        invariant
            lo < hi <= 0x8000_0000_0000,
            lo * lo <= n < hi * hi,
        decreases hi - lo,
    {
        let mid: u128 = lo + (hi - lo) / 2;
        assert(mid * mid < 0x4000_0000_0000_0000_0000_0000) by (nonlinear_arith)
            requires
                mid < 0x8000_0000_0000,
        ;
        if mid * mid <= n {
            lo = mid;
        } else {
            hi = mid;
        }
    }
    lo as u64
}

/// A decimal fixed-point number with nine fractional digits.
#[derive(Clone, Copy, Debug, PartialEq, Eq, Structural, PartialOrd, Ord, Hash)]
pub struct Fixed {
    /// The value in billionths.
    pub raw: i64,
}

impl View for Fixed {
    type V = int;

    /// The value in billionths, as a mathematical integer.
    open spec fn view(&self) -> int {
        self.raw as int
    }
}

impl Fixed {
    /// The number with the given raw value, which must lie in range.
    pub open spec fn of(v: int) -> Fixed
        recommends
            i64::MIN <= v <= i64::MAX,
    {
        Fixed { raw: v as i64 }
    }

    /// Saturating sum.
    pub open spec fn spec_add(self, rhs: Fixed) -> Fixed {
        Fixed::of(sat(self@ + rhs@))
    }

    /// Saturating difference.
    pub open spec fn spec_sub(self, rhs: Fixed) -> Fixed {
        Fixed::of(sat(self@ - rhs@))
    }

    /// Saturating negation.
    pub open spec fn spec_neg(self) -> Fixed {
        Fixed::of(sat(-self@))
    }

    /// Product, rounded toward zero and saturated.
    pub open spec fn spec_mul(self, rhs: Fixed) -> Fixed {
        Fixed::of(sat(quot(self@ * rhs@, SCALE as int)))
    }

    /// Quotient, rounded toward zero and saturated.
    pub open spec fn spec_div(self, rhs: Fixed) -> Fixed
        recommends
            rhs@ != 0,
    {
        Fixed::of(sat(quot(self@ * SCALE, rhs@)))
    }

    /// Quotient that is defined for every divisor: dividing by zero gives the
    /// number of largest magnitude that has the sign of the dividend.
    pub open spec fn spec_saturating_div(self, rhs: Fixed) -> Fixed {
        if rhs@ != 0 {
            self.spec_div(rhs)
        } else if self@ > 0 {
            Fixed::of(i64::MAX as int)
        } else if self@ < 0 {
            Fixed::of(i64::MIN as int)
        } else {
            self
        }
    }

    /// The fifth power, by repeated multiplication.
    pub open spec fn spec_pow5(self) -> Fixed {
        (self * self) * (self * self) * self
    }

    /// One factor of a nested alternating series: `1 - x2 * inner / den`.
    pub open spec fn spec_series_step(x2: Fixed, den: int, inner: Fixed) -> Fixed {
        Fixed::spec_from_int(1) - (x2 * inner).spec_div(Fixed::spec_from_int(den))
    }

    /// The sine of an angle in radians: its Taylor polynomial of degree 15
    /// about zero, `x - x^3/3! + x^5/5! - ... - x^15/15!`, in nested form.
    pub open spec fn spec_sin(self) -> Fixed {
        let x2 = self * self;
        let one = Fixed::spec_from_int(1);
        self * Fixed::spec_series_step(
            x2,
            6,
            Fixed::spec_series_step(
                x2,
                20,
                Fixed::spec_series_step(
                    x2,
                    42,
                    Fixed::spec_series_step(
                        x2,
                        72,
                        Fixed::spec_series_step(
                            x2,
                            110,
                            Fixed::spec_series_step(
                                x2,
                                156,
                                Fixed::spec_series_step(x2, 210, one),
                            ),
                        ),
                    ),
                ),
            ),
        )
    }

    /// The cosine of an angle in radians: its Taylor polynomial of degree 16
    /// about zero, `1 - x^2/2! + x^4/4! - ... + x^16/16!`, in nested form.
    pub open spec fn spec_cos(self) -> Fixed {
        let x2 = self * self;
        let one = Fixed::spec_from_int(1);
        Fixed::spec_series_step(
            x2,
            2,
            Fixed::spec_series_step(
                x2,
                12,
                Fixed::spec_series_step(
                    x2,
                    30,
                    Fixed::spec_series_step(
                        x2,
                        56,
                        Fixed::spec_series_step(
                            x2,
                            90,
                            Fixed::spec_series_step(
                                x2,
                                132,
                                Fixed::spec_series_step(
                                    x2,
                                    182,
                                    Fixed::spec_series_step(x2, 240, one),
                                ),
                            ),
                        ),
                    ),
                ),
            ),
        )
    }

    /// The tangent of an angle in radians: sine over cosine.
    pub open spec fn spec_tan(self) -> Fixed {
        self.spec_sin().spec_saturating_div(self.spec_cos())
    }

    /// Square root, rounded down.
    pub open spec fn spec_sqrt(self) -> Fixed
        recommends
            self@ >= 0,
    {
        Fixed::of(isqrt(self@ * SCALE))
    }

    /// Absolute value, saturated.
    pub open spec fn spec_abs(self) -> Fixed {
        if self@ < 0 {
            self.spec_neg()
        } else {
            self
        }
    }

    /// The smaller of two numbers.
    pub open spec fn spec_min(self, rhs: Fixed) -> Fixed {
        if rhs@ < self@ {
            rhs
        } else {
            self
        }
    }

    /// The larger of two numbers.
    pub open spec fn spec_max(self, rhs: Fixed) -> Fixed {
        if rhs@ > self@ {
            rhs
        } else {
            self
        }
    }

    /// Whether this number is smaller than `rhs`.
    pub open spec fn spec_lt(self, rhs: Fixed) -> bool {
        self@ < rhs@
    }

    /// Whether this number is at most `rhs`.
    pub open spec fn spec_le(self, rhs: Fixed) -> bool {
        self@ <= rhs@
    }

    /// Whether this number is greater than `rhs`.
    pub open spec fn spec_gt(self, rhs: Fixed) -> bool {
        self@ > rhs@
    }

    /// Whether this number is at least `rhs`.
    pub open spec fn spec_ge(self, rhs: Fixed) -> bool {
        self@ >= rhs@
    }

    /// The whole number `i`.
    pub open spec fn spec_from_int(i: int) -> Fixed {
        Fixed::of(sat(i * SCALE))
    }

    /// The fraction `num / den`, rounded toward zero.
    pub open spec fn spec_from_ratio(num: int, den: int) -> Fixed
        recommends
            den != 0,
    {
        Fixed::of(sat(quot(num * SCALE, den)))
    }

    /// Zero.
    pub fn zero() -> (r: Fixed)
        ensures
            r@ == 0,
    {
        Fixed { raw: 0 }
    }

    /// One.
    pub fn one() -> (r: Fixed)
        ensures
            r@ == SCALE,
    {
        Fixed { raw: SCALE }
    }

    /// The largest representable number.
    pub fn max_value() -> (r: Fixed)
        ensures
            r@ == i64::MAX,
    {
        Fixed { raw: i64::MAX }
    }

    /// The whole number `i`, exactly.
    pub fn from_int(i: i32) -> (r: Fixed)
        ensures
            r == Fixed::spec_from_int(i as int),
            r@ == i * SCALE,
    {
        Fixed { raw: (i as i64) * SCALE }
    }

    /// The fraction `num / den`, rounded toward zero.
    pub fn from_ratio(num: i32, den: i32) -> (r: Fixed)
        requires
            den != 0,
        ensures
            r == Fixed::spec_from_ratio(num as int, den as int),
    {
        let n: i128 = (num as i128) * (SCALE as i128);
        Fixed { raw: saturate(divide(n, den as i128)) }
    }

    /// Absolute value; the most negative number maps to the largest one.
    pub fn abs(self) -> (r: Fixed)
        ensures
            r == self.spec_abs(),
            r@ >= 0,
    {
        if self.raw < 0 {
            self.neg()
        } else {
            self
        }
    }

    /// The smaller of two numbers.
    pub fn min(self, rhs: Fixed) -> (r: Fixed)
        ensures
            r == self.spec_min(rhs),
    {
        if rhs.raw < self.raw {
            rhs
        } else {
            self
        }
    }

    /// The larger of two numbers.
    pub fn max(self, rhs: Fixed) -> (r: Fixed)
        ensures
            r == self.spec_max(rhs),
    {
        if rhs.raw > self.raw {
            rhs
        } else {
            self
        }
    }

    /// Square root of a non-negative number, rounded down to the nearest
    /// billionth.
    pub fn sqrt(self) -> (r: Fixed)
        requires
            self@ >= 0,
        ensures
            r == self.spec_sqrt(),
            is_floor_sqrt(self@ * SCALE, r@),
    {
        let n: u128 = (self.raw as u128) * (SCALE as u128);
        let root = floor_sqrt(n);
        proof {
            lemma_isqrt_eq(n as int, root as int);
        }
        Fixed { raw: root as i64 }
    }

    /// Division that is defined for every divisor: dividing by zero gives the
    /// number of largest magnitude that has the sign of the dividend, and zero
    /// for zero.
    pub fn saturating_div(self, rhs: Fixed) -> (r: Fixed)
        ensures
            r == self.spec_saturating_div(rhs),
    {
        if rhs.raw != 0 {
            self / rhs
        } else if self.raw > 0 {
            Fixed { raw: i64::MAX }
        } else if self.raw < 0 {
            Fixed { raw: i64::MIN }
        } else {
            self
        }
    }

    /// The fifth power.
    pub fn pow5(self) -> (r: Fixed)
        ensures
            r == self.spec_pow5(),
    {
        (self * self) * (self * self) * self
    }

    /// One factor of a nested alternating series: `1 - x2 * inner / den`.
    fn series_step(x2: Fixed, den: i32, inner: Fixed) -> (r: Fixed)
        requires
            den > 0,
        ensures
            r == Fixed::spec_series_step(x2, den as int, inner),
    {
        Fixed::from_int(1) - (x2 * inner) / Fixed::from_int(den)
    }

    /// The sine of an angle in radians, by the Taylor polynomial of degree
    /// 15. The polynomial is within a few billionths of the sine for angles
    /// up to a quarter turn either way, and drifts away beyond.
    pub fn sin(self) -> (r: Fixed)
        ensures
            r == self.spec_sin(),
    {
        let x2 = self * self;
        let mut acc = Fixed::from_int(1);
        acc = Fixed::series_step(x2, 210, acc);
        acc = Fixed::series_step(x2, 156, acc);
        acc = Fixed::series_step(x2, 110, acc);
        acc = Fixed::series_step(x2, 72, acc);
        acc = Fixed::series_step(x2, 42, acc);
        acc = Fixed::series_step(x2, 20, acc);
        acc = Fixed::series_step(x2, 6, acc);
        self * acc
    }

    /// The cosine of an angle in radians, by the Taylor polynomial of degree
    /// 16. The polynomial is within a few billionths of the cosine for angles
    /// up to a quarter turn either way, and drifts away beyond.
    pub fn cos(self) -> (r: Fixed)
        ensures
            r == self.spec_cos(),
    {
        let x2 = self * self;
        let mut acc = Fixed::from_int(1);
        acc = Fixed::series_step(x2, 240, acc);
        acc = Fixed::series_step(x2, 182, acc);
        acc = Fixed::series_step(x2, 132, acc);
        acc = Fixed::series_step(x2, 90, acc);
        acc = Fixed::series_step(x2, 56, acc);
        acc = Fixed::series_step(x2, 30, acc);
        acc = Fixed::series_step(x2, 12, acc);
        Fixed::series_step(x2, 2, acc)
    }

    /// The tangent of an angle in radians: sine over cosine, saturated where
    /// the cosine is zero.
    pub fn tan(self) -> (r: Fixed)
        ensures
            r == self.spec_tan(),
    {
        self.sin().saturating_div(self.cos())
    }

    /// The integer part, rounded toward zero.
    pub fn trunc(self) -> (r: i64)
        ensures
            r == quot(self@, SCALE as int),
    {
        self.raw / SCALE
    }
}

/// The square root of a non-negative number is the integer square root of its
/// raw value at twice the scale; it is non-negative and in range.
pub proof fn lemma_sqrt_value(a: Fixed)
    requires
        a@ >= 0,
    ensures
        a.spec_sqrt()@ == isqrt(a@ * SCALE),
        is_floor_sqrt(a@ * SCALE, a.spec_sqrt()@),
        0 <= a.spec_sqrt()@ < 0x8000_0000_0000,
{
    let n = a@ * SCALE;
    lemma_isqrt_is_floor_sqrt(n);
    let r = isqrt(n);
    if r >= 0x8000_0000_0000 {
        assert(r * r >= 0x4000_0000_0000_0000_0000_0000) by (nonlinear_arith)
            requires
                r >= 0x8000_0000_0000,
        ;
    }
}

/// Rounding toward zero keeps the order of dividends over a positive divisor.
pub proof fn lemma_quot_monotone(m: int, n: int, d: int)
    requires
        m <= n,
        d > 0,
    ensures
        quot(m, d) <= quot(n, d),
{
    if m >= 0 {
        vstd::arithmetic::div_mod::lemma_div_is_ordered(m, n, d);
    } else if n < 0 {
        vstd::arithmetic::div_mod::lemma_div_is_ordered(-n, -m, d);
    } else {
        vstd::arithmetic::div_mod::lemma_div_is_ordered(0, -m, d);
        vstd::arithmetic::div_mod::lemma_div_is_ordered(0, n, d);
    }
}

/// Negating a factor negates the product before it is saturated, unless the
/// factor is the most negative number, which has no negative.
pub proof fn lemma_mul_neg(a: Fixed, b: Fixed)
    requires
        b@ > i64::MIN,
    ensures
        (a * b.spec_neg())@ == sat(-quot(a@ * b@, SCALE as int)),
        (a * b.spec_neg())@ <= -(a * b)@,
{
    assert(a@ * (-b@) == -(a@ * b@)) by (nonlinear_arith);
}

/// Zero is absorbing for multiplication.
pub proof fn lemma_mul_zero(a: Fixed, zero: Fixed)
    requires
        zero@ == 0,
    ensures
        a * zero == zero,
        zero * a == zero,
{
}

/// One is neutral for multiplication.
pub proof fn lemma_mul_one(a: Fixed, one: Fixed)
    requires
        one@ == SCALE,
    ensures
        a * one == a,
        one * a == a,
{
}

/// Zero is neutral for addition and subtraction.
pub proof fn lemma_add_zero(a: Fixed, zero: Fixed)
    requires
        zero@ == 0,
    ensures
        a + zero == a,
        zero + a == a,
        a - zero == a,
{
}

impl vstd::std_specs::ops::AddSpecImpl for Fixed {
    open spec fn obeys_add_spec() -> bool {
        true
    }

    open spec fn add_req(self, rhs: Fixed) -> bool {
        true
    }

    open spec fn add_spec(self, rhs: Fixed) -> Fixed {
        self.spec_add(rhs)
    }
}

impl core::ops::Add for Fixed {
    type Output = Fixed;

    /// The sum, saturated at the ends of the range.
    fn add(self, rhs: Fixed) -> (r: Fixed)
        ensures
            r == self.spec_add(rhs),
    {
        Fixed { raw: saturate(self.raw as i128 + rhs.raw as i128) }
    }
}

impl vstd::std_specs::ops::SubSpecImpl for Fixed {
    open spec fn obeys_sub_spec() -> bool {
        true
    }

    open spec fn sub_req(self, rhs: Fixed) -> bool {
        true
    }

    open spec fn sub_spec(self, rhs: Fixed) -> Fixed {
        self.spec_sub(rhs)
    }
}

impl core::ops::Sub for Fixed {
    type Output = Fixed;

    /// The difference, saturated at the ends of the range.
    fn sub(self, rhs: Fixed) -> (r: Fixed)
        ensures
            r == self.spec_sub(rhs),
    {
        Fixed { raw: saturate(self.raw as i128 - rhs.raw as i128) }
    }
}

impl vstd::std_specs::ops::NegSpecImpl for Fixed {
    open spec fn obeys_neg_spec() -> bool {
        true
    }

    open spec fn neg_req(self) -> bool {
        true
    }

    open spec fn neg_spec(self) -> Fixed {
        self.spec_neg()
    }
}

impl core::ops::Neg for Fixed {
    type Output = Fixed;

    /// The negative; the most negative number maps to the largest one.
    fn neg(self) -> (r: Fixed)
        ensures
            r == self.spec_neg(),
    {
        Fixed { raw: saturate(-(self.raw as i128)) }
    }
}

impl vstd::std_specs::ops::MulSpecImpl for Fixed {
    open spec fn obeys_mul_spec() -> bool {
        true
    }

    open spec fn mul_req(self, rhs: Fixed) -> bool {
        true
    }

    open spec fn mul_spec(self, rhs: Fixed) -> Fixed {
        self.spec_mul(rhs)
    }
}

impl core::ops::Mul for Fixed {
    type Output = Fixed;

    /// The product, rounded toward zero and saturated.
    fn mul(self, rhs: Fixed) -> (r: Fixed)
        ensures
            r == self.spec_mul(rhs),
    {
        let a: i128 = self.raw as i128;
        let b: i128 = rhs.raw as i128;
        assert(-0x4000_0000_0000_0000_0000_0000_0000_0000 <= a * b
            <= 0x4000_0000_0000_0000_0000_0000_0000_0000) by (nonlinear_arith)
            requires
                -0x8000_0000_0000_0000 <= a <= 0x8000_0000_0000_0000,
                -0x8000_0000_0000_0000 <= b <= 0x8000_0000_0000_0000,
        ;
        Fixed { raw: saturate((a * b) / (SCALE as i128)) }
    }
}

impl vstd::std_specs::ops::DivSpecImpl for Fixed {
    open spec fn obeys_div_spec() -> bool {
        true
    }

    open spec fn div_req(self, rhs: Fixed) -> bool {
        rhs@ != 0
    }

    open spec fn div_spec(self, rhs: Fixed) -> Fixed {
        self.spec_div(rhs)
    }
}

impl core::ops::Div for Fixed {
    type Output = Fixed;

    /// The quotient by a divisor other than zero, rounded toward zero and
    /// saturated.
    fn div(self, rhs: Fixed) -> (r: Fixed)
        ensures
            r == self.spec_div(rhs),
    {
        let n: i128 = (self.raw as i128) * (SCALE as i128);
        Fixed { raw: saturate(divide(n, rhs.raw as i128)) }
    }
}

} // verus!
