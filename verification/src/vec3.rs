//! Three-component vectors over [`Fixed`], used for points, directions and
//! colours alike.

use crate::fixed::{is_floor_sqrt, lemma_sqrt_value, Fixed, SCALE};
use core::ops::Neg;
use vstd::prelude::*;

verus! {

/// A vector with three fixed-point components.
#[derive(Clone, Copy, Debug, PartialEq, Eq, Structural)]
pub struct Vec3 {
    pub x: Fixed,
    pub y: Fixed,
    pub z: Fixed,
}

/// A position in space.
pub type Point3 = Vec3;

/// A colour; the components are red, green and blue.
pub type Color = Vec3;

impl Vec3 {
    /// Component-wise sum.
    pub open spec fn spec_add(self, rhs: Vec3) -> Vec3 {
        Vec3 { x: self.x + rhs.x, y: self.y + rhs.y, z: self.z + rhs.z }
    }

    /// Component-wise difference.
    pub open spec fn spec_sub(self, rhs: Vec3) -> Vec3 {
        Vec3 { x: self.x - rhs.x, y: self.y - rhs.y, z: self.z - rhs.z }
    }

    /// Component-wise negation.
    pub open spec fn spec_neg(self) -> Vec3 {
        Vec3 { x: self.x.spec_neg(), y: self.y.spec_neg(), z: self.z.spec_neg() }
    }

    /// Component-wise product.
    pub open spec fn spec_mul(self, rhs: Vec3) -> Vec3 {
        Vec3 { x: self.x * rhs.x, y: self.y * rhs.y, z: self.z * rhs.z }
    }

    /// Every component multiplied by `t`.
    pub open spec fn scale(self, t: Fixed) -> Vec3 {
        Vec3 { x: self.x * t, y: self.y * t, z: self.z * t }
    }

    /// Every component divided by `t`.
    pub open spec fn shrink(self, t: Fixed) -> Vec3
        recommends
            t@ != 0,
    {
        Vec3 { x: self.x.spec_div(t), y: self.y.spec_div(t), z: self.z.spec_div(t) }
    }

    /// The zero vector.
    pub open spec fn spec_zero() -> Vec3 {
        Vec3 { x: Fixed::of(0), y: Fixed::of(0), z: Fixed::of(0) }
    }

    /// The squared Euclidean length.
    pub open spec fn spec_len_squared(&self) -> Fixed {
        self.x * self.x + self.y * self.y + self.z * self.z
    }

    /// The Euclidean length.
    pub open spec fn spec_len(&self) -> Fixed {
        self.spec_len_squared().spec_sqrt()
    }

    /// Whether every component is smaller than ten billionths in magnitude.
    pub open spec fn spec_near_zero(&self) -> bool {
        self.x.spec_abs()@ < 10 && self.y.spec_abs()@ < 10 && self.z.spec_abs()@ < 10
    }

    /// The zero vector.
    pub fn zero() -> (r: Vec3)
        ensures
            r == Vec3::spec_zero(),
    {
        Vec3 { x: Fixed::zero(), y: Fixed::zero(), z: Fixed::zero() }
    }

    /// The Euclidean length, rounded down to the nearest billionth.
    pub fn len(&self) -> (r: Fixed)
        ensures
            r == self.spec_len(),
            r@ >= 0,
    {
        let squared = self.len_squared();
        squared.sqrt()
    }

    /// The squared Euclidean length.
    pub fn len_squared(&self) -> (r: Fixed)
        ensures
            r == self.spec_len_squared(),
            r@ >= 0,
    {
        proof {
            lemma_square_nonnegative(self.x);
            lemma_square_nonnegative(self.y);
            lemma_square_nonnegative(self.z);
        }
        self.x * self.x + self.y * self.y + self.z * self.z
    }

    /// Whether the vector is too short to serve as a direction: every
    /// component is smaller than ten billionths in magnitude.
    pub fn near_zero(&self) -> (r: bool)
        ensures
            r == self.spec_near_zero(),
    {
        self.x.abs().raw < 10 && self.y.abs().raw < 10 && self.z.abs().raw < 10
    }
}

/// A number multiplied by itself is never negative.
pub proof fn lemma_square_nonnegative(a: Fixed)
    ensures
        (a * a)@ >= 0,
{
    assert(a@ * a@ >= 0) by (nonlinear_arith);
}

/// The dot product.
pub open spec fn spec_dot(v1: Vec3, v2: Vec3) -> Fixed {
    v1.x * v2.x + v1.y * v2.y + v1.z * v2.z
}

/// The cross product.
pub open spec fn spec_cross(v1: Vec3, v2: Vec3) -> Vec3 {
    Vec3 {
        x: v1.y * v2.z - v1.z * v2.y,
        y: v1.z * v2.x - v1.x * v2.z,
        z: v1.x * v2.y - v1.y * v2.x,
    }
}

/// The vector divided by its own length.
pub open spec fn spec_unit(v: Vec3) -> Vec3
    recommends
        v.spec_len()@ != 0,
{
    v.shrink(v.spec_len())
}

/// The vector scaled to unit length, or the vector itself where its computed
/// length is zero.
pub open spec fn spec_normalized(v: Vec3) -> Vec3 {
    if v.spec_len()@ == 0 {
        v
    } else {
        spec_unit(v)
    }
}

/// The mirror image of `v` in the plane with normal `n`.
pub open spec fn spec_reflect(v: Vec3, n: Vec3) -> Vec3 {
    v - n.scale(Fixed::spec_from_int(2) * spec_dot(v, n))
}

/// The direction of `uv` after crossing a surface with normal `n`, where
/// `etai_over_etat` is the ratio of the refractive indices.
pub open spec fn spec_refract(uv: Vec3, n: Vec3, etai_over_etat: Fixed) -> Vec3 {
    let cos_theta = spec_dot(uv.spec_neg(), n).spec_min(Fixed::spec_from_int(1));
    let r_out_perp = (uv + n.scale(cos_theta)).scale(etai_over_etat);
    let r_out_parallel = n.scale(
        (Fixed::spec_from_int(1) - r_out_perp.spec_len_squared()).spec_abs().spec_sqrt().spec_neg(),
    );
    r_out_perp + r_out_parallel
}

/// Reflects `v` about the surface normal `n`: `v - 2 (v . n) n`.
pub fn reflect(v: Vec3, n: Vec3) -> (r: Vec3)
    ensures
        r == spec_reflect(v, n),
{
    v - n * (Fixed::from_int(2) * dot_product(v, n))
}

/// Refracts the unit vector `uv` at a surface with normal `n` by Snell's law.
pub fn refract(uv: Vec3, n: Vec3, etai_over_etat: Fixed) -> (r: Vec3)
    ensures
        r == spec_refract(uv, n, etai_over_etat),
{
    let cos_theta = dot_product(uv.neg(), n).min(Fixed::from_int(1));
    let r_out_perp = (uv + n * cos_theta) * etai_over_etat;
    let r_out_parallel = n * (Fixed::from_int(1) - r_out_perp.len_squared()).abs().sqrt().neg();
    r_out_perp + r_out_parallel
}

/// The cross product of two vectors.
pub fn cross_product(v1: Vec3, v2: Vec3) -> (r: Vec3)
    ensures
        r == spec_cross(v1, v2),
{
    Vec3 {
        x: v1.y * v2.z - v1.z * v2.y,
        y: v1.z * v2.x - v1.x * v2.z,
        z: v1.x * v2.y - v1.y * v2.x,
    }
}

/// The dot product of two vectors.
pub fn dot_product(v1: Vec3, v2: Vec3) -> (r: Fixed)
    ensures
        r == spec_dot(v1, v2),
{
    v1.x * v2.x + v1.y * v2.y + v1.z * v2.z
}

/// Whether a vector is of moderate size: its computed length is at least a
/// twentieth, and no component exceeds ten thousand in magnitude.
pub open spec fn is_moderate(v: Vec3) -> bool {
    &&& v.spec_len()@ >= 50_000_000
    &&& magnitude(v.x@) <= 10_000_000_000_000
    &&& magnitude(v.y@) <= 10_000_000_000_000
    &&& magnitude(v.z@) <= 10_000_000_000_000
}

/// Scales a vector to unit length. The computed length must not be zero. For
/// a vector of moderate size the result has length one to within a millionth.
pub fn unit_vector(v: Vec3) -> (r: Vec3)
    requires
        v.spec_len()@ != 0,
    ensures
        r == spec_unit(v),
        is_moderate(v) ==> SCALE - 1000 <= r.spec_len()@ <= SCALE + 1000,
{
    proof {
        if is_moderate(v) {
            lemma_unit_vector_length(v);
        }
    }
    let l = v.len();
    v / l
}

/// Scales a vector to unit length where that is possible: a vector whose
/// computed length is zero is returned unchanged.
pub fn normalized(v: Vec3) -> (r: Vec3)
    ensures
        r == spec_normalized(v),
{
    let l = v.len();
    if l.raw == 0 {
        v
    } else {
        v / l
    }
}

impl vstd::std_specs::ops::AddSpecImpl for Vec3 {
    open spec fn obeys_add_spec() -> bool {
        true
    }

    open spec fn add_req(self, rhs: Vec3) -> bool {
        true
    }

    open spec fn add_spec(self, rhs: Vec3) -> Vec3 {
        self.spec_add(rhs)
    }
}

impl core::ops::Add for Vec3 {
    type Output = Vec3;

    /// Component-wise sum.
    fn add(self, rhs: Vec3) -> (r: Vec3)
        ensures
            r == self.spec_add(rhs),
    {
        Vec3 { x: self.x + rhs.x, y: self.y + rhs.y, z: self.z + rhs.z }
    }
}

impl vstd::std_specs::ops::SubSpecImpl for Vec3 {
    open spec fn obeys_sub_spec() -> bool {
        true
    }

    open spec fn sub_req(self, rhs: Vec3) -> bool {
        true
    }

    open spec fn sub_spec(self, rhs: Vec3) -> Vec3 {
        self.spec_sub(rhs)
    }
}

impl core::ops::Sub for Vec3 {
    type Output = Vec3;

    /// Component-wise difference.
    fn sub(self, rhs: Vec3) -> (r: Vec3)
        ensures
            r == self.spec_sub(rhs),
    {
        Vec3 { x: self.x - rhs.x, y: self.y - rhs.y, z: self.z - rhs.z }
    }
}

impl vstd::std_specs::ops::NegSpecImpl for Vec3 {
    open spec fn obeys_neg_spec() -> bool {
        true
    }

    open spec fn neg_req(self) -> bool {
        true
    }

    open spec fn neg_spec(self) -> Vec3 {
        self.spec_neg()
    }
}

impl core::ops::Neg for Vec3 {
    type Output = Vec3;

    /// Component-wise negation.
    fn neg(self) -> (r: Vec3)
        ensures
            r == self.spec_neg(),
    {
        Vec3 { x: self.x.neg(), y: self.y.neg(), z: self.z.neg() }
    }
}

impl vstd::std_specs::ops::MulSpecImpl for Vec3 {
    open spec fn obeys_mul_spec() -> bool {
        true
    }

    open spec fn mul_req(self, rhs: Vec3) -> bool {
        true
    }

    open spec fn mul_spec(self, rhs: Vec3) -> Vec3 {
        self.spec_mul(rhs)
    }
}

impl core::ops::Mul for Vec3 {
    type Output = Vec3;

    /// Component-wise product.
    fn mul(self, rhs: Vec3) -> (r: Vec3)
        ensures
            r == self.spec_mul(rhs),
    {
        Vec3 { x: self.x * rhs.x, y: self.y * rhs.y, z: self.z * rhs.z }
    }
}

impl vstd::std_specs::ops::MulSpecImpl<Fixed> for Vec3 {
    open spec fn obeys_mul_spec() -> bool {
        true
    }

    open spec fn mul_req(self, rhs: Fixed) -> bool {
        true
    }

    open spec fn mul_spec(self, rhs: Fixed) -> Vec3 {
        self.scale(rhs)
    }
}

impl core::ops::Mul<Fixed> for Vec3 {
    type Output = Vec3;

    /// The vector with every component multiplied by `rhs`.
    fn mul(self, rhs: Fixed) -> (r: Vec3)
        ensures
            r == self.scale(rhs),
    {
        Vec3 { x: self.x * rhs, y: self.y * rhs, z: self.z * rhs }
    }
}

impl vstd::std_specs::ops::MulSpecImpl<Vec3> for Fixed {
    open spec fn obeys_mul_spec() -> bool {
        true
    }

    open spec fn mul_req(self, rhs: Vec3) -> bool {
        true
    }

    open spec fn mul_spec(self, rhs: Vec3) -> Vec3 {
        rhs.scale(self)
    }
}

impl core::ops::Mul<Vec3> for Fixed {
    type Output = Vec3;

    /// The vector `rhs` with every component multiplied by this number.
    fn mul(self, rhs: Vec3) -> (r: Vec3)
        ensures
            r == rhs.scale(self),
    {
        Vec3 { x: rhs.x * self, y: rhs.y * self, z: rhs.z * self }
    }
}

impl vstd::std_specs::ops::DivSpecImpl<Fixed> for Vec3 {
    open spec fn obeys_div_spec() -> bool {
        true
    }

    open spec fn div_req(self, rhs: Fixed) -> bool {
        rhs@ != 0
    }

    open spec fn div_spec(self, rhs: Fixed) -> Vec3 {
        self.shrink(rhs)
    }
}

impl core::ops::Div<Fixed> for Vec3 {
    type Output = Vec3;

    /// The vector with every component divided by `rhs`, which must not be
    /// zero.
    fn div(self, rhs: Fixed) -> (r: Vec3)
        ensures
            r == self.shrink(rhs),
    {
        Vec3 { x: self.x / rhs, y: self.y / rhs, z: self.z / rhs }
    }
}

impl core::ops::AddAssign<&Vec3> for Vec3 {
    /// Adds `rhs` to this vector in place.
    fn add_assign(&mut self, rhs: &Vec3)
        ensures
            *final(self) == *old(self) + *rhs,
    {
        self.x = self.x + rhs.x;
        self.y = self.y + rhs.y;
        self.z = self.z + rhs.z;
    }
}

impl core::ops::MulAssign<Fixed> for Vec3 {
    /// Multiplies every component by `rhs` in place.
    fn mul_assign(&mut self, rhs: Fixed)
        ensures
            *final(self) == old(self).scale(rhs),
    {
        self.x = self.x * rhs;
        self.y = self.y * rhs;
        self.z = self.z * rhs;
    }
}

impl core::ops::DivAssign<Fixed> for Vec3 {
    /// Divides every component by `rhs` in place; `rhs` must not be zero.
    fn div_assign(&mut self, rhs: Fixed)
        requires
            rhs@ != 0,
        ensures
            *final(self) == old(self).shrink(rhs),
    {
        self.x = self.x / rhs;
        self.y = self.y / rhs;
        self.z = self.z / rhs;
    }
}

/// The magnitude of an integer.
pub open spec fn magnitude(i: int) -> int {
    if i < 0 {
        -i
    } else {
        i
    }
}

/// Squaring keeps the order of non-negative integers.
proof fn lemma_square_monotone(a: int, b: int)
    requires
        0 <= a <= b,
    ensures
        a * a <= b * b,
{
    assert(a * a <= b * b) by (nonlinear_arith)
        requires
            0 <= a <= b,
    ;
}

/// A quotient, multiplied back, brackets the dividend.
proof fn lemma_quotient_brackets(n: int, d: int)
    requires
        n >= 0,
        d > 0,
    ensures
        0 <= n / d,
        (n / d) * d <= n < (n / d + 1) * d,
{
    vstd::arithmetic::div_mod::lemma_fundamental_div_mod(n, d);
    vstd::arithmetic::div_mod::lemma_mod_bound(n, d);
    vstd::arithmetic::div_mod::lemma_div_pos_is_pos(n, d);
    assert((n / d + 1) * d == (n / d) * d + d) by (nonlinear_arith);
    assert(d * (n / d) == (n / d) * d) by (nonlinear_arith);
}

/// One component of a vector, divided by the vector's length `l`: the
/// quotient `m` is at most a little over one, and its square, scaled by the
/// square of the length, lies close under the square of the scaled component.
proof fn lemma_component(a: int, l: int, m: int)
    requires
        0 <= a <= l + 31,
        l >= 50_000_000,
        m == (a * 1_000_000_000) / l,
    ensures
        0 <= m <= 1_000_000_620,
        (m * l) * (m * l) <= (a * 1_000_000_000) * (a * 1_000_000_000),
        (m * l) * (m * l) >= (a * 1_000_000_000) * (a * 1_000_000_000) - 2 * (a * 1_000_000_000)
            * l,
{
    let n = a * 1_000_000_000;
    lemma_quotient_brackets(n, l);
    assert(0 <= m * l) by (nonlinear_arith)
        requires
            0 <= m,
            0 < l,
    ;
    if m > 1_000_000_620 {
        assert(m * l >= 1_000_000_621 * l) by (nonlinear_arith)
            requires
                m >= 1_000_000_621,
                l > 0,
        ;
    }
    lemma_square_monotone(m * l, n);
    if n >= l {
        assert((m + 1) * l == m * l + l) by (nonlinear_arith);
        lemma_square_monotone(n - l, m * l);
        assert((n - l) * (n - l) == n * n - 2 * n * l + l * l) by (nonlinear_arith);
        assert(l * l >= 0) by (nonlinear_arith);
    } else {
        assert(n * n - 2 * n * l <= 0) by (nonlinear_arith)
            requires
                0 <= n < l,
        ;
        assert((m * l) * (m * l) >= 0) by (nonlinear_arith);
    }
}

/// A vector of moderate size, scaled to unit length, has length one to
/// within a millionth.
pub proof fn lemma_unit_vector_length(v: Vec3)
    requires
        is_moderate(v),
    ensures
        SCALE - 1000 <= spec_unit(v).spec_len()@ <= SCALE + 1000,
{
    let s: int = 1_000_000_000;
    let ax = magnitude(v.x@);
    let ay = magnitude(v.y@);
    let az = magnitude(v.z@);
    // The squared length is the sum of the squares, each rounded down.
    assert(ax * ax == v.x@ * v.x@ && ay * ay == v.y@ * v.y@ && az * az == v.z@ * v.z@)
        by (nonlinear_arith)
        requires
            ax == magnitude(v.x@),
            ay == magnitude(v.y@),
            az == magnitude(v.z@),
    ;
    lemma_square_monotone(ax, 10_000_000_000_000);
    lemma_square_monotone(ay, 10_000_000_000_000);
    lemma_square_monotone(az, 10_000_000_000_000);
    assert(ax * ax >= 0 && ay * ay >= 0 && az * az >= 0) by (nonlinear_arith);
    let n2 = ax * ax + ay * ay + az * az;
    let q = (ax * ax) / s + (ay * ay) / s + (az * az) / s;
    assert(v.spec_len_squared()@ == q);
    assert(s * q <= n2 < s * q + 3 * s);
    // Its root is the length.
    lemma_sqrt_value(v.spec_len_squared());
    let l = v.spec_len()@;
    assert(is_floor_sqrt(q * s, l));
    assert(l * l <= n2);
    assert(n2 < (l + 1) * (l + 1) + 3 * s);
    // No component is much longer than the vector.
    assert((l + 32) * (l + 32) >= (l + 1) * (l + 1) + 3 * s) by (nonlinear_arith)
        requires
            l >= 50_000_000,
            s == 1_000_000_000,
    ;
    if ax >= l + 32 {
        lemma_square_monotone(l + 32, ax);
    }
    if ay >= l + 32 {
        lemma_square_monotone(l + 32, ay);
    }
    if az >= l + 32 {
        lemma_square_monotone(l + 32, az);
    }
    // The components of the unit vector.
    let mx = (ax * s) / l;
    let my = (ay * s) / l;
    let mz = (az * s) / l;
    lemma_component(ax, l, mx);
    lemma_component(ay, l, my);
    lemma_component(az, l, mz);
    let unit = spec_unit(v);
    assert(v.x@ * s == if v.x@ >= 0 { ax * s } else { -(ax * s) });
    assert(v.y@ * s == if v.y@ >= 0 { ay * s } else { -(ay * s) });
    assert(v.z@ * s == if v.z@ >= 0 { az * s } else { -(az * s) });
    assert(ax * s >= 0 && ay * s >= 0 && az * s >= 0);
    assert(magnitude(unit.x@) == mx);
    assert(magnitude(unit.y@) == my);
    assert(magnitude(unit.z@) == mz);
    assert(unit.x@ * unit.x@ == mx * mx && unit.y@ * unit.y@ == my * my && unit.z@ * unit.z@
        == mz * mz) by (nonlinear_arith)
        requires
            magnitude(unit.x@) == mx,
            magnitude(unit.y@) == my,
            magnitude(unit.z@) == mz,
    ;
    lemma_square_monotone(mx, 1_000_000_620);
    lemma_square_monotone(my, 1_000_000_620);
    lemma_square_monotone(mz, 1_000_000_620);
    assert(mx * mx >= 0 && my * my >= 0 && mz * mz >= 0) by (nonlinear_arith);
    let u2 = mx * mx + my * my + mz * mz;
    let q2 = (mx * mx) / s + (my * my) / s + (mz * mz) / s;
    assert(unit.spec_len_squared()@ == q2);
    assert(s * q2 <= u2 < s * q2 + 3 * s);
    lemma_sqrt_value(unit.spec_len_squared());
    let l2 = unit.spec_len()@;
    assert(is_floor_sqrt(q2 * s, l2));
    // Scaled by the squared length, the squared length of the unit vector
    // lies close under the squared length of the vector, scaled by a billion
    // squared.
    let ll = l * l;
    assert(ll > 0) by (nonlinear_arith)
        requires
            ll == l * l,
            l >= 50_000_000,
    ;
    assert((mx * l) * (mx * l) == mx * mx * ll && (my * l) * (my * l) == my * my * ll && (mz * l)
        * (mz * l) == mz * mz * ll) by (nonlinear_arith)
        requires
            ll == l * l,
    ;
    assert(u2 * ll == mx * mx * ll + my * my * ll + mz * mz * ll) by (nonlinear_arith)
        requires
            u2 == mx * mx + my * my + mz * mz,
    ;
    let ss = s * s;
    assert((ax * s) * (ax * s) == ax * ax * ss && (ay * s) * (ay * s) == ay * ay * ss && (az * s)
        * (az * s) == az * az * ss) by (nonlinear_arith)
        requires
            ss == s * s,
    ;
    assert(n2 * ss == ax * ax * ss + ay * ay * ss + az * az * ss) by (nonlinear_arith)
        requires
            n2 == ax * ax + ay * ay + az * az,
    ;
    assert(u2 * ll <= n2 * ss);
    // From above.
    assert(n2 * ss < ((l + 1) * (l + 1) + 3 * s) * ss) by (nonlinear_arith)
        requires
            n2 < (l + 1) * (l + 1) + 3 * s,
            ss == 1_000_000_000_000_000_000,
    ;
    assert(((l + 1) * (l + 1) + 3 * s) * ss <= 1_000_001_001 * 1_000_001_001 * ll)
        by (nonlinear_arith)
        requires
            l >= 50_000_000,
            s == 1_000_000_000,
            ss == 1_000_000_000_000_000_000,
            ll == l * l,
    ;
    assert(u2 < 1_000_001_001 * 1_000_001_001) by (nonlinear_arith)
        requires
            u2 * ll < 1_000_001_001 * 1_000_001_001 * ll,
            ll > 0,
    ;
    if l2 >= 1_000_001_001 {
        lemma_square_monotone(1_000_001_001, l2);
    }
    // From below.
    assert(2 * (ax * s) * l + 2 * (ay * s) * l + 2 * (az * s) * l <= 6 * s * l * (l + 31))
        by (nonlinear_arith)
        requires
            0 <= ax <= l + 31,
            0 <= ay <= l + 31,
            0 <= az <= l + 31,
            l > 0,
            s > 0,
    ;
    assert(n2 * ss >= ll * ss) by (nonlinear_arith)
        requires
            n2 >= ll,
            ss > 0,
    ;
    assert(u2 * ll >= ll * ss - 6 * s * l * (l + 31));
    assert(ll * ss - 6 * s * l * (l + 31) >= (ss - 7 * s) * ll) by (nonlinear_arith)
        requires
            l >= 50_000_000,
            s == 1_000_000_000,
            ll == l * l,
    ;
    assert(u2 >= ss - 7 * s) by (nonlinear_arith)
        requires
            u2 * ll >= (ss - 7 * s) * ll,
            ll > 0,
    ;
    assert(q2 * s >= 999_999_000 * 999_999_000);
    if l2 < 999_999_000 {
        lemma_square_monotone(l2 + 1, 999_999_000);
    }
}

} // verus!
