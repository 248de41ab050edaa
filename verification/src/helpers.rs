//! Random sampling and small numeric helpers.
//!
//! All randomness enters through one generator that the caller owns. Each
//! sampling function is split in two: a deterministic part that turns raw
//! draws into a sample, and a thin part that makes the draws.

use crate::fixed::{lemma_mul_zero, Fixed, SCALE};
use crate::vec3::{dot_product, spec_dot, spec_normalized, normalized, Vec3};
use core::ops::Neg;
use rand::rngs::StdRng;
use rand::RngCore;
use vstd::prelude::*;

verus! {

/// The generator of `rand`; its state is opaque here.
#[verifier::external_type_specification]
#[verifier::external_body]
pub struct ExStdRng(rand::rngs::StdRng);

/// How many candidates a rejection sampler tries before it gives up.
pub const REJECTION_LIMIT: u32 = 64;

/// Draws the next 32 bits from the generator, by `RngCore::next_u32`. Nothing
/// is claimed of the value drawn.
#[verifier::external_body]
fn next_bits(rng: &mut StdRng) -> (bits: u32) {
    rng.next_u32()
}

/// Whether `t` lies in the half-open interval from zero to one.
pub open spec fn is_fraction(t: Fixed) -> bool {
    0 <= t@ < SCALE
}

/// The fraction that the upper 24 of 32 bits stand for.
pub open spec fn spec_fraction(bits: u32) -> Fixed {
    Fixed::of((bits / 256) * SCALE / 0x100_0000)
}

/// The point that lies the fraction `t` of the way from `min` to `max`.
pub open spec fn spec_between(min: Fixed, max: Fixed, t: Fixed) -> Fixed {
    min + (max - min) * t
}

/// Whether `r` is some fraction of the way from `min` to `max`.
pub open spec fn is_between(min: Fixed, max: Fixed, r: Fixed) -> bool {
    exists|t: Fixed| is_fraction(t) && r == #[trigger] spec_between(min, max, t)
}

/// Whether each component of `v` is some fraction of the way from minus one
/// to one.
pub open spec fn is_in_cube(v: Vec3) -> bool {
    &&& is_between(Fixed::spec_from_int(-1), Fixed::spec_from_int(1), v.x)
    &&& is_between(Fixed::spec_from_int(-1), Fixed::spec_from_int(1), v.y)
    &&& is_between(Fixed::spec_from_int(-1), Fixed::spec_from_int(1), v.z)
}

/// Whether `v` lies strictly inside the unit sphere.
pub open spec fn in_unit_sphere(v: Vec3) -> bool {
    v.spec_len_squared()@ < SCALE
}

/// Whether `v` lies strictly inside the unit disk of the plane `z = 0`.
pub open spec fn in_unit_disk(v: Vec3) -> bool {
    v.z@ == 0 && in_unit_sphere(v)
}

/// `v`, turned around if it does not point into the half-space of `normal`.
pub open spec fn spec_toward(v: Vec3, normal: Vec3) -> Vec3 {
    if spec_dot(v, normal)@ > 0 {
        v
    } else {
        v.spec_neg()
    }
}

/// `x` limited to the interval from `min` to `max`.
pub open spec fn spec_clamp(x: Fixed, min: Fixed, max: Fixed) -> Fixed {
    if x < min {
        min
    } else if x > max {
        max
    } else {
        x
    }
}

/// The ratio of a circle's circumference to its diameter, to nine places.
pub open spec fn spec_pi() -> Fixed {
    Fixed::of(3_141_592_654)
}

/// An angle in degrees, converted to radians.
pub open spec fn spec_degrees_to_radians(degrees: Fixed) -> Fixed {
    (degrees * spec_pi()).spec_div(Fixed::spec_from_int(180))
}

/// Whether `x` lies within `d` of `y`.
pub open spec fn spec_approximate_equals(x: Fixed, y: Fixed, d: Fixed) -> bool {
    y - d <= x && x <= y + d
}

/// A point between `min` and `max` stays between them.
pub proof fn lemma_between_bounds(min: Fixed, max: Fixed, t: Fixed)
    requires
        is_fraction(t),
        min <= max,
    ensures
        min <= spec_between(min, max, t),
        spec_between(min, max, t) <= max,
{
    let width = (max - min)@;
    assert(0 <= width * t@ <= width * SCALE) by (nonlinear_arith)
        requires
            0 <= width,
            0 <= t@ < SCALE,
    ;
}

/// The centre of the unit sphere lies inside it, and inside the unit disk.
pub proof fn lemma_centre_inside()
    ensures
        in_unit_sphere(Vec3::spec_zero()),
        in_unit_disk(Vec3::spec_zero()),
{
    let zero = Fixed::of(0);
    lemma_mul_zero(zero, zero);
}

/// Converts an angle in degrees to radians.
pub fn degrees_to_radians(degrees: Fixed) -> (r: Fixed)
    ensures
        r == spec_degrees_to_radians(degrees),
{
    (degrees * Fixed { raw: 3_141_592_654 }) / Fixed::from_int(180)
}

/// Turns 32 random bits into a fraction, keeping the upper 24 of them.
pub fn fraction_from_bits(bits: u32) -> (r: Fixed)
    ensures
        r == spec_fraction(bits),
        is_fraction(r),
{
    let kept: i64 = (bits / 256) as i64;
    Fixed { raw: kept * SCALE / 0x100_0000 }
}

/// A random number, uniform over the 2^24 fractions in `[0, 1)`.
pub fn random_f32(rng: &mut StdRng) -> (r: Fixed)
    ensures
        is_fraction(r),
        exists|bits: u32| r == #[trigger] spec_fraction(bits),
{
    let bits = next_bits(rng);
    fraction_from_bits(bits)
}

/// The point that lies the fraction `t` of the way from `min` to `max`.
pub fn between(min: Fixed, max: Fixed, t: Fixed) -> (r: Fixed)
    ensures
        r == spec_between(min, max, t),
{
    min + (max - min) * t
}

/// A random number between `min` and `max`.
pub fn random_f32_in_range(min: Fixed, max: Fixed, rng: &mut StdRng) -> (r: Fixed)
    ensures
        is_between(min, max, r),
        min <= max ==> min <= r && r <= max,
{
    let t = random_f32(rng);
    proof {
        if min <= max {
            lemma_between_bounds(min, max, t);
        }
    }
    between(min, max, t)
}

/// A random vector whose components each lie between `min` and `max`.
pub fn random_vec3(min: Fixed, max: Fixed, rng: &mut StdRng) -> (v: Vec3)
    ensures
        is_between(min, max, v.x),
        is_between(min, max, v.y),
        is_between(min, max, v.z),
        min <= max ==> min <= v.x && v.x <= max,
        min <= max ==> min <= v.y && v.y <= max,
        min <= max ==> min <= v.z && v.z <= max,
{
    let x = random_f32_in_range(min, max, rng);
    let y = random_f32_in_range(min, max, rng);
    let z = random_f32_in_range(min, max, rng);
    Vec3 { x, y, z }
}

/// A random point strictly inside the unit sphere, found by rejection: points
/// of the enclosing cube are drawn until one falls inside. After
/// `REJECTION_LIMIT` rejected candidates the centre is returned.
pub fn random_in_unit_sphere(rng: &mut StdRng) -> (v: Vec3)
    ensures
        in_unit_sphere(v),
        exists|candidates: Seq<Vec3>|
            is_rejection_run(candidates) && are_in_cube(candidates) && v
                == #[trigger] spec_accepted(candidates),
{
    let mut tries: u32 = 0;
    let ghost mut drawn: Seq<Vec3> = Seq::empty();
    while tries < REJECTION_LIMIT
        invariant
            tries <= REJECTION_LIMIT,
            drawn.len() == tries,
            are_in_cube(drawn),
            forall|k: int| 0 <= k < drawn.len() ==> !in_unit_sphere(#[trigger] drawn[k]),
        decreases REJECTION_LIMIT - tries,
    {
        let v = random_vec3(Fixed::from_int(-1), Fixed::from_int(1), rng);
        proof {
            drawn = drawn.push(v);
        }
        if v.len_squared().raw < SCALE {
            assert(v == spec_accepted(drawn));
            return v;
        }
        tries = tries + 1;
    }
    proof {
        lemma_centre_inside();
        assert(Vec3::spec_zero() == spec_accepted(drawn));
    }
    Vec3::zero()
}

/// A random point strictly inside the unit disk of the plane `z = 0`, found
/// by rejection: points of the enclosing square are drawn until one falls
/// inside. After `REJECTION_LIMIT` rejected candidates the centre is
/// returned.
pub fn random_in_unit_disk(rng: &mut StdRng) -> (v: Vec3)
    ensures
        in_unit_disk(v),
        exists|candidates: Seq<Vec3>|
            is_rejection_run(candidates) && are_in_square(candidates) && v
                == #[trigger] spec_accepted(candidates),
{
    let mut tries: u32 = 0;
    let ghost mut drawn: Seq<Vec3> = Seq::empty();
    while tries < REJECTION_LIMIT
        invariant
            tries <= REJECTION_LIMIT,
            drawn.len() == tries,
            are_in_square(drawn),
            forall|k: int| 0 <= k < drawn.len() ==> !in_unit_sphere(#[trigger] drawn[k]),
        decreases REJECTION_LIMIT - tries,
    {
        let x = random_f32_in_range(Fixed::from_int(-1), Fixed::from_int(1), rng);
        let y = random_f32_in_range(Fixed::from_int(-1), Fixed::from_int(1), rng);
        let v = Vec3 { x, y, z: Fixed::zero() };
        proof {
            drawn = drawn.push(v);
        }
        if v.len_squared().raw < SCALE {
            assert(v == spec_accepted(drawn));
            return v;
        }
        tries = tries + 1;
    }
    proof {
        lemma_centre_inside();
        assert(Vec3::spec_zero() == spec_accepted(drawn));
    }
    Vec3::zero()
}

/// A random direction: a point of the unit sphere, scaled to unit length
/// where its length allows.
pub fn random_unit_vector(rng: &mut StdRng) -> (v: Vec3)
    ensures
        exists|s: Vec3| in_unit_sphere(s) && v == #[trigger] spec_normalized(s),
{
    let s = random_in_unit_sphere(rng);
    normalized(s)
}

/// Turns `v` around if it does not point into the half-space of `normal`.
pub fn toward(v: Vec3, normal: Vec3) -> (r: Vec3)
    ensures
        r == spec_toward(v, normal),
{
    if dot_product(v, normal).raw > 0 {
        v
    } else {
        v.neg()
    }
}

/// A random point of the unit sphere that lies in the half-space of `normal`.
pub fn random_in_hemisphere(normal: Vec3, rng: &mut StdRng) -> (v: Vec3)
    ensures
        exists|s: Vec3| in_unit_sphere(s) && v == #[trigger] spec_toward(s, normal),
{
    let s = random_in_unit_sphere(rng);
    toward(s, normal)
}

/// Limits `x` to the interval from `min` to `max`.
pub fn clamp(x: Fixed, min: Fixed, max: Fixed) -> (r: Fixed)
    ensures
        r == spec_clamp(x, min, max),
{
    if x.raw < min.raw {
        return min;
    } else if x.raw > max.raw {
        return max;
    } else {
        return x;
    }
}

/// Whether `x` lies within `d` of `y`.
pub fn approximate_equals(x: Fixed, y: Fixed, d: Fixed) -> (r: bool)
    ensures
        r == spec_approximate_equals(x, y, d),
{
    (y - d).raw <= x.raw && x.raw <= (y + d).raw
}

/// Whether `v` is a point of the square that encloses the unit disk of the
/// plane `z = 0`: its first two components are each some fraction of the way
/// from minus one to one, and the third is zero.
pub open spec fn is_in_square(v: Vec3) -> bool {
    &&& is_between(Fixed::spec_from_int(-1), Fixed::spec_from_int(1), v.x)
    &&& is_between(Fixed::spec_from_int(-1), Fixed::spec_from_int(1), v.y)
    &&& v.z@ == 0
}

/// Whether every candidate is a point of the cube that encloses the unit
/// sphere.
pub open spec fn are_in_cube(candidates: Seq<Vec3>) -> bool {
    forall|k: int| 0 <= k < candidates.len() ==> is_in_cube(#[trigger] candidates[k])
}

/// Whether every candidate is a point of the square that encloses the unit
/// disk.
pub open spec fn are_in_square(candidates: Seq<Vec3>) -> bool {
    forall|k: int| 0 <= k < candidates.len() ==> is_in_square(#[trigger] candidates[k])
}

/// Whether `candidates` are the draws of one run of a rejection sampler, in
/// the order drawn: at least one and at most `REJECTION_LIMIT` of them, each
/// but the last one outside the unit sphere, and the last one inside it
/// unless the limit was reached.
pub open spec fn is_rejection_run(candidates: Seq<Vec3>) -> bool {
    &&& 0 < candidates.len() <= REJECTION_LIMIT
    &&& forall|k: int|
        0 <= k < candidates.len() - 1 ==> !in_unit_sphere(#[trigger] candidates[k])
    &&& candidates.len() == REJECTION_LIMIT || in_unit_sphere(candidates.last())
}

/// What a run of a rejection sampler returns: its last candidate if that
/// lies inside the unit sphere, and the centre if it was rejected too.
pub open spec fn spec_accepted(candidates: Seq<Vec3>) -> Vec3
    recommends
        candidates.len() > 0,
{
    if in_unit_sphere(candidates.last()) {
        candidates.last()
    } else {
        Vec3::spec_zero()
    }
}

} // verus!
