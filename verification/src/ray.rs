//! Rays, and the colour that arrives along one.

use crate::fixed::{lemma_mul_one, lemma_mul_zero, Fixed, SCALE};
use crate::hittable::{hit, lemma_world_missed, nearest_hit, points_away, Hittable};
use crate::material::is_scatter;
use crate::vec3::{normalized, spec_normalized, Color, Point3, Vec3};
use rand::rngs::StdRng;
use vstd::prelude::*;

verus! {

/// A half-line: the points `origin + t * direction`.
#[derive(Clone, Copy, Debug, PartialEq, Eq, Structural)]
pub struct Ray {
    pub origin: Point3,
    pub direction: Vec3,
}

/// White: the colour at the lower end of the sky's gradient.
pub open spec fn spec_white() -> Color {
    Vec3 { x: Fixed::of(SCALE as int), y: Fixed::of(SCALE as int), z: Fixed::of(SCALE as int) }
}

/// Light blue: the colour of the sky straight above.
pub open spec fn spec_sky_blue() -> Color {
    Vec3 { x: Fixed::of(500_000_000), y: Fixed::of(700_000_000), z: Fixed::of(SCALE as int) }
}

/// The colour of the sky in a direction: a blend from white, where the
/// normalised direction points straight down, to blue, where it points
/// straight up.
pub open spec fn spec_background(direction: Vec3) -> Color {
    let unit_direction = spec_normalized(direction);
    let t = Fixed::spec_from_ratio(1, 2) * (unit_direction.y + Fixed::spec_from_int(1));
    spec_white().scale(Fixed::spec_from_int(1) - t) + spec_sky_blue().scale(t)
}

/// The colour of the sky in the given direction.
pub fn background(direction: Vec3) -> (c: Color)
    ensures
        c == spec_background(direction),
{
    let unit_direction = normalized(direction);
    let t = Fixed::from_ratio(1, 2) * (unit_direction.y + Fixed::from_int(1));
    let white = Vec3 { x: Fixed::one(), y: Fixed::one(), z: Fixed::one() };
    let blue = Vec3 { x: Fixed::from_ratio(1, 2), y: Fixed::from_ratio(7, 10), z: Fixed::one() };
    (Fixed::from_int(1) - t) * white + t * blue
}

/// The smallest ray parameter at which a hit counts: one thousandth. It keeps
/// a scattered ray from hitting the surface that it leaves.
pub open spec fn spec_shadow_epsilon() -> Fixed {
    Fixed::of(1_000_000)
}

/// The light that a scatter passes on: none if the ray was absorbed, else the
/// light `inner` that arrives along the scattered ray, attenuated.
pub open spec fn shade(scatter: Option<(Color, Ray)>, inner: Color) -> Color {
    match scatter {
        None => Vec3::spec_zero(),
        Some(pair) => pair.0 * inner,
    }
}

/// Whether `c` is a colour that can arrive along the ray when at most `depth`
/// bounces are followed:
/// black when no bounce is left; the sky's colour when the ray hits nothing;
/// else, for some scatter that the material at the nearest hit can produce,
/// black if the ray is absorbed and otherwise the attenuated colour that can
/// arrive along the scattered ray with one bounce fewer.
pub open spec fn is_color(ray: Ray, world: Seq<Hittable>, depth: int, c: Color) -> bool
    decreases depth,
{
    if depth <= 0 {
        c == Vec3::spec_zero()
    } else {
        match nearest_hit(world, ray, spec_shadow_epsilon(), Fixed::of(i64::MAX as int)) {
            None => c == spec_background(ray.direction),
            Some(h) => exists|scatter: Option<(Color, Ray)>, inner: Color|
                {
                    &&& is_scatter(h.material, ray, h, scatter)
                    &&& scatter matches Some(pair) ==> is_color(pair.1, world, depth - 1, inner)
                    &&& c == #[trigger] shade(scatter, inner)
                },
        }
    }
}

impl Ray {
    /// The point of the ray at parameter `t`.
    pub open spec fn spec_at(&self, t: Fixed) -> Point3 {
        self.origin + self.direction.scale(t)
    }

    /// The point of the ray at parameter `t`.
    pub fn at(&self, t: Fixed) -> (p: Point3)
        ensures
            p == self.spec_at(t),
    {
        self.origin + (t * self.direction)
    }

    /// Estimates the light that arrives along the ray from the world,
    /// following at most `depth` bounces. With no bounce left the result is
    /// black; a ray that hits nothing sees the sky.
    pub fn color(&self, world: &[Hittable], depth: i32, rng: &mut StdRng) -> (c: Color)
        ensures
            is_color(*self, world@, depth as int, c),
            depth <= 0 ==> c == Vec3::spec_zero(),
            depth > 0 && nearest_hit(
                world@,
                *self,
                spec_shadow_epsilon(),
                Fixed::of(i64::MAX as int),
            ) is None ==> c == spec_background(self.direction),
        decreases depth,
    {
        if depth <= 0 {
            return Vec3::zero();
        }
        if let Some(rec) = hit(world, self, Fixed { raw: 1_000_000 }, Fixed::max_value()) {
            let scatter = rec.material.scatter(self, &rec, rng);
            if let Some(pair) = scatter {
                let inner = pair.1.color(world, depth - 1, rng);
                let c = pair.0 * inner;
                assert(c == shade(scatter, inner));
                return c;
            } else {
                assert(Vec3::spec_zero() == shade(scatter, Vec3::spec_zero()));
                return Vec3::zero();
            }
        }
        background(self.direction)
    }
}

/// A ray that starts outside every sphere and points away from each of them
/// sees the sky: with a bounce to spare, the only colour that can arrive along
/// it is the background's.
pub proof fn lemma_color_of_miss(ray: Ray, world: Seq<Hittable>, depth: int, c: Color)
    requires
        depth > 0,
        forall|i: int|
            0 <= i < world.len() ==> (#[trigger] world[i] matches Hittable::Sphere(sphere)
                ==> points_away(sphere, ray)),
        is_color(ray, world, depth, c),
    ensures
        nearest_hit(world, ray, spec_shadow_epsilon(), Fixed::of(i64::MAX as int)) is None,
        c == spec_background(ray.direction),
{
    lemma_world_missed(world, ray, spec_shadow_epsilon(), Fixed::of(i64::MAX as int));
}

/// With no bounce left, the only colour that can arrive is black, whatever
/// the world holds.
pub proof fn lemma_color_without_depth(ray: Ray, world: Seq<Hittable>, depth: int, c: Color)
    requires
        depth <= 0,
        is_color(ray, world, depth, c),
    ensures
        c == Vec3::spec_zero(),
{
}

/// A ray starts at its origin and reaches `origin + direction` at parameter
/// one.
pub proof fn lemma_at_zero_and_one(ray: Ray)
    ensures
        ray.spec_at(Fixed::spec_from_int(0)) == ray.origin,
        ray.spec_at(Fixed::spec_from_int(1)) == ray.origin + ray.direction,
{
    let d = ray.direction;
    let zero = Fixed::spec_from_int(0);
    let one = Fixed::spec_from_int(1);
    lemma_mul_zero(d.x, zero);
    lemma_mul_zero(d.y, zero);
    lemma_mul_zero(d.z, zero);
    lemma_mul_one(d.x, one);
    lemma_mul_one(d.y, one);
    lemma_mul_one(d.z, one);
}

} // verus!
