//! Surface materials: how a surface attenuates and redirects a ray that
//! hits it.

use crate::fixed::{Fixed, SCALE};
use crate::helpers::{
    clamp, in_unit_sphere, is_fraction, lemma_centre_inside, random_f32, random_in_unit_sphere,
    spec_clamp, spec_toward, toward,
};
use crate::hittable::HitRecord;
use crate::ray::{spec_white, Ray};
use crate::vec3::{
    dot_product, normalized, reflect, refract, spec_dot, spec_normalized, spec_reflect,
    spec_refract, Color, Vec3,
};
use core::ops::Neg;
use rand::rngs::StdRng;
use vstd::prelude::*;

verus! {

/// A diffuse surface.
#[derive(Clone, Copy, Debug, PartialEq, Eq, Structural)]
pub struct Lambertian {
    /// The fraction of light reflected, per colour channel.
    pub albedo: Color,
}

/// A mirror-like surface.
#[derive(Clone, Copy, Debug, PartialEq, Eq, Structural)]
pub struct Metal {
    /// The fraction of light reflected, per colour channel.
    pub albedo: Color,
    /// Roughness; values outside `[0, 1]` are clamped where it is used.
    pub fuzz: Fixed,
}

/// A clear refracting medium such as glass.
#[derive(Clone, Copy, Debug, PartialEq, Eq, Structural)]
pub struct Dielectric {
    /// The refractive index.
    pub ir: Fixed,
}

/// The material of a surface.
#[derive(Clone, Copy, Debug, PartialEq, Eq, Structural)]
pub enum Material {
    Lambertian(Lambertian),
    Metal(Metal),
    Dielectric(Dielectric),
}

impl Lambertian {
    /// The scatter that the sample `sample` of the unit sphere leads to: the
    /// ray leaves the hit point along the normal plus the sample's direction,
    /// turned into the normal's hemisphere, or along the normal alone where
    /// that sum is nearly zero.
    pub open spec fn spec_scatter(&self, hit: HitRecord, sample: Vec3) -> (Color, Ray) {
        let candidate = hit.normal + spec_toward(spec_normalized(sample), hit.normal);
        let direction = if candidate.spec_near_zero() {
            hit.normal
        } else {
            candidate
        };
        (self.albedo, Ray { origin: hit.p, direction })
    }

    /// Scatters diffusely, given a sample of the unit sphere.
    pub fn scatter_with(&self, hit: &HitRecord, sample: Vec3) -> (r: (Color, Ray))
        ensures
            r == self.spec_scatter(*hit, sample),
            r.0 == self.albedo,
            r.1.origin == hit.p,
    {
        let mut scatter_direction = hit.normal + toward(normalized(sample), hit.normal);
        if scatter_direction.near_zero() {
            scatter_direction = hit.normal;
        }
        (self.albedo, Ray { origin: hit.p, direction: scatter_direction })
    }

    /// Scatters diffusely in a random direction. The ray is never absorbed,
    /// and its attenuation is the albedo.
    pub fn scatter(&self, ray: &Ray, hit: &HitRecord, rng: &mut StdRng) -> (r: Option<
        (Color, Ray),
    >)
        ensures
            exists|s: Vec3| in_unit_sphere(s) && r == Some(#[trigger] self.spec_scatter(*hit, s)),
            r matches Some(pair) && pair.0 == self.albedo && pair.1.origin == hit.p,
    {
        let sample = random_in_unit_sphere(rng);
        Some(self.scatter_with(hit, sample))
    }
}

impl Metal {
    /// The scatter that the sample `sample` of the unit sphere leads to: the
    /// mirror direction, perturbed by the sample scaled with the roughness;
    /// absorbed if that points into the surface.
    pub open spec fn spec_scatter(&self, ray: Ray, hit: HitRecord, sample: Vec3) -> Option<
        (Color, Ray),
    > {
        let reflected = spec_reflect(spec_normalized(ray.direction), hit.normal);
        let fuzz = spec_clamp(self.fuzz, Fixed::spec_from_int(0), Fixed::spec_from_int(1));
        let scattered = Ray { origin: hit.p, direction: reflected + sample.scale(fuzz) };
        if spec_dot(scattered.direction, hit.normal)@ > 0 {
            Some((self.albedo, scattered))
        } else {
            None
        }
    }

    /// Reflects with roughness, given a sample of the unit sphere.
    pub fn scatter_with(&self, ray: &Ray, hit: &HitRecord, sample: Vec3) -> (r: Option<
        (Color, Ray),
    >)
        ensures
            r == self.spec_scatter(*ray, *hit, sample),
    {
        let reflected = reflect(normalized(ray.direction), hit.normal);
        let fuzz = clamp(self.fuzz, Fixed::from_int(0), Fixed::from_int(1));
        let scattered = Ray { origin: hit.p, direction: reflected + fuzz * sample };
        if dot_product(scattered.direction, hit.normal).raw > 0 {
            Some((self.albedo, scattered))
        } else {
            None
        }
    }

    /// Reflects with random roughness.
    pub fn scatter(&self, ray: &Ray, hit: &HitRecord, rng: &mut StdRng) -> (r: Option<
        (Color, Ray),
    >)
        ensures
            exists|s: Vec3| in_unit_sphere(s) && r == #[trigger] self.spec_scatter(*ray, *hit, s),
            r matches Some(pair) ==> pair.0 == self.albedo && pair.1.origin == hit.p,
    {
        let sample = random_in_unit_sphere(rng);
        self.scatter_with(ray, hit, sample)
    }
}

impl Dielectric {
    /// Schlick's approximation of the share of light that is reflected.
    pub open spec fn spec_reflectance(cosine: Fixed, ref_idx: Fixed) -> Fixed {
        let one = Fixed::spec_from_int(1);
        let r0 = (one - ref_idx).spec_saturating_div(one + ref_idx);
        let r0 = r0 * r0;
        r0 + (one - r0) * (one - cosine).spec_pow5()
    }

    /// The ratio of the refractive indices on the two sides of the surface,
    /// as the ray meets them.
    pub open spec fn spec_refraction_ratio(&self, hit: HitRecord) -> Fixed {
        if hit.front_face {
            Fixed::spec_from_int(1).spec_saturating_div(self.ir)
        } else {
            self.ir
        }
    }

    /// The cosine of the angle between the incoming ray and the normal,
    /// limited to one.
    pub open spec fn spec_cos_theta(ray: Ray, hit: HitRecord) -> Fixed {
        spec_dot(spec_normalized(ray.direction).spec_neg(), hit.normal).spec_min(
            Fixed::spec_from_int(1),
        )
    }

    /// The sine of the angle between the incoming ray and the normal.
    pub open spec fn spec_sin_theta(ray: Ray, hit: HitRecord) -> Fixed {
        let cos_theta = Self::spec_cos_theta(ray, hit);
        (Fixed::spec_from_int(1) - cos_theta * cos_theta).spec_max(
            Fixed::spec_from_int(0),
        ).spec_sqrt()
    }

    /// Whether Snell's law has no solution, so that all light is reflected.
    pub open spec fn spec_cannot_refract(&self, ray: Ray, hit: HitRecord) -> bool {
        (self.spec_refraction_ratio(hit) * Self::spec_sin_theta(ray, hit))@ > SCALE
    }

    /// The scatter that the draw `draw` from `[0, 1)` leads to: a reflection
    /// where refraction is impossible or the reflectance exceeds the draw, a
    /// refraction otherwise. The light is not attenuated.
    pub open spec fn spec_scatter(&self, ray: Ray, hit: HitRecord, draw: Fixed) -> (Color, Ray) {
        let unit_direction = spec_normalized(ray.direction);
        let ratio = self.spec_refraction_ratio(hit);
        let direction = if self.spec_cannot_refract(ray, hit) || Self::spec_reflectance(
            Self::spec_cos_theta(ray, hit),
            ratio,
        ) > draw {
            spec_reflect(unit_direction, hit.normal)
        } else {
            spec_refract(unit_direction, hit.normal, ratio)
        };
        (spec_white(), Ray { origin: hit.p, direction })
    }

    /// Schlick's approximation of the share of light that a surface reflects
    /// at the given cosine of the angle of incidence.
    pub fn reflectance(cosine: Fixed, ref_idx: Fixed) -> (r: Fixed)
        ensures
            r == Self::spec_reflectance(cosine, ref_idx),
    {
        let one = Fixed::from_int(1);
        let mut r0 = (one - ref_idx).saturating_div(one + ref_idx);
        r0 = r0 * r0;
        r0 + (one - r0) * (one - cosine).pow5()
    }

    /// Reflects or refracts, given a draw from `[0, 1)`.
    pub fn scatter_with(&self, ray: &Ray, hit: &HitRecord, draw: Fixed) -> (r: (Color, Ray))
        ensures
            r == self.spec_scatter(*ray, *hit, draw),
            r.0 == spec_white(),
            r.1.origin == hit.p,
            self.spec_cannot_refract(*ray, *hit) ==> r.1.direction == spec_reflect(
                spec_normalized(ray.direction),
                hit.normal,
            ),
    {
        let one = Fixed::from_int(1);
        let attenuation = Vec3 { x: Fixed::one(), y: Fixed::one(), z: Fixed::one() };
        let refraction_ratio = if hit.front_face {
            one.saturating_div(self.ir)
        } else {
            self.ir
        };
        let unit_direction = normalized(ray.direction);
        let cos_theta = dot_product(unit_direction.neg(), hit.normal).min(one);
        let sin_theta = (one - cos_theta * cos_theta).max(Fixed::from_int(0)).sqrt();
        let cannot_refract = (refraction_ratio * sin_theta).raw > SCALE;
        let direction = if cannot_refract || Dielectric::reflectance(
            cos_theta,
            refraction_ratio,
        ).raw > draw.raw {
            reflect(unit_direction, hit.normal)
        } else {
            refract(unit_direction, hit.normal, refraction_ratio)
        };
        (attenuation, Ray { origin: hit.p, direction })
    }

    /// Reflects or refracts at random, in the proportion that the reflectance
    /// gives. The ray is never absorbed nor attenuated, and where refraction
    /// is impossible it is reflected whatever is drawn.
    pub fn scatter(&self, ray: &Ray, hit: &HitRecord, rng: &mut StdRng) -> (r: Option<
        (Color, Ray),
    >)
        ensures
            exists|d: Fixed|
                is_fraction(d) && r == Some(#[trigger] self.spec_scatter(*ray, *hit, d)),
            r matches Some(pair) && pair.0 == spec_white() && pair.1.origin == hit.p,
            self.spec_cannot_refract(*ray, *hit) ==> r == Some(
                (
                    spec_white(),
                    Ray {
                        origin: hit.p,
                        direction: spec_reflect(spec_normalized(ray.direction), hit.normal),
                    },
                ),
            ),
    {
        let draw = random_f32(rng);
        Some(self.scatter_with(ray, hit, draw))
    }
}

/// Where refraction is impossible the ray is reflected, whatever is drawn.
pub proof fn lemma_total_internal_reflection(
    glass: Dielectric,
    ray: Ray,
    hit: HitRecord,
    draw: Fixed,
)
    requires
        glass.spec_cannot_refract(ray, hit),
    ensures
        glass.spec_scatter(ray, hit, draw) == (
            spec_white(),
            Ray {
                origin: hit.p,
                direction: spec_reflect(spec_normalized(ray.direction), hit.normal),
            },
        ),
{
}

impl Material {
    /// The scatter that a sample of the unit sphere and a draw from `[0, 1)`
    /// lead to; `None` where the ray is absorbed.
    pub open spec fn spec_scatter(&self, ray: Ray, hit: HitRecord, sample: Vec3, draw: Fixed)
        -> Option<(Color, Ray)> {
        match *self {
            Material::Lambertian(m) => Some(m.spec_scatter(hit, sample)),
            Material::Metal(m) => m.spec_scatter(ray, hit, sample),
            Material::Dielectric(m) => Some(m.spec_scatter(ray, hit, draw)),
        }
    }

    /// Scatters a ray, given a sample of the unit sphere and a draw from
    /// `[0, 1)`.
    pub fn scatter_with(&self, ray: &Ray, hit: &HitRecord, sample: Vec3, draw: Fixed) -> (r:
        Option<(Color, Ray)>)
        ensures
            r == self.spec_scatter(*ray, *hit, sample, draw),
    {
        match self {
            Material::Lambertian(m) => Some(m.scatter_with(hit, sample)),
            Material::Metal(m) => m.scatter_with(ray, hit, sample),
            Material::Dielectric(m) => Some(m.scatter_with(ray, hit, draw)),
        }
    }

    /// Scatters a ray at random: the result is the attenuation and the
    /// outgoing ray, or `None` where the ray is absorbed.
    pub fn scatter(&self, ray: &Ray, hit: &HitRecord, rng: &mut StdRng) -> (r: Option<
        (Color, Ray),
    >)
        ensures
            is_scatter(*self, *ray, *hit, r),
            r matches Some(pair) ==> pair.1.origin == hit.p,
            self matches Material::Lambertian(m) ==> r matches Some(pair) && pair.0 == m.albedo,
            self matches Material::Dielectric(m) ==> r matches Some(pair) && pair.0
                == spec_white(),
    {
        match self {
            Material::Lambertian(m) => {
                let r = m.scatter(ray, hit, rng);
                proof {
                    let s = choose|s: Vec3|
                        in_unit_sphere(s) && r == Some(#[trigger] m.spec_scatter(*hit, s));
                    assert(r == self.spec_scatter(*ray, *hit, s, Fixed::of(0)));
                }
                r
            },
            Material::Metal(m) => {
                let r = m.scatter(ray, hit, rng);
                proof {
                    let s = choose|s: Vec3|
                        in_unit_sphere(s) && r == #[trigger] m.spec_scatter(*ray, *hit, s);
                    assert(r == self.spec_scatter(*ray, *hit, s, Fixed::of(0)));
                }
                r
            },
            Material::Dielectric(m) => {
                let r = m.scatter(ray, hit, rng);
                proof {
                    let d = choose|d: Fixed|
                        is_fraction(d) && r == Some(#[trigger] m.spec_scatter(*ray, *hit, d));
                    lemma_centre_inside();
                    assert(r == self.spec_scatter(*ray, *hit, Vec3::spec_zero(), d));
                }
                r
            },
        }
    }
}

/// Whether `r` is a scatter that the material can produce for some sample of
/// the unit sphere and some draw from `[0, 1)`.
pub open spec fn is_scatter(material: Material, ray: Ray, hit: HitRecord, r: Option<(Color, Ray)>)
    -> bool {
    exists|sample: Vec3, draw: Fixed|
        in_unit_sphere(sample) && is_fraction(draw) && r == #[trigger] material.spec_scatter(
            ray,
            hit,
            sample,
            draw,
        )
}

} // verus!
