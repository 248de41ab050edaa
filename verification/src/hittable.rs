//! Geometry that a ray can hit: spheres, and the world that holds them.

use crate::fixed::{lemma_mul_neg, lemma_quot_monotone, lemma_sqrt_value, Fixed, SCALE};
use crate::material::Material;
use crate::ray::Ray;
use crate::vec3::{dot_product, lemma_square_nonnegative, spec_dot, Point3, Vec3};
use core::ops::Neg;
use vstd::prelude::*;

verus! {

/// Where and how a ray meets a surface.
#[derive(Clone, Copy, Debug, PartialEq, Eq, Structural)]
pub struct HitRecord {
    /// The point of intersection.
    pub p: Point3,
    /// The surface normal at `p`, turned against the incoming ray.
    pub normal: Vec3,
    /// The ray parameter of `p`.
    pub t: Fixed,
    /// Whether the ray came from outside the surface.
    pub front_face: bool,
    /// The material of the surface.
    pub material: Material,
}

impl HitRecord {
    /// The record of a hit at `p`, where `outward_normal` points out of the
    /// surface: the stored normal opposes the ray.
    pub open spec fn spec_new(
        p: Point3,
        t: Fixed,
        ray: Ray,
        outward_normal: Vec3,
        material: Material,
    ) -> HitRecord {
        let front_face = spec_dot(ray.direction, outward_normal)@ < 0;
        HitRecord {
            p,
            normal: if front_face {
                outward_normal
            } else {
                outward_normal.spec_neg()
            },
            t,
            front_face,
            material,
        }
    }

    /// Orients the normal against the ray and records which side was hit.
    fn set_face_normal(&mut self, ray: &Ray, outward_normal: Vec3)
        ensures
            *final(self) == HitRecord::spec_new(
                old(self).p,
                old(self).t,
                *ray,
                outward_normal,
                old(self).material,
            ),
    {
        self.front_face = dot_product(ray.direction, outward_normal).raw < 0;
        self.normal = if self.front_face {
            outward_normal
        } else {
            outward_normal.neg()
        };
    }

    /// Records a hit at `p`, where `outward_normal` points out of the
    /// surface. The recorded normal is turned against the ray.
    pub fn new(p: Point3, t: Fixed, ray: &Ray, outward_normal: Vec3, material: Material) -> (rec:
        HitRecord)
        ensures
            rec == HitRecord::spec_new(p, t, *ray, outward_normal, material),
            outward_normal.x@ > i64::MIN && outward_normal.y@ > i64::MIN && outward_normal.z@
                > i64::MIN ==> spec_dot(ray.direction, rec.normal)@ <= 0,
    {
        proof {
            if outward_normal.x@ > i64::MIN && outward_normal.y@ > i64::MIN && outward_normal.z@
                > i64::MIN {
                lemma_normal_opposes_ray(p, t, *ray, outward_normal, material);
            }
        }
        let mut rec = HitRecord { p, normal: outward_normal, t, front_face: false, material };
        rec.set_face_normal(ray, outward_normal);
        rec
    }
}

/// The normal of a record does not point along the ray: their dot product is
/// never positive. It holds unless a component of the outward normal is the
/// most negative number, which cannot be turned around.
pub proof fn lemma_normal_opposes_ray(
    p: Point3,
    t: Fixed,
    ray: Ray,
    outward_normal: Vec3,
    material: Material,
)
    requires
        outward_normal.x@ > i64::MIN,
        outward_normal.y@ > i64::MIN,
        outward_normal.z@ > i64::MIN,
    ensures
        spec_dot(ray.direction, HitRecord::spec_new(p, t, ray, outward_normal, material).normal)@
            <= 0,
{
    let d = ray.direction;
    let n = outward_normal;
    if spec_dot(d, n)@ >= 0 {
        lemma_mul_neg(d.x, n.x);
        lemma_mul_neg(d.y, n.y);
        lemma_mul_neg(d.z, n.z);
    }
}

/// A sphere. A negative radius turns the surface inside out.
#[derive(Clone, Copy, Debug, PartialEq, Eq, Structural)]
pub struct Sphere {
    pub center: Point3,
    pub radius: Fixed,
    pub material: Material,
}

impl Sphere {
    /// The two parameters at which the line of the ray meets the sphere, the
    /// smaller first: the roots of `|origin + t * direction - center|^2 =
    /// radius^2`. `None` where the discriminant is negative or the direction
    /// has no length.
    pub open spec fn spec_roots(&self, ray: Ray) -> Option<(Fixed, Fixed)> {
        let oc = ray.origin - self.center;
        let a = ray.direction.spec_len_squared();
        let half_b = spec_dot(oc, ray.direction);
        let c = oc.spec_len_squared() - self.radius * self.radius;
        let discriminant = half_b * half_b - a * c;
        if a@ == 0 || discriminant@ < 0 {
            None
        } else {
            let sqrtd = discriminant.spec_sqrt();
            Some(
                (
                    (half_b.spec_neg() - sqrtd).spec_div(a),
                    (half_b.spec_neg() + sqrtd).spec_div(a),
                ),
            )
        }
    }

    /// The record of the hit at the parameter `root`.
    pub open spec fn spec_record(&self, ray: Ray, root: Fixed) -> HitRecord {
        let p = ray.spec_at(root);
        HitRecord::spec_new(p, root, ray, (p - self.center).shrink(self.radius), self.material)
    }

    /// The hit of the ray on the sphere with the smallest parameter in
    /// `[t_min, t_max]`, if there is one. A sphere without radius is never
    /// hit.
    pub open spec fn spec_hit(&self, ray: Ray, t_min: Fixed, t_max: Fixed) -> Option<HitRecord> {
        if self.radius@ == 0 {
            None
        } else {
            match self.spec_roots(ray) {
                None => None,
                Some((near, far)) => if t_min <= near && near <= t_max {
                    Some(self.spec_record(ray, near))
                } else if t_min <= far && far <= t_max {
                    Some(self.spec_record(ray, far))
                } else {
                    None
                },
            }
        }
    }

    /// Intersects the ray with the sphere and returns the nearest hit whose
    /// parameter lies in `[t_min, t_max]`.
    pub fn hit(&self, ray: &Ray, t_min: Fixed, t_max: Fixed) -> (r: Option<HitRecord>)
        ensures
            r == self.spec_hit(*ray, t_min, t_max),
            r matches Some(h) ==> t_min <= h.t && h.t <= t_max && h.p == ray.spec_at(h.t)
                && h.material == self.material,
    {
        if self.radius.raw == 0 {
            return None;
        }
        let oc = ray.origin - self.center;
        let a = ray.direction.len_squared();
        let half_b = dot_product(oc, ray.direction);
        let c = oc.len_squared() - self.radius * self.radius;
        let discriminant = half_b * half_b - a * c;
        if a.raw == 0 || discriminant.raw < 0 {
            return None;
        }
        let sqrtd = discriminant.sqrt();
        let mut root = (half_b.neg() - sqrtd) / a;
        if root.raw < t_min.raw || t_max.raw < root.raw {
            root = (half_b.neg() + sqrtd) / a;
            if root.raw < t_min.raw || t_max.raw < root.raw {
                return None;
            }
        }
        let p = ray.at(root);
        let outward_normal = (p - self.center) / self.radius;
        Some(HitRecord::new(p, root, ray, outward_normal, self.material))
    }
}

/// The smaller root of a sphere's equation does not exceed the larger.
pub proof fn lemma_roots_ordered(sphere: Sphere, ray: Ray)
    ensures
        sphere.spec_roots(ray) matches Some((near, far)) ==> near <= far,
{
    let oc = ray.origin - sphere.center;
    let a = ray.direction.spec_len_squared();
    let half_b = spec_dot(oc, ray.direction);
    let c = oc.spec_len_squared() - sphere.radius * sphere.radius;
    let discriminant = half_b * half_b - a * c;
    if sphere.spec_roots(ray) is Some {
        lemma_sqrt_value(discriminant);
        let sqrtd = discriminant.spec_sqrt();
        let low = (half_b.spec_neg() - sqrtd)@;
        let high = (half_b.spec_neg() + sqrtd)@;
        assert(low <= high);
        lemma_square_nonnegative(ray.direction.x);
        lemma_square_nonnegative(ray.direction.y);
        lemma_square_nonnegative(ray.direction.z);
        assert(a@ > 0);
        lemma_quot_monotone(low * SCALE, high * SCALE, a@);
    }
}

/// A sphere's hit is its nearest in the interval: within a shorter interval
/// the same hit is found if it still lies inside, and none otherwise.
pub proof fn lemma_sphere_hit_nearest(
    sphere: Sphere,
    ray: Ray,
    t_min: Fixed,
    t_max: Fixed,
    bound: Fixed,
)
    requires
        bound <= t_max,
    ensures
        sphere.spec_hit(ray, t_min, t_max) matches Some(h) ==> t_min <= h.t && h.t <= t_max,
        sphere.spec_hit(ray, t_min, bound) == match sphere.spec_hit(ray, t_min, t_max) {
            Some(h) => if h.t <= bound {
                Some(h)
            } else {
                None
            },
            None => None,
        },
{
    lemma_roots_ordered(sphere, ray);
}

/// Whether the ray starts on or outside the sphere and points away from it.
pub open spec fn points_away(sphere: Sphere, ray: Ray) -> bool {
    let oc = ray.origin - sphere.center;
    spec_dot(oc, ray.direction)@ > 0 && (oc.spec_len_squared() - sphere.radius * sphere.radius)@
        >= 0
}

/// A ray that starts outside a sphere and points away from it misses it:
/// both roots are non-positive, so no hit has a positive parameter.
pub proof fn lemma_sphere_missed(sphere: Sphere, ray: Ray, t_min: Fixed, t_max: Fixed)
    requires
        points_away(sphere, ray),
        t_min@ > 0,
    ensures
        sphere.spec_hit(ray, t_min, t_max) is None,
{
    let oc = ray.origin - sphere.center;
    let a = ray.direction.spec_len_squared();
    let half_b = spec_dot(oc, ray.direction);
    let c = oc.spec_len_squared() - sphere.radius * sphere.radius;
    let discriminant = half_b * half_b - a * c;
    if sphere.spec_roots(ray) is Some {
        lemma_roots_ordered(sphere, ray);
        lemma_sqrt_value(discriminant);
        lemma_square_nonnegative(ray.direction.x);
        lemma_square_nonnegative(ray.direction.y);
        lemma_square_nonnegative(ray.direction.z);
        assert(a@ > 0);
        let hb = half_b@;
        // The product a * c is not negative, so the discriminant does not
        // exceed the square of half_b.
        assert(a@ * c@ >= 0) by (nonlinear_arith)
            requires
                a@ >= 0,
                c@ >= 0,
        ;
        assert((a * c)@ >= 0);
        assert(hb * hb >= 0) by (nonlinear_arith);
        assert((hb * hb) / (SCALE as int) * SCALE <= hb * hb) by (nonlinear_arith)
            requires
                hb * hb >= 0,
        ;
        assert(discriminant@ <= (half_b * half_b)@);
        assert(discriminant@ * SCALE <= hb * hb);
        // Hence its root does not exceed half_b itself.
        let sqrtd = discriminant.spec_sqrt()@;
        if sqrtd > hb {
            assert(sqrtd * sqrtd > hb * hb) by (nonlinear_arith)
                requires
                    sqrtd > hb,
                    hb > 0,
            ;
        }
        let high = (half_b.spec_neg() + discriminant.spec_sqrt())@;
        assert(high <= 0);
        assert(high * SCALE <= 0);
        lemma_quot_monotone(high * SCALE, 0, a@);
    }
}

/// Anything that a ray can hit.
#[derive(Clone, Copy, Debug, PartialEq, Eq, Structural)]
pub enum Hittable {
    Sphere(Sphere),
}

impl Hittable {
    /// The nearest hit of the ray on this object with a parameter in
    /// `[t_min, t_max]`.
    pub open spec fn spec_hit(&self, ray: Ray, t_min: Fixed, t_max: Fixed) -> Option<HitRecord> {
        match *self {
            Hittable::Sphere(sphere) => sphere.spec_hit(ray, t_min, t_max),
        }
    }

    /// Intersects the ray with this object and returns the nearest hit whose
    /// parameter lies in `[t_min, t_max]`.
    pub fn hit(&self, ray: &Ray, t_min: Fixed, t_max: Fixed) -> (r: Option<HitRecord>)
        ensures
            r == self.spec_hit(*ray, t_min, t_max),
            r matches Some(h) ==> t_min <= h.t && h.t <= t_max && h.p == ray.spec_at(h.t),
    {
        match self {
            Hittable::Sphere(sphere) => sphere.hit(ray, t_min, t_max),
        }
    }
}

/// An object's hit is its nearest in the interval: within a shorter interval
/// the same hit is found if it still lies inside, and none otherwise.
pub proof fn lemma_hit_nearest(object: Hittable, ray: Ray, t_min: Fixed, t_max: Fixed, bound: Fixed)
    requires
        bound <= t_max,
    ensures
        object.spec_hit(ray, t_min, t_max) matches Some(h) ==> t_min <= h.t && h.t <= t_max,
        object.spec_hit(ray, t_min, bound) == match object.spec_hit(ray, t_min, t_max) {
            Some(h) => if h.t <= bound {
                Some(h)
            } else {
                None
            },
            None => None,
        },
{
    match object {
        Hittable::Sphere(sphere) => lemma_sphere_hit_nearest(sphere, ray, t_min, t_max, bound),
    }
}

/// The nearer of two hits; the first one where they are equally near.
pub open spec fn nearer(best: Option<HitRecord>, candidate: Option<HitRecord>) -> Option<
    HitRecord,
> {
    match candidate {
        None => best,
        Some(h) => match best {
            None => candidate,
            Some(b) => if h.t < b.t {
                candidate
            } else {
                best
            },
        },
    }
}

/// The nearest of a sequence of hits; the first one among equally near ones.
pub open spec fn nearest(hits: Seq<Option<HitRecord>>) -> Option<HitRecord>
    decreases hits.len(),
{
    if hits.len() == 0 {
        None
    } else {
        nearer(nearest(hits.drop_last()), hits.last())
    }
}

/// The hits of the ray on each object, in the objects' order.
pub open spec fn spec_hits(objects: Seq<Hittable>, ray: Ray, t_min: Fixed, t_max: Fixed) -> Seq<
    Option<HitRecord>,
> {
    Seq::new(objects.len(), |i: int| objects[i].spec_hit(ray, t_min, t_max))
}

/// The nearest hit of the ray on any of the objects with a parameter in
/// `[t_min, t_max]`; among equally near hits, that on the first object.
pub open spec fn nearest_hit(objects: Seq<Hittable>, ray: Ray, t_min: Fixed, t_max: Fixed)
    -> Option<HitRecord> {
    nearest(spec_hits(objects, ray, t_min, t_max))
}

/// `nearest` picks the first hit of least parameter: nothing if nothing was
/// hit, else a hit that no other undercuts and no earlier one equals.
pub proof fn lemma_nearest_is_first_minimum(hits: Seq<Option<HitRecord>>)
    ensures
        nearest(hits) is None ==> forall|i: int| 0 <= i < hits.len() ==> hits[i] is None,
        nearest(hits) matches Some(h) ==> exists|i: int|
            0 <= i < hits.len() && hits[i] == Some(h) && is_first_minimum(hits, i),
    decreases hits.len(),
{
    if hits.len() > 0 {
        let front = hits.drop_last();
        lemma_nearest_is_first_minimum(front);
        match nearest(hits) {
            None => {
                assert forall|i: int| 0 <= i < hits.len() implies hits[i] is None by {
                    if i < front.len() {
                        assert(front[i] is None);
                    }
                }
            },
            Some(h) => {
                match nearest(front) {
                    None => {
                        let i = hits.len() - 1;
                        assert forall|j: int| 0 <= j < hits.len() && hits[j] is Some implies j
                            == i by {
                            if j < front.len() {
                                assert(front[j] is None);
                            }
                        }
                    },
                    Some(b) => {
                        let k = choose|k: int|
                            0 <= k < front.len() && front[k] == Some(b) && is_first_minimum(
                                front,
                                k,
                            );
                        let i = if h == b {
                            k
                        } else {
                            hits.len() - 1
                        };
                        assert forall|j: int| 0 <= j < hits.len() implies (
                        #[trigger] hits[j] matches Some(o) ==> h.t <= o.t && (j < i ==> h.t
                            < o.t)) by {
                            if j < front.len() {
                                assert(front[j] == hits[j]);
                            }
                        }
                    },
                }
            },
        }
    }
}

/// A ray that starts outside every sphere of the world and points away from
/// each of them hits nothing.
pub proof fn lemma_world_missed(objects: Seq<Hittable>, ray: Ray, t_min: Fixed, t_max: Fixed)
    requires
        t_min@ > 0,
        forall|i: int|
            0 <= i < objects.len() ==> (#[trigger] objects[i] matches Hittable::Sphere(sphere)
                ==> points_away(sphere, ray)),
    ensures
        nearest_hit(objects, ray, t_min, t_max) is None,
{
    let hits = spec_hits(objects, ray, t_min, t_max);
    assert forall|i: int| 0 <= i < hits.len() implies hits[i] is None by {
        match objects[i] {
            Hittable::Sphere(sphere) => lemma_sphere_missed(sphere, ray, t_min, t_max),
        }
    }
    lemma_nearest_is_first_minimum(hits);
}

/// Whether the hit at index `i` is the first of least parameter.
pub open spec fn is_first_minimum(hits: Seq<Option<HitRecord>>, i: int) -> bool {
    &&& 0 <= i < hits.len()
    &&& hits[i] matches Some(h)
    &&& forall|j: int|
        0 <= j < hits.len() ==> (#[trigger] hits[j] matches Some(o) ==> h.t <= o.t && (j < i
            ==> h.t < o.t))
}

/// Finds the nearest hit of the ray on any of the objects, with a parameter
/// in `[t_min, t_max]`. Among equally near hits the first object's wins.
pub fn hit(objects: &[Hittable], ray: &Ray, t_min: Fixed, t_max: Fixed) -> (r: Option<HitRecord>)
    ensures
        r == nearest_hit(objects@, *ray, t_min, t_max),
        r is None ==> forall|i: int|
            0 <= i < objects@.len() ==> (#[trigger] objects@[i]).spec_hit(*ray, t_min, t_max)
                is None,
        r matches Some(h) ==> t_min <= h.t && h.t <= t_max && exists|i: int|
            0 <= i < objects@.len() && (#[trigger] objects@[i]).spec_hit(*ray, t_min, t_max)
                == Some(h) && is_first_minimum(spec_hits(objects@, *ray, t_min, t_max), i),
{
    let mut best: Option<HitRecord> = None;
    let mut closest_so_far = t_max;
    let mut k: usize = 0;
    let ghost hits = spec_hits(objects@, *ray, t_min, t_max);
    while k < objects.len()
        invariant
            k <= objects.len(),
            hits == spec_hits(objects@, *ray, t_min, t_max),
            best == nearest(hits.take(k as int)),
            closest_so_far == match best {
                Some(b) => b.t,
                None => t_max,
            },
            closest_so_far <= t_max,
            best matches Some(b) ==> t_min <= b.t,
        decreases objects.len() - k,
    {
        let candidate = objects[k].hit(ray, t_min, closest_so_far);
        proof {
            lemma_hit_nearest(objects@[k as int], *ray, t_min, t_max, closest_so_far);
            assert(hits.take(k + 1).drop_last() == hits.take(k as int));
        }
        match candidate {
            Some(h) => {
                if best.is_none() || h.t.raw < closest_so_far.raw {
                    closest_so_far = h.t;
                    best = Some(h);
                }
            },
            None => {},
        }
        k = k + 1;
    }
    proof {
        assert(hits.take(k as int) == hits);
        lemma_nearest_is_first_minimum(hits);
        if let Some(h) = best {
            let i = choose|i: int|
                0 <= i < hits.len() && hits[i] == Some(h) && is_first_minimum(hits, i);
            assert(objects@[i].spec_hit(*ray, t_min, t_max) == Some(h));
        } else {
            assert forall|i: int| 0 <= i < objects@.len() implies (#[trigger] objects@[i]).spec_hit(
                *ray,
                t_min,
                t_max,
            ) is None by {
                assert(hits[i] is None);
            }
        }
    }
    best
}

} // verus!
