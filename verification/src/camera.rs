//! The camera: a thin lens that turns image-plane coordinates into rays.

use crate::fixed::{lemma_add_zero, lemma_mul_zero, Fixed};
use crate::helpers::{
    degrees_to_radians, in_unit_disk, random_in_unit_disk, spec_degrees_to_radians,
};
use crate::ray::Ray;
use crate::vec3::{cross_product, normalized, spec_cross, spec_normalized, Point3, Vec3};
use rand::rngs::StdRng;
use vstd::prelude::*;

verus! {

/// A positioned camera. The fields are derived once from the viewing
/// parameters and not changed afterwards.
#[derive(Clone, Copy, Debug, PartialEq, Eq, Structural)]
pub struct Camera {
    /// The centre of the lens.
    pub origin: Point3,
    /// The corner of the focus plane that maps to image coordinates `(0, 0)`.
    pub lower_left_corner: Point3,
    /// The vector along the focus plane's lower edge.
    pub horizontal: Vec3,
    /// The vector along the focus plane's left edge.
    pub vertical: Vec3,
    /// The unit vector from the point looked at toward the camera.
    pub w: Vec3,
    /// The unit vector to the camera's right.
    pub u: Vec3,
    /// The unit vector upward in the camera's frame.
    pub v: Vec3,
    /// Half the aperture.
    pub lens_radius: Fixed,
}

impl Camera {
    /// The camera at `look_from` that looks at `look_at` with `v_up` upward,
    /// a vertical field of view of `vof` degrees, the given aspect ratio,
    /// lens aperture, and distance to the plane in perfect focus.
    pub open spec fn spec_new(
        look_from: Point3,
        look_at: Point3,
        v_up: Vec3,
        vof: Fixed,
        aspect_ratio: Fixed,
        aperture: Fixed,
        focus_distance: Fixed,
    ) -> Camera {
        let two = Fixed::spec_from_int(2);
        let theta = spec_degrees_to_radians(vof);
        let h = theta.spec_div(two).spec_tan();
        let viewport_height = two * h;
        let viewport_width = aspect_ratio * viewport_height;
        let w = spec_normalized(look_from - look_at);
        let u = spec_normalized(spec_cross(v_up, w));
        let v = spec_cross(w, u);
        let horizontal = u.scale(focus_distance * viewport_width);
        let vertical = v.scale(focus_distance * viewport_height);
        Camera {
            origin: look_from,
            lower_left_corner: look_from - horizontal.shrink(two) - vertical.shrink(two) - w.scale(
                focus_distance,
            ),
            horizontal,
            vertical,
            w,
            u,
            v,
            lens_radius: aperture.spec_div(two),
        }
    }

    /// The ray through the image-plane point `(s, t)` that leaves the lens at
    /// the point `lens` of the unit disk.
    pub open spec fn spec_ray(&self, s: Fixed, t: Fixed, lens: Vec3) -> Ray {
        let rd = lens.scale(self.lens_radius);
        let offset = self.u.scale(rd.x) + self.v.scale(rd.y);
        Ray {
            origin: self.origin + offset,
            direction: self.lower_left_corner + self.horizontal.scale(s) + self.vertical.scale(t)
                - self.origin - offset,
        }
    }

    /// Places a camera at `look_from`, looking at `look_at` with `v_up`
    /// upward. `vof` is the vertical field of view in degrees. A frame that
    /// cannot be normalised, because the two points coincide or `v_up` lies
    /// along the viewing direction, is left as computed.
    pub fn new(
        look_from: Point3,
        look_at: Point3,
        v_up: Vec3,
        vof: Fixed,
        aspect_ratio: Fixed,
        aperture: Fixed,
        focus_distance: Fixed,
    ) -> (camera: Camera)
        ensures
            camera == Camera::spec_new(
                look_from,
                look_at,
                v_up,
                vof,
                aspect_ratio,
                aperture,
                focus_distance,
            ),
    {
        let two = Fixed::from_int(2);
        let theta = degrees_to_radians(vof);
        let h = (theta / two).tan();
        let viewport_height = two * h;
        let viewport_width = aspect_ratio * viewport_height;

        let w = normalized(look_from - look_at);
        let u = normalized(cross_product(v_up, w));
        let v = cross_product(w, u);

        let origin = look_from;
        let horizontal = (focus_distance * viewport_width) * u;
        let vertical = (focus_distance * viewport_height) * v;
        let lower_left_corner = origin - horizontal / two - vertical / two - focus_distance * w;
        let lens_radius = aperture / two;
        Camera { origin, lower_left_corner, horizontal, vertical, w, u, v, lens_radius }
    }

    /// The ray through the image-plane point `(s, t)` that leaves the lens at
    /// the point `lens` of the unit disk.
    pub fn get_ray_through(&self, s: Fixed, t: Fixed, lens: Vec3) -> (ray: Ray)
        ensures
            ray == self.spec_ray(s, t, lens),
    {
        let rd = self.lens_radius * lens;
        let offset = self.u * rd.x + self.v * rd.y;
        Ray {
            origin: self.origin + offset,
            direction: self.lower_left_corner + s * self.horizontal + t * self.vertical
                - self.origin - offset,
        }
    }

    /// A ray through the image-plane point `(s, t)`, from a random point of
    /// the lens. With no aperture the lens is a point and the ray is the same
    /// whatever is drawn.
    pub fn get_ray(&self, s: Fixed, t: Fixed, rng: &mut StdRng) -> (ray: Ray)
        ensures
            exists|lens: Vec3| in_unit_disk(lens) && ray == #[trigger] self.spec_ray(s, t, lens),
            self.lens_radius@ == 0 ==> ray == self.spec_ray(s, t, Vec3::spec_zero()),
    {
        let lens = random_in_unit_disk(rng);
        proof {
            if self.lens_radius@ == 0 {
                lemma_pinhole(*self, s, t, lens);
                lemma_pinhole(*self, s, t, Vec3::spec_zero());
            }
        }
        self.get_ray_through(s, t, lens)
    }
}

/// A camera without aperture sends every ray from its origin, whatever point
/// of the lens is named.
pub proof fn lemma_pinhole(camera: Camera, s: Fixed, t: Fixed, lens: Vec3)
    requires
        camera.lens_radius@ == 0,
    ensures
        camera.spec_ray(s, t, lens) == (Ray {
            origin: camera.origin,
            direction: camera.lower_left_corner + camera.horizontal.scale(s)
                + camera.vertical.scale(t) - camera.origin,
        }),
{
    let zero = camera.lens_radius;
    lemma_mul_zero(lens.x, zero);
    lemma_mul_zero(lens.y, zero);
    lemma_mul_zero(lens.z, zero);
    lemma_mul_zero(camera.u.x, zero);
    lemma_mul_zero(camera.u.y, zero);
    lemma_mul_zero(camera.u.z, zero);
    lemma_mul_zero(camera.v.x, zero);
    lemma_mul_zero(camera.v.y, zero);
    lemma_mul_zero(camera.v.z, zero);
    let through = camera.lower_left_corner + camera.horizontal.scale(s) + camera.vertical.scale(t)
        - camera.origin;
    lemma_add_zero(camera.origin.x, zero);
    lemma_add_zero(camera.origin.y, zero);
    lemma_add_zero(camera.origin.z, zero);
    lemma_add_zero(through.x, zero);
    lemma_add_zero(through.y, zero);
    lemma_add_zero(through.z, zero);
}

} // verus!
