//! A ready-made world: a large ground sphere, three large spheres of
//! different materials, and a field of small random spheres around them.

use crate::fixed::Fixed;
use crate::helpers::{is_fraction, random_f32, random_f32_in_range, random_vec3};
use crate::hittable::{Hittable, Sphere};
use crate::material::{Dielectric, Lambertian, Material, Metal};
use crate::vec3::{Color, Point3, Vec3};
use rand::rngs::StdRng;
use vstd::prelude::*;

verus! {

/// The ground: a grey diffuse sphere of radius 1000 under the origin.
pub open spec fn spec_ground() -> Hittable {
    Hittable::Sphere(
        Sphere {
            center: Vec3 {
                x: Fixed::spec_from_int(0),
                y: Fixed::spec_from_int(-1000),
                z: Fixed::spec_from_int(0),
            },
            radius: Fixed::spec_from_int(1000),
            material: Material::Lambertian(
                Lambertian {
                    albedo: Vec3 {
                        x: Fixed::spec_from_ratio(1, 2),
                        y: Fixed::spec_from_ratio(1, 2),
                        z: Fixed::spec_from_ratio(1, 2),
                    },
                },
            ),
        },
    )
}

/// A sphere of radius one that rests on the ground at `x`.
pub open spec fn spec_large_sphere(x: int, material: Material) -> Hittable {
    Hittable::Sphere(
        Sphere {
            center: Vec3 {
                x: Fixed::spec_from_int(x),
                y: Fixed::spec_from_int(1),
                z: Fixed::spec_from_int(0),
            },
            radius: Fixed::spec_from_int(1),
            material,
        },
    )
}

/// Glass.
pub open spec fn spec_glass() -> Material {
    Material::Dielectric(Dielectric { ir: Fixed::spec_from_ratio(3, 2) })
}

/// The brown diffuse material of the large sphere at the back.
pub open spec fn spec_brown() -> Material {
    Material::Lambertian(
        Lambertian {
            albedo: Vec3 {
                x: Fixed::spec_from_ratio(4, 10),
                y: Fixed::spec_from_ratio(2, 10),
                z: Fixed::spec_from_ratio(1, 10),
            },
        },
    )
}

/// The polished metal of the large sphere at the front.
pub open spec fn spec_polished() -> Material {
    Material::Metal(
        Metal {
            albedo: Vec3 {
                x: Fixed::spec_from_ratio(7, 10),
                y: Fixed::spec_from_ratio(6, 10),
                z: Fixed::spec_from_ratio(5, 10),
            },
            fuzz: Fixed::spec_from_int(0),
        },
    )
}

/// The centre of the small sphere of grid cell `(a, b)`: it lies on the
/// ground within the cell, displaced by the fractions `jx` and `jz` of nine
/// tenths of the cell's width.
pub open spec fn spec_small_center(a: int, b: int, jx: Fixed, jz: Fixed) -> Point3 {
    Vec3 {
        x: Fixed::spec_from_int(a) + Fixed::spec_from_ratio(9, 10) * jx,
        y: Fixed::spec_from_ratio(2, 10),
        z: Fixed::spec_from_int(b) + Fixed::spec_from_ratio(9, 10) * jz,
    }
}

/// Whether a small sphere at `center` keeps clear of the large sphere at the
/// front: its distance from the point `(4, 0.2, 0)` exceeds nine tenths.
pub open spec fn spec_keeps_clear(center: Point3) -> bool {
    (center - Vec3 {
        x: Fixed::spec_from_int(4),
        y: Fixed::spec_from_ratio(2, 10),
        z: Fixed::spec_from_int(0),
    }).spec_len() > Fixed::spec_from_ratio(9, 10)
}

/// The material that the draw `choose_mat` selects: diffuse below 0.8, metal
/// below 0.95, glass from there on.
pub open spec fn spec_small_material(choose_mat: Fixed, albedo: Color, fuzz: Fixed) -> Material {
    if choose_mat < Fixed::spec_from_ratio(8, 10) {
        Material::Lambertian(Lambertian { albedo })
    } else if choose_mat < Fixed::spec_from_ratio(95, 100) {
        Material::Metal(Metal { albedo, fuzz })
    } else {
        spec_glass()
    }
}

/// The small sphere of radius 0.2 at `center`.
pub open spec fn spec_small_sphere(center: Point3, material: Material) -> Hittable {
    Hittable::Sphere(Sphere { center, radius: Fixed::spec_from_ratio(2, 10), material })
}

/// Whether `object` is a small sphere that the scene can hold: it lies in
/// some cell of the grid, keeps clear of the large sphere at the front, and
/// has a material that some draws select.
pub open spec fn is_small_sphere(object: Hittable) -> bool {
    exists|center: Point3, material: Material|
        is_small_center(center) && spec_keeps_clear(center) && is_small_material(material)
            && object == #[trigger] spec_small_sphere(center, material)
}

/// Whether `center` is the centre of a small sphere in some cell of the
/// grid, which spans the cells from -11 up to, not including, 11 each way.
pub open spec fn is_small_center(center: Point3) -> bool {
    exists|a: int, b: int, jx: Fixed, jz: Fixed|
        -11 <= a < 11 && -11 <= b < 11 && is_fraction(jx) && is_fraction(jz) && center
            == #[trigger] spec_small_center(a, b, jx, jz)
}

/// Whether `material` can be selected for a small sphere: the draw is a
/// fraction, the albedo's channels lie between zero and one, and the
/// roughness between zero and one half.
pub open spec fn is_small_material(material: Material) -> bool {
    exists|choose_mat: Fixed, albedo: Color, fuzz: Fixed|
        {
            &&& is_fraction(choose_mat)
            &&& 0 <= albedo.x@ <= 1_000_000_000
            &&& 0 <= albedo.y@ <= 1_000_000_000
            &&& 0 <= albedo.z@ <= 1_000_000_000
            &&& 0 <= fuzz@ <= 500_000_000
            &&& material == #[trigger] spec_small_material(choose_mat, albedo, fuzz)
        }
}

/// Whether `world` is a scene of the ready-made kind: the ground and the
/// glass sphere, then small spheres, then the brown and the polished sphere.
pub open spec fn is_scene(world: Seq<Hittable>) -> bool {
    &&& 4 <= world.len() <= 488
    &&& world[0] == spec_ground()
    &&& world[1] == spec_large_sphere(0, spec_glass())
    &&& world[world.len() - 2] == spec_large_sphere(-4, spec_brown())
    &&& world[world.len() - 1] == spec_large_sphere(4, spec_polished())
    &&& forall|k: int| 2 <= k < world.len() - 2 ==> is_small_sphere(#[trigger] world[k])
}

/// The material of a small sphere, given the draw that selects its kind and
/// the albedo and roughness to use.
pub fn small_material(choose_mat: Fixed, albedo: Color, fuzz: Fixed) -> (material: Material)
    ensures
        material == spec_small_material(choose_mat, albedo, fuzz),
{
    if choose_mat.raw < Fixed::from_ratio(8, 10).raw {
        Material::Lambertian(Lambertian { albedo })
    } else if choose_mat.raw < Fixed::from_ratio(95, 100).raw {
        Material::Metal(Metal { albedo, fuzz })
    } else {
        Material::Dielectric(Dielectric { ir: Fixed::from_ratio(3, 2) })
    }
}

/// The centre of the small sphere of grid cell `(a, b)`.
pub fn small_center(a: i32, b: i32, jx: Fixed, jz: Fixed) -> (center: Point3)
    ensures
        center == spec_small_center(a as int, b as int, jx, jz),
{
    Vec3 {
        x: Fixed::from_int(a) + Fixed::from_ratio(9, 10) * jx,
        y: Fixed::from_ratio(2, 10),
        z: Fixed::from_int(b) + Fixed::from_ratio(9, 10) * jz,
    }
}

/// Whether a small sphere at `center` keeps clear of the large sphere at the
/// front.
pub fn keeps_clear(center: Point3) -> (clear: bool)
    ensures
        clear == spec_keeps_clear(center),
{
    let front = Vec3 { x: Fixed::from_int(4), y: Fixed::from_ratio(2, 10), z: Fixed::from_int(0) };
    (center - front).len().raw > Fixed::from_ratio(9, 10).raw
}

/// Builds the ready-made world. The small spheres are placed at random
/// within the cells of a grid, each with a random material; a cell whose
/// sphere would touch the large sphere at the front stays empty.
pub fn random_scene(rng: &mut StdRng) -> (world: Vec<Hittable>)
    ensures
        is_scene(world@),
{
    let mut world: Vec<Hittable> = Vec::new();
    let half = Fixed::from_ratio(1, 2);
    let ground_material = Material::Lambertian(
        Lambertian { albedo: Vec3 { x: half, y: half, z: half } },
    );
    world.push(
        Hittable::Sphere(
            Sphere {
                center: Vec3 {
                    x: Fixed::from_int(0),
                    y: Fixed::from_int(-1000),
                    z: Fixed::from_int(0),
                },
                radius: Fixed::from_int(1000),
                material: ground_material,
            },
        ),
    );
    let material1 = Material::Dielectric(Dielectric { ir: Fixed::from_ratio(3, 2) });
    world.push(
        Hittable::Sphere(
            Sphere {
                center: Vec3 {
                    x: Fixed::from_int(0),
                    y: Fixed::from_int(1),
                    z: Fixed::from_int(0),
                },
                radius: Fixed::from_int(1),
                material: material1,
            },
        ),
    );

    let mut a: i32 = -11;
    while a < 11
        invariant
            -11 <= a <= 11,
            2 <= world@.len() <= 2 + (a + 11) * 22,
            world@[0] == spec_ground(),
            world@[1] == spec_large_sphere(0, spec_glass()),
            forall|k: int| 2 <= k < world@.len() ==> is_small_sphere(#[trigger] world@[k]),
        decreases 11 - a,
    {
        let mut b: i32 = -11;
        while b < 11
            invariant
                -11 <= a < 11,
                -11 <= b <= 11,
                2 <= world@.len() <= 2 + (a + 11) * 22 + (b + 11),
                world@[0] == spec_ground(),
                world@[1] == spec_large_sphere(0, spec_glass()),
                forall|k: int| 2 <= k < world@.len() ==> is_small_sphere(#[trigger] world@[k]),
            decreases 11 - b,
        {
            let choose_mat = random_f32(rng);
            let jx = random_f32(rng);
            let jz = random_f32(rng);
            let center = small_center(a, b, jx, jz);
            if keeps_clear(center) {
                let zero = Fixed::from_int(0);
                let needs_albedo = choose_mat.raw < Fixed::from_ratio(95, 100).raw;
                let albedo = if needs_albedo {
                    random_vec3(zero, Fixed::from_int(1), rng)
                } else {
                    Vec3::zero()
                };
                let needs_fuzz = needs_albedo && !(choose_mat.raw < Fixed::from_ratio(8, 10).raw);
                let fuzz = if needs_fuzz {
                    random_f32_in_range(zero, Fixed::from_ratio(1, 2), rng)
                } else {
                    zero
                };
                let material = small_material(choose_mat, albedo, fuzz);
                let object = Hittable::Sphere(
                    Sphere { center, radius: Fixed::from_ratio(2, 10), material },
                );
                proof {
                    assert(object == spec_small_sphere(center, material));
                }
                world.push(object);
            }
            b = b + 1;
        }
        a = a + 1;
    }

    let material2 = Material::Lambertian(
        Lambertian {
            albedo: Vec3 {
                x: Fixed::from_ratio(4, 10),
                y: Fixed::from_ratio(2, 10),
                z: Fixed::from_ratio(1, 10),
            },
        },
    );
    world.push(
        Hittable::Sphere(
            Sphere {
                center: Vec3 {
                    x: Fixed::from_int(-4),
                    y: Fixed::from_int(1),
                    z: Fixed::from_int(0),
                },
                radius: Fixed::from_int(1),
                material: material2,
            },
        ),
    );
    let material3 = Material::Metal(
        Metal {
            albedo: Vec3 {
                x: Fixed::from_ratio(7, 10),
                y: Fixed::from_ratio(6, 10),
                z: Fixed::from_ratio(5, 10),
            },
            fuzz: Fixed::from_int(0),
        },
    );
    world.push(
        Hittable::Sphere(
            Sphere {
                center: Vec3 {
                    x: Fixed::from_int(4),
                    y: Fixed::from_int(1),
                    z: Fixed::from_int(0),
                },
                radius: Fixed::from_int(1),
                material: material3,
            },
        ),
    );
    world
}

} // verus!
