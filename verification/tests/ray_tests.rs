use rand::rngs::StdRng;
use rand::SeedableRng;
use raytracer::fixed::Fixed;
use raytracer::hittable::{hit, Hittable, Sphere};
use raytracer::material::{Lambertian, Material};
use raytracer::ray::{background, Ray};
use raytracer::vec3::Vec3;

fn fx(value: f64) -> Fixed {
    Fixed { raw: (value * 1e9).round() as i64 }
}

fn v(x: f64, y: f64, z: f64) -> Vec3 {
    Vec3 { x: fx(x), y: fx(y), z: fx(z) }
}

fn close(x: Fixed, y: f64, d: f64) -> bool {
    let x = x.raw as f64 / 1e9;
    y - d <= x && x <= y + d
}

fn grey() -> Material {
    Material::Lambertian(Lambertian { albedo: v(0.5, 0.5, 0.5) })
}

#[test]
fn test_color() {
    let r = Ray { origin: v(0.0, 0.0, 0.0), direction: v(1.0, 2.0, 3.0) };
    let mut rng = StdRng::seed_from_u64(1);
    let res = r.color(&[], 1, &mut rng);
    assert!(close(res.x, 0.616369, 0.000001), "{:?}", res);
    assert!(close(res.y, 0.769822, 0.000001), "{:?}", res);
    assert!(close(res.z, 1.0, 0.000001), "{:?}", res);
}

#[test]
fn at_zero_is_origin_and_at_one_adds_direction() {
    let r = Ray { origin: v(1.0, -2.0, 3.5), direction: v(0.0, 0.6, -0.8) };
    assert_eq!(r.at(fx(0.0)), r.origin);
    assert_eq!(r.at(fx(1.0)), v(1.0, -1.4, 2.7));
    assert_eq!(r.at(fx(2.5)), v(1.0, -0.5, 1.5));
}

#[test]
fn sphere_straight_ahead_is_hit_at_half() {
    let sphere = Sphere { center: v(0.0, 0.0, -1.0), radius: fx(0.5), material: grey() };
    let ray = Ray { origin: v(0.0, 0.0, 0.0), direction: v(0.0, 0.0, -1.0) };
    let rec = sphere.hit(&ray, fx(0.001), Fixed::max_value()).expect("the ray hits");
    assert_eq!(rec.t, fx(0.5));
    assert_eq!(rec.p, v(0.0, 0.0, -0.5));
    assert_eq!(rec.normal, v(0.0, 0.0, 1.0));
    assert!(rec.front_face);
    assert_eq!(rec.material, grey());
}

#[test]
fn sphere_hit_from_inside_turns_the_normal() {
    let sphere = Sphere { center: v(0.0, 0.0, 0.0), radius: fx(2.0), material: grey() };
    let ray = Ray { origin: v(0.0, 0.0, 0.0), direction: v(1.0, 0.0, 0.0) };
    let rec = sphere.hit(&ray, fx(0.001), Fixed::max_value()).expect("the ray hits");
    assert_eq!(rec.t, fx(2.0));
    assert_eq!(rec.normal, v(-1.0, 0.0, 0.0));
    assert!(!rec.front_face);
}

#[test]
fn sphere_behind_the_ray_is_missed() {
    let sphere = Sphere { center: v(0.0, 0.0, 5.0), radius: fx(1.0), material: grey() };
    let ray = Ray { origin: v(0.0, 0.0, 0.0), direction: v(0.0, 0.0, -1.0) };
    assert_eq!(sphere.hit(&ray, fx(0.001), Fixed::max_value()), None);
}

#[test]
fn sphere_outside_the_interval_is_missed() {
    let sphere = Sphere { center: v(0.0, 0.0, -1.0), radius: fx(0.5), material: grey() };
    let ray = Ray { origin: v(0.0, 0.0, 0.0), direction: v(0.0, 0.0, -1.0) };
    assert_eq!(sphere.hit(&ray, fx(0.001), fx(0.4)), None);
    let far = sphere.hit(&ray, fx(0.6), fx(2.0)).expect("the far side is hit");
    assert_eq!(far.t, fx(1.5));
    assert_eq!(sphere.hit(&ray, fx(1.6), fx(2.0)), None);
}

#[test]
fn degenerate_sphere_and_ray_hit_nothing() {
    let point = Sphere { center: v(0.0, 0.0, -1.0), radius: fx(0.0), material: grey() };
    let ray = Ray { origin: v(0.0, 0.0, 0.0), direction: v(0.0, 0.0, -1.0) };
    assert_eq!(point.hit(&ray, fx(0.001), Fixed::max_value()), None);
    let sphere = Sphere { center: v(0.0, 0.0, 0.0), radius: fx(1.0), material: grey() };
    let still = Ray { origin: v(0.0, 0.0, 0.0), direction: v(0.0, 0.0, 0.0) };
    assert_eq!(sphere.hit(&still, fx(0.001), Fixed::max_value()), None);
}

#[test]
fn world_returns_the_nearest_hit() {
    let far = Hittable::Sphere(Sphere { center: v(0.0, 0.0, -5.0), radius: fx(1.0), material: grey() });
    let near = Hittable::Sphere(Sphere { center: v(0.0, 0.0, -2.0), radius: fx(0.5), material: grey() });
    let aside = Hittable::Sphere(Sphere { center: v(9.0, 0.0, -2.0), radius: fx(0.5), material: grey() });
    let ray = Ray { origin: v(0.0, 0.0, 0.0), direction: v(0.0, 0.0, -1.0) };
    let rec = hit(&[far, near, aside], &ray, fx(0.001), Fixed::max_value()).expect("hit");
    assert_eq!(rec.t, fx(1.5));
    let rec = hit(&[near, aside, far], &ray, fx(0.001), Fixed::max_value()).expect("hit");
    assert_eq!(rec.t, fx(1.5));
    assert_eq!(hit(&[aside], &ray, fx(0.001), Fixed::max_value()), None);
    assert_eq!(hit(&[], &ray, fx(0.001), Fixed::max_value()), None);
}

#[test]
fn world_prefers_the_first_of_equally_near_hits() {
    let red = Material::Lambertian(Lambertian { albedo: v(1.0, 0.0, 0.0) });
    let first = Hittable::Sphere(Sphere { center: v(0.0, 0.0, -2.0), radius: fx(0.5), material: red });
    let second = Hittable::Sphere(Sphere { center: v(0.0, 0.0, -2.0), radius: fx(0.5), material: grey() });
    let ray = Ray { origin: v(0.0, 0.0, 0.0), direction: v(0.0, 0.0, -1.0) };
    let rec = hit(&[first, second], &ray, fx(0.001), Fixed::max_value()).expect("hit");
    assert_eq!(rec.material, red);
    let rec = hit(&[second, first], &ray, fx(0.001), Fixed::max_value()).expect("hit");
    assert_eq!(rec.material, grey());
}

#[test]
fn ray_pointing_away_from_every_sphere_sees_the_sky() {
    let world = [
        Hittable::Sphere(Sphere { center: v(0.0, 0.0, -3.0), radius: fx(1.0), material: grey() }),
        Hittable::Sphere(Sphere { center: v(2.0, -1.0, -6.0), radius: fx(2.0), material: grey() }),
    ];
    let ray = Ray { origin: v(0.0, 0.0, 0.0), direction: v(0.0, 0.6, 0.8) };
    assert_eq!(hit(&world, &ray, fx(0.001), Fixed::max_value()), None);
    let mut rng = StdRng::seed_from_u64(7);
    assert_eq!(ray.color(&world, 50, &mut rng), background(ray.direction));
}

#[test]
fn background_is_blue_above_and_white_below() {
    assert_eq!(background(v(0.0, 1.0, 0.0)), v(0.5, 0.7, 1.0));
    assert_eq!(background(v(0.0, -1.0, 0.0)), v(1.0, 1.0, 1.0));
    assert_eq!(background(v(1.0, 0.0, 0.0)), v(0.75, 0.85, 1.0));
    assert_eq!(background(v(0.0, 0.0, 0.0)), v(0.75, 0.85, 1.0));
}

#[test]
fn color_without_depth_is_black() {
    let world = [Hittable::Sphere(Sphere { center: v(0.0, 0.0, -1.0), radius: fx(0.5), material: grey() })];
    let mut rng = StdRng::seed_from_u64(3);
    let toward = Ray { origin: v(0.0, 0.0, 0.0), direction: v(0.0, 0.0, -1.0) };
    let away = Ray { origin: v(0.0, 0.0, 0.0), direction: v(0.0, 1.0, 0.0) };
    assert_eq!(toward.color(&world, 0, &mut rng), v(0.0, 0.0, 0.0));
    assert_eq!(away.color(&world, 0, &mut rng), v(0.0, 0.0, 0.0));
    assert_eq!(away.color(&world, -4, &mut rng), v(0.0, 0.0, 0.0));
}

#[test]
fn color_of_a_diffuse_hit_is_attenuated_sky() {
    let world = [Hittable::Sphere(Sphere { center: v(0.0, 0.0, -1.0), radius: fx(0.5), material: grey() })];
    let ray = Ray { origin: v(0.0, 0.0, 0.0), direction: v(0.0, 0.0, -1.0) };
    let mut rng = StdRng::seed_from_u64(11);
    let c = ray.color(&world, 2, &mut rng);
    // One bounce off a grey surface halves a sky colour whose channels lie
    // between one half and one.
    assert!(fx(0.25) <= c.x && c.x <= fx(0.5), "{:?}", c);
    assert!(fx(0.35) <= c.y && c.y <= fx(0.5), "{:?}", c);
    assert!(close(c.z, 0.5, 0.000001), "{:?}", c);
}

#[test]
fn color_is_reproducible_for_a_seed() {
    let world = [Hittable::Sphere(Sphere { center: v(0.0, 0.0, -1.0), radius: fx(0.5), material: grey() })];
    let ray = Ray { origin: v(0.0, 0.0, 0.0), direction: v(0.1, 0.0, -1.0) };
    let first = ray.color(&world, 50, &mut StdRng::seed_from_u64(99));
    let second = ray.color(&world, 50, &mut StdRng::seed_from_u64(99));
    assert_eq!(first, second);
}
