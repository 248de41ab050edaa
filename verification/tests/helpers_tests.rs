use rand::rngs::StdRng;
use rand::SeedableRng;
use raytracer::fixed::Fixed;
use raytracer::helpers::{
    between, fraction_from_bits, random_f32, random_f32_in_range, random_in_hemisphere,
    random_in_unit_disk, random_in_unit_sphere, random_unit_vector, random_vec3, toward,
};
use raytracer::vec3::{dot_product, Vec3};

fn fx(value: f64) -> Fixed {
    Fixed { raw: (value * 1e9).round() as i64 }
}

fn v(x: f64, y: f64, z: f64) -> Vec3 {
    Vec3 { x: fx(x), y: fx(y), z: fx(z) }
}

#[test]
fn fractions_keep_the_upper_bits() {
    assert_eq!(fraction_from_bits(0), fx(0.0));
    assert_eq!(fraction_from_bits(255), fx(0.0));
    assert_eq!(fraction_from_bits(256), Fixed { raw: 59 });
    assert_eq!(fraction_from_bits(0x8000_0000), fx(0.5));
    assert_eq!(fraction_from_bits(0x4000_0000), fx(0.25));
    assert_eq!(fraction_from_bits(u32::MAX), Fixed { raw: 999_999_940 });
}

#[test]
fn between_interpolates() {
    assert_eq!(between(fx(-1.0), fx(1.0), fx(0.0)), fx(-1.0));
    assert_eq!(between(fx(-1.0), fx(1.0), fx(0.5)), fx(0.0));
    assert_eq!(between(fx(-1.0), fx(1.0), fx(0.75)), fx(0.5));
    assert_eq!(between(fx(2.0), fx(4.0), fx(0.25)), fx(2.5));
}

#[test]
fn random_numbers_are_fractions() {
    let mut rng = StdRng::seed_from_u64(1);
    let mut seen_low = false;
    let mut seen_high = false;
    for _ in 0..1000 {
        let r = random_f32(&mut rng);
        assert!(fx(0.0) <= r && r < fx(1.0));
        seen_low |= r < fx(0.5);
        seen_high |= r >= fx(0.5);
    }
    assert!(seen_low && seen_high);
}

#[test]
fn random_numbers_follow_the_generator() {
    let mut first = StdRng::seed_from_u64(77);
    let mut second = StdRng::seed_from_u64(77);
    let mut other = StdRng::seed_from_u64(78);
    let a: Vec<Fixed> = (0..16).map(|_| random_f32(&mut first)).collect();
    let b: Vec<Fixed> = (0..16).map(|_| random_f32(&mut second)).collect();
    let c: Vec<Fixed> = (0..16).map(|_| random_f32(&mut other)).collect();
    assert_eq!(a, b);
    assert_ne!(a, c);
}

#[test]
fn random_numbers_in_a_range_stay_in_it() {
    let mut rng = StdRng::seed_from_u64(2);
    for _ in 0..1000 {
        let r = random_f32_in_range(fx(-3.0), fx(0.5), &mut rng);
        assert!(fx(-3.0) <= r && r <= fx(0.5));
        let w = random_vec3(fx(0.0), fx(1.0), &mut rng);
        assert!(fx(0.0) <= w.x && w.x <= fx(1.0));
        assert!(fx(0.0) <= w.y && w.y <= fx(1.0));
        assert!(fx(0.0) <= w.z && w.z <= fx(1.0));
    }
}

#[test]
fn random_points_lie_in_their_regions() {
    let mut rng = StdRng::seed_from_u64(3);
    let normal = v(0.0, 0.6, 0.8);
    for _ in 0..1000 {
        assert!(random_in_unit_sphere(&mut rng).len_squared() < fx(1.0));
        let disk = random_in_unit_disk(&mut rng);
        assert!(disk.len_squared() < fx(1.0));
        assert_eq!(disk.z, fx(0.0));
        let hemi = random_in_hemisphere(normal, &mut rng);
        assert!(hemi.len_squared() < fx(1.0));
        assert!(dot_product(hemi, normal) >= fx(0.0));
        let unit = random_unit_vector(&mut rng);
        let len = unit.len();
        assert!(fx(0.999999) <= len && len <= fx(1.000001), "{:?}", unit);
    }
}

#[test]
fn toward_turns_into_the_hemisphere() {
    let normal = v(0.0, 1.0, 0.0);
    assert_eq!(toward(v(0.1, 0.2, 0.3), normal), v(0.1, 0.2, 0.3));
    assert_eq!(toward(v(0.1, -0.2, 0.3), normal), v(-0.1, 0.2, -0.3));
    assert_eq!(toward(v(0.1, 0.0, 0.3), normal), v(-0.1, 0.0, -0.3));
}
