use rand::rngs::StdRng;
use rand::SeedableRng;
use raytracer::camera::Camera;
use raytracer::fixed::Fixed;
use raytracer::ray::Ray;
use raytracer::vec3::Vec3;

fn fx(value: f64) -> Fixed {
    Fixed { raw: (value * 1e9).round() as i64 }
}

fn v(x: f64, y: f64, z: f64) -> Vec3 {
    Vec3 { x: fx(x), y: fx(y), z: fx(z) }
}

fn near(a: Vec3, b: Vec3, d: f64) -> bool {
    let close = |p: Fixed, q: Fixed| ((p.raw - q.raw) as f64 / 1e9).abs() <= d;
    close(a.x, b.x) && close(a.y, b.y) && close(a.z, b.z)
}

fn square_on(aperture: f64) -> Camera {
    Camera::new(
        v(0.0, 0.0, 0.0),
        v(0.0, 0.0, -1.0),
        v(0.0, 1.0, 0.0),
        fx(90.0),
        fx(2.0),
        fx(aperture),
        fx(1.0),
    )
}

#[test]
fn camera_frame_and_viewport() {
    let camera = square_on(0.0);
    assert_eq!(camera.origin, v(0.0, 0.0, 0.0));
    assert_eq!(camera.w, v(0.0, 0.0, 1.0));
    assert_eq!(camera.u, v(1.0, 0.0, 0.0));
    assert_eq!(camera.v, v(0.0, 1.0, 0.0));
    assert_eq!(camera.lens_radius, fx(0.0));
    assert!(near(camera.horizontal, v(4.0, 0.0, 0.0), 1e-7), "{:?}", camera);
    assert!(near(camera.vertical, v(0.0, 2.0, 0.0), 1e-7), "{:?}", camera);
    assert!(near(camera.lower_left_corner, v(-2.0, -1.0, -1.0), 1e-7), "{:?}", camera);
}

#[test]
fn camera_scales_with_the_focus_distance() {
    let camera = Camera::new(
        v(13.0, 2.0, 3.0),
        v(0.0, 0.0, 0.0),
        v(0.0, 1.0, 0.0),
        fx(20.0),
        Fixed::from_ratio(16, 9),
        fx(0.1),
        fx(10.0),
    );
    assert_eq!(camera.origin, v(13.0, 2.0, 3.0));
    assert_eq!(camera.lens_radius, fx(0.05));
    let len = |a: Vec3| a.len().raw as f64 / 1e9;
    assert!((len(camera.w) - 1.0).abs() < 1e-6);
    assert!((len(camera.u) - 1.0).abs() < 1e-6);
    assert!((len(camera.v) - 1.0).abs() < 1e-6);
    // The viewport is 2 tan(10 degrees) high at unit distance.
    assert!((len(camera.vertical) - 3.52653962).abs() < 1e-5, "{}", len(camera.vertical));
    assert!((len(camera.horizontal) - 6.26940377).abs() < 1e-5, "{}", len(camera.horizontal));
    // The centre of the focus plane lies ten units toward the point looked at.
    let centre = camera.lower_left_corner
        + camera.horizontal / fx(2.0)
        + camera.vertical / fx(2.0);
    let expected = camera.origin - camera.w * fx(10.0);
    assert!(near(centre, expected, 1e-6));
}

#[test]
fn pinhole_rays_start_at_the_origin_whatever_is_drawn() {
    let camera = square_on(0.0);
    let expected = camera.get_ray_through(fx(0.25), fx(0.75), Vec3::zero());
    assert_eq!(expected.origin, camera.origin);
    assert!(near(expected.direction, v(-1.0, 0.5, -1.0), 1e-7), "{:?}", expected);
    assert_eq!(camera.get_ray_through(fx(0.25), fx(0.75), v(0.3, -0.6, 0.0)), expected);
    for seed in 0..20 {
        let mut rng = StdRng::seed_from_u64(seed);
        assert_eq!(camera.get_ray(fx(0.25), fx(0.75), &mut rng), expected);
    }
}

#[test]
fn lens_rays_meet_in_the_focus_plane() {
    let camera = square_on(1.0);
    let target = camera.lower_left_corner
        + camera.horizontal * fx(0.5)
        + camera.vertical * fx(0.5);
    let ray = camera.get_ray_through(fx(0.5), fx(0.5), v(0.5, -0.5, 0.0));
    assert_eq!(ray.origin, v(0.25, -0.25, 0.0));
    assert!(near(ray.at(fx(1.0)), target, 1e-8));
    let mut rng = StdRng::seed_from_u64(4);
    let mut moved = false;
    for _ in 0..50 {
        let ray: Ray = camera.get_ray(fx(0.5), fx(0.5), &mut rng);
        let offset = ray.origin - camera.origin;
        assert!(offset.len_squared() < fx(0.25));
        assert_eq!(offset.z, fx(0.0));
        assert!(near(ray.at(fx(1.0)), target, 1e-8));
        moved |= ray.origin != camera.origin;
    }
    assert!(moved);
}

#[test]
fn degenerate_camera_does_not_fail() {
    let camera = Camera::new(
        v(1.0, 1.0, 1.0),
        v(1.0, 1.0, 1.0),
        v(0.0, 1.0, 0.0),
        fx(20.0),
        fx(1.0),
        fx(0.0),
        fx(1.0),
    );
    assert_eq!(camera.w, Vec3::zero());
    assert_eq!(camera.u, Vec3::zero());
    assert_eq!(camera.v, Vec3::zero());
    assert_eq!(camera.lower_left_corner, v(1.0, 1.0, 1.0));
    let mut rng = StdRng::seed_from_u64(0);
    let ray = camera.get_ray(fx(0.5), fx(0.5), &mut rng);
    assert_eq!(ray, Ray { origin: v(1.0, 1.0, 1.0), direction: Vec3::zero() });
}
