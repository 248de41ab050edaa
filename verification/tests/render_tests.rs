use rand::rngs::StdRng;
use rand::SeedableRng;
use raytracer::camera::Camera;
use raytracer::fixed::Fixed;
use raytracer::hittable::{Hittable, Sphere};
use raytracer::material::{Dielectric, Lambertian, Material, Metal};
use raytracer::ppm::{channel, generate_ppm};
use raytracer::render::{
    assemble, band_rows, coordinate, image_height, pixel_index, render, render_band, sample,
    sample_pixel,
};
use raytracer::scene::{keeps_clear, random_scene, small_center, small_material};
use raytracer::vec3::{Color, Vec3};

fn fx(value: f64) -> Fixed {
    Fixed { raw: (value * 1e9).round() as i64 }
}

fn v(x: f64, y: f64, z: f64) -> Vec3 {
    Vec3 { x: fx(x), y: fx(y), z: fx(z) }
}

fn camera() -> Camera {
    Camera::new(
        v(0.0, 0.0, 0.0),
        v(0.0, 0.0, -1.0),
        v(0.0, 1.0, 0.0),
        fx(90.0),
        fx(2.0),
        fx(0.0),
        fx(1.0),
    )
}

fn single_sphere() -> Vec<Hittable> {
    vec![Hittable::Sphere(Sphere {
        center: v(0.0, 0.0, -1.0),
        radius: fx(0.5),
        material: Material::Lambertian(Lambertian { albedo: v(0.5, 0.5, 0.5) }),
    })]
}

#[test]
fn pixel_places_run_row_by_row_from_the_top() {
    assert_eq!(pixel_index(4, 3, 0, 2), 0);
    assert_eq!(pixel_index(4, 3, 3, 2), 3);
    assert_eq!(pixel_index(4, 3, 1, 1), 5);
    assert_eq!(pixel_index(4, 3, 0, 0), 8);
    assert_eq!(pixel_index(4, 3, 3, 0), 11);
    let mut seen = vec![false; 12];
    for j in 0..3 {
        for i in 0..4 {
            let place = pixel_index(4, 3, i, j);
            assert!(!seen[place]);
            seen[place] = true;
        }
    }
    assert!(seen.iter().all(|&s| s));
}

#[test]
fn bands_share_out_all_rows() {
    assert_eq!(band_rows(10, 3, 0), (0, 3));
    assert_eq!(band_rows(10, 3, 1), (3, 6));
    assert_eq!(band_rows(10, 3, 2), (6, 10));
    assert_eq!(band_rows(2, 4, 0), (0, 0));
    assert_eq!(band_rows(2, 4, 1), (0, 1));
    assert_eq!(band_rows(2, 4, 2), (1, 1));
    assert_eq!(band_rows(2, 4, 3), (1, 2));
    assert_eq!(band_rows(0, 2, 1), (0, 0));
    assert_eq!(band_rows(225, 1, 0), (0, 225));
    for workers in 1..9 {
        let mut next = 0;
        for k in 0..workers {
            let (first, last) = band_rows(225, workers, k);
            assert_eq!(first, next);
            assert!(first <= last);
            next = last;
        }
        assert_eq!(next, 225);
    }
}

#[test]
fn coordinates_span_the_image() {
    assert_eq!(coordinate(0, fx(0.5), 5), fx(0.125));
    assert_eq!(coordinate(4, fx(0.0), 5), fx(1.0));
    assert_eq!(coordinate(2, fx(0.0), 5), fx(0.5));
    assert_eq!(coordinate(0, fx(0.25), 1), fx(0.25));
    assert_eq!(coordinate(0, fx(0.25), 0), fx(0.25));
}

#[test]
fn image_height_follows_the_aspect_ratio() {
    assert_eq!(image_height(400, Fixed::from_ratio(16, 9)), 225);
    assert_eq!(image_height(400, fx(2.0)), 200);
    assert_eq!(image_height(3, fx(2.0)), 1);
    assert_eq!(image_height(400, fx(0.0)), i32::MAX);
    assert_eq!(image_height(-400, fx(0.0)), i32::MIN);
    assert_eq!(image_height(0, fx(0.0)), 0);
}

#[test]
fn a_sample_of_the_empty_world_is_sky() {
    let mut rng = StdRng::seed_from_u64(12);
    for j in 0..3 {
        for i in 0..4 {
            let c = sample(&[], &camera(), 4, 3, 10, i, j, &mut rng);
            assert!(fx(0.5) <= c.x && c.x <= fx(1.0));
            assert!(fx(0.7) <= c.y && c.y <= fx(1.0));
            assert!(fx(0.999999) <= c.z && c.z <= fx(1.0));
        }
    }
}

#[test]
fn a_pixel_sums_its_samples() {
    let mut rng = StdRng::seed_from_u64(13);
    let none = sample_pixel(&[], &camera(), 4, 3, 0, 10, 1, 1, &mut rng);
    assert_eq!(none, Vec3::zero());
    let fewer = sample_pixel(&[], &camera(), 4, 3, -2, 10, 1, 1, &mut rng);
    assert_eq!(fewer, Vec3::zero());
    let eight = sample_pixel(&[], &camera(), 4, 3, 8, 10, 1, 1, &mut rng);
    assert!(fx(7.99999) <= eight.z && eight.z <= fx(8.0), "{:?}", eight);
    assert!(fx(4.0) <= eight.x && eight.x <= fx(8.0));
    let mut again = StdRng::seed_from_u64(14);
    let mut by_hand = StdRng::seed_from_u64(14);
    let summed = sample_pixel(&single_sphere(), &camera(), 4, 3, 3, 10, 2, 1, &mut again);
    let mut expected = Vec3::zero();
    for _ in 0..3 {
        expected += &sample(&single_sphere(), &camera(), 4, 3, 10, 2, 1, &mut by_hand);
    }
    assert_eq!(summed, expected);
}

#[test]
fn rendering_is_reproducible_for_a_seed() {
    let world = single_sphere();
    let first = render(&world, &camera(), 8, 4, 1, 10, &mut StdRng::seed_from_u64(2024));
    let second = render(&world, &camera(), 8, 4, 1, 10, &mut StdRng::seed_from_u64(2024));
    let other = render(&world, &camera(), 8, 4, 1, 10, &mut StdRng::seed_from_u64(2025));
    assert_eq!(first.len(), 32);
    assert_eq!(first, second);
    assert_ne!(first, other);
}

#[test]
fn rendering_shows_the_sphere_in_the_middle() {
    let world = single_sphere();
    let frame = render(&world, &camera(), 9, 5, 4, 10, &mut StdRng::seed_from_u64(6));
    assert_eq!(frame.len(), 45);
    // The corners see the sky: four samples whose blue channel is one each.
    for (i, j) in [(0, 0), (8, 0), (0, 4), (8, 4)] {
        let corner = frame[pixel_index(9, 5, i, j)];
        assert!(fx(3.99999) <= corner.z && corner.z <= fx(4.0), "{:?}", corner);
    }
    // The centre sees the grey sphere, which passes on half the light at most.
    let centre = frame[pixel_index(9, 5, 4, 2)];
    assert!(centre.z <= fx(2.0), "{:?}", centre);
    assert!(centre.z > fx(0.0), "{:?}", centre);
}

#[test]
fn empty_images_have_no_pixels() {
    let mut rng = StdRng::seed_from_u64(1);
    assert!(render(&single_sphere(), &camera(), 0, 5, 4, 10, &mut rng).is_empty());
    assert!(render(&single_sphere(), &camera(), 5, 0, 4, 10, &mut rng).is_empty());
    assert!(render_band(&single_sphere(), &camera(), 5, 4, 4, 10, 2, 2, &mut rng).is_empty());
}

#[test]
fn bands_join_to_the_frame() {
    let world = single_sphere();
    let whole = render(&world, &camera(), 6, 5, 2, 10, &mut StdRng::seed_from_u64(31));
    let mut rng = StdRng::seed_from_u64(31);
    let mut bands = Vec::new();
    for k in 0..3 {
        let (first, last) = band_rows(5, 3, k);
        bands.push(render_band(&world, &camera(), 6, 5, 2, 10, first, last, &mut rng));
    }
    assert_eq!(bands[0].len(), 6);
    assert_eq!(bands[1].len(), 12);
    assert_eq!(bands[2].len(), 12);
    assert_eq!(assemble(&bands), whole);
    assert_eq!(assemble(&Vec::new()), Vec::<Color>::new());
}

#[test]
fn channels_are_averaged_gamma_corrected_and_quantised() {
    assert_eq!(channel(fx(0.0), 1), 0);
    assert_eq!(channel(fx(0.25), 1), 128);
    assert_eq!(channel(fx(0.5), 1), 181);
    assert_eq!(channel(fx(1.0), 1), 255);
    assert_eq!(channel(fx(50.0), 1), 255);
    assert_eq!(channel(fx(-1.0), 1), 0);
    assert_eq!(channel(fx(2.0), 4), 181);
    assert_eq!(channel(fx(0.5), 4), 90);
    assert_eq!(channel(fx(250.0), 500), 181);
    assert_eq!(channel(fx(1.0), 0), 0);
    assert_eq!(channel(fx(1.0), -3), 0);
}

#[test]
fn pixmap_has_a_header_and_a_line_per_pixel() {
    let pixels = vec![v(1.0, 0.25, 0.0), v(4.0, 2.0, 0.5)];
    assert_eq!(
        generate_ppm(2, 1, &pixels, 1),
        "P3\n2 1\n255\n255 128 0\n255 255 181\n"
    );
    assert_eq!(
        generate_ppm(1, 2, &pixels, 4),
        "P3\n1 2\n255\n128 64 0\n255 181 90\n"
    );
    assert_eq!(generate_ppm(1, 1, &pixels, 1), "P3\n1 1\n255\n255 128 0\n");
    assert_eq!(generate_ppm(0, 7, &pixels, 1), "P3\n0 7\n255\n");
    assert_eq!(generate_ppm(-12, 1, &pixels, 1), "P3\n-12 1\n255\n");
    assert_eq!(generate_ppm(400, 0, &Vec::new(), 500), "P3\n400 0\n255\n");
}

#[test]
fn pixmap_of_a_rendering() {
    let world = single_sphere();
    let frame = render(&world, &camera(), 3, 2, 5, 10, &mut StdRng::seed_from_u64(9));
    let text = generate_ppm(3, 2, &frame, 5);
    let lines: Vec<&str> = text.lines().collect();
    assert_eq!(lines.len(), 9);
    assert_eq!(&lines[..3], &["P3", "3 2", "255"]);
    for line in &lines[3..] {
        let levels: Vec<u32> = line.split(' ').map(|n| n.parse().expect("a number")).collect();
        assert_eq!(levels.len(), 3);
        assert!(levels.iter().all(|&level| level <= 255));
    }
}

#[test]
fn small_spheres_pick_their_material_by_the_draw() {
    let albedo = v(0.1, 0.2, 0.3);
    assert_eq!(
        small_material(fx(0.0), albedo, fx(0.4)),
        Material::Lambertian(Lambertian { albedo })
    );
    assert_eq!(
        small_material(fx(0.799999999), albedo, fx(0.4)),
        Material::Lambertian(Lambertian { albedo })
    );
    assert_eq!(
        small_material(fx(0.8), albedo, fx(0.4)),
        Material::Metal(Metal { albedo, fuzz: fx(0.4) })
    );
    assert_eq!(
        small_material(fx(0.949999999), albedo, fx(0.4)),
        Material::Metal(Metal { albedo, fuzz: fx(0.4) })
    );
    assert_eq!(
        small_material(fx(0.95), albedo, fx(0.4)),
        Material::Dielectric(Dielectric { ir: fx(1.5) })
    );
}

#[test]
fn small_spheres_sit_in_their_cells_and_keep_clear() {
    assert_eq!(small_center(-11, 3, fx(0.0), fx(0.5)), v(-11.0, 0.2, 3.45));
    assert_eq!(small_center(4, 0, fx(0.5), fx(0.0)), v(4.45, 0.2, 0.0));
    assert!(!keeps_clear(v(4.45, 0.2, 0.0)));
    assert!(!keeps_clear(v(4.9, 0.2, 0.0)));
    assert!(keeps_clear(v(4.9, 0.2, 0.01)));
    assert!(keeps_clear(v(-11.0, 0.2, 3.45)));
}

#[test]
fn random_scene_has_its_fixed_spheres_and_a_field_of_small_ones() {
    let world = random_scene(&mut StdRng::seed_from_u64(40));
    assert!(world.len() >= 4 && world.len() <= 488);
    assert!(world.len() > 400);
    let sphere = |k: usize| match world[k] {
        Hittable::Sphere(s) => s,
    };
    assert_eq!(
        sphere(0),
        Sphere {
            center: v(0.0, -1000.0, 0.0),
            radius: fx(1000.0),
            material: Material::Lambertian(Lambertian { albedo: v(0.5, 0.5, 0.5) }),
        }
    );
    assert_eq!(
        sphere(1),
        Sphere {
            center: v(0.0, 1.0, 0.0),
            radius: fx(1.0),
            material: Material::Dielectric(Dielectric { ir: fx(1.5) }),
        }
    );
    assert_eq!(
        sphere(world.len() - 2),
        Sphere {
            center: v(-4.0, 1.0, 0.0),
            radius: fx(1.0),
            material: Material::Lambertian(Lambertian { albedo: v(0.4, 0.2, 0.1) }),
        }
    );
    assert_eq!(
        sphere(world.len() - 1),
        Sphere {
            center: v(4.0, 1.0, 0.0),
            radius: fx(1.0),
            material: Material::Metal(Metal { albedo: v(0.7, 0.6, 0.5), fuzz: fx(0.0) }),
        }
    );
    let mut kinds = [0, 0, 0];
    for k in 2..world.len() - 2 {
        let small = sphere(k);
        assert_eq!(small.radius, fx(0.2));
        assert_eq!(small.center.y, fx(0.2));
        assert!(fx(-11.0) <= small.center.x && small.center.x < fx(10.9));
        assert!(fx(-11.0) <= small.center.z && small.center.z < fx(10.9));
        assert!(keeps_clear(small.center));
        match small.material {
            Material::Lambertian(_) => kinds[0] += 1,
            Material::Metal(m) => {
                assert!(fx(0.0) <= m.fuzz && m.fuzz <= fx(0.5));
                kinds[1] += 1
            }
            Material::Dielectric(d) => {
                assert_eq!(d.ir, fx(1.5));
                kinds[2] += 1
            }
        }
    }
    assert!(kinds[0] > kinds[1] && kinds[1] > kinds[2] && kinds[2] > 0, "{:?}", kinds);
    assert_eq!(world, random_scene(&mut StdRng::seed_from_u64(40)));
}
