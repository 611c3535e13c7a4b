use pathtracer::camera::Camera;
use pathtracer::fx::{FX_MAX, SCALE};
use pathtracer::geometry::{Geometry, Sphere};
use pathtracer::material::{Lambertian, Material};
use pathtracer::ray::Ray;
use pathtracer::raytracer::{Raytracer, T_EPSILON};
use pathtracer::render::{
    color_to_rgb8, gamma_channel, partition_rows, quantize_channel, render, render_band,
    render_normals, Framebuffer, Rgb8,
};
use pathtracer::rng::random_fx;
use pathtracer::scene::Scene;
use pathtracer::vec3::Vec3;

fn v(x: i64, y: i64, z: i64) -> Vec3 {
    Vec3 { x, y, z }
}

#[test]
fn quantize_channel_values() {
    assert_eq!(quantize_channel(0), 0);
    assert_eq!(quantize_channel(-5), 0);
    assert_eq!(quantize_channel(SCALE), 255);
    assert_eq!(quantize_channel(2 * SCALE), 255);
    assert_eq!(quantize_channel(SCALE / 2), 128);
}

#[test]
fn gamma_channel_values() {
    assert_eq!(gamma_channel(SCALE), SCALE);
    assert_eq!(gamma_channel(0), 0);
    // sqrt(0.25) = 0.5
    assert_eq!(gamma_channel(25000), 50000);
    assert_eq!(gamma_channel(-3), 0);
}

#[test]
fn color_quantization_pipeline() {
    let p = color_to_rgb8(&v(0, 25000, SCALE));
    assert_eq!(p, Rgb8 { r: 0, g: 128, b: 255 });
}

// The scanline partition covers [0, height) exactly once, whatever the
// divisibility.
#[test]
fn partition_covers_exactly() {
    let bands = partition_rows(17, 5);
    assert_eq!(bands, vec![(0, 4), (4, 8), (8, 11), (11, 14), (14, 17)]);

    let even = partition_rows(6, 3);
    assert_eq!(even, vec![(0, 2), (2, 4), (4, 6)]);

    // more workers than rows: trailing bands are empty, nothing is dropped
    let sparse = partition_rows(5, 8);
    assert_eq!(
        sparse,
        vec![(0, 1), (1, 2), (2, 3), (3, 4), (4, 5), (5, 5), (5, 5), (5, 5)]
    );

    for (height, workers) in [(0usize, 3usize), (1, 1), (100, 7), (33, 32)] {
        let bands = partition_rows(height, workers);
        assert_eq!(bands.len(), workers);
        let mut covered = vec![0usize; height];
        for (start, end) in bands {
            assert!(start <= end && end <= height);
            for row in start..end {
                covered[row] += 1;
            }
        }
        assert!(covered.iter().all(|&c| c == 1));
    }
}

#[test]
fn framebuffer_set_get_row_major() {
    let mut fb = Framebuffer::new(3, 2);
    assert_eq!(fb.get_pixel(2, 1), Rgb8 { r: 0, g: 0, b: 0 });
    fb.set_pixel(2, 1, Rgb8 { r: 9, g: 8, b: 7 });
    assert_eq!(fb.get_pixel(2, 1), Rgb8 { r: 9, g: 8, b: 7 });
    assert_eq!(fb.get_pixel(0, 0), Rgb8 { r: 0, g: 0, b: 0 });
    // row-major, top row first
    assert_eq!(fb.pixels[1 * 3 + 2], Rgb8 { r: 9, g: 8, b: 7 });
}

#[test]
fn random_draws_stay_in_range() {
    for _ in 0..200 {
        let r = random_fx(-5, 7);
        assert!(-5 <= r && r <= 7);
        let c = Vec3::random();
        assert!(0 <= c.x && c.x <= SCALE && 0 <= c.y && c.y <= SCALE && 0 <= c.z && c.z <= SCALE);
        let b = Vec3::random_range(-300, 200);
        assert!(-300 <= b.x && b.x <= 200);
    }
}

#[test]
fn unit_sphere_sampler_yields_unit_vectors() {
    for _ in 0..100 {
        let u = Vec3::random_on_unit_sphere();
        let ls = u.len_squared();
        assert!(90000 <= ls && ls <= 110000, "squared length {ls}");
    }
}

#[test]
fn hemisphere_sampler_faces_the_normal() {
    let n = v(0, SCALE, 0);
    for _ in 0..100 {
        let u = Vec3::random_on_hemisphere(&n);
        assert!(u.dot(&n) >= 0);
    }
}

#[test]
fn camera_derives_viewport() {
    // height 480 at 16:9 gives a 853-pixel-wide image (floored)
    let cam = Camera::new(480, 177778, SCALE, 2 * SCALE, 10, v(0, 0, 0));
    assert_eq!(cam.width, 853);
    assert_eq!(cam.height, 480);
    assert_eq!(cam.samples_per_pixel, 10);
}

#[test]
fn camera_rays_are_deterministic_given_jitter() {
    let cam = Camera::new(4, 150000, SCALE, 2 * SCALE, 1, v(0, 0, 0));
    assert_eq!(cam.width, 6);
    let a = cam.ray_for_pixel_jittered(2, 1, 0, 0);
    let b = cam.ray_for_pixel_jittered(2, 1, 0, 0);
    assert_eq!(a, b);
    let c = cam.ray_for_pixel_jittered(2, 1, 40000, -40000);
    assert!(a != c);
    let r = cam.generate_ray_for_pixel(3, 2);
    assert_eq!(r.origin, v(0, 0, 0));
    let ls = r.direction.len_squared();
    assert!(95000 <= ls && ls <= 105000);
}

#[test]
fn render_band_shape_and_channel_range() {
    let mut scene = Scene::new();
    scene.add(Geometry::Sphere(Sphere {
        origin: v(0, 0, -3 * SCALE),
        radius: SCALE,
        material: Material::Lambertian(Lambertian { albedo: v(70000, 30000, 30000) }),
    }));
    let cam = Camera::new(4, 150000, SCALE, 2 * SCALE, 2, v(0, 0, 0));
    let tracer = Raytracer::new(v(50000, 70000, SCALE), 4);
    let band = render_band(&scene, &cam, &tracer, 1, 3);
    assert_eq!(band.len(), 2 * 6);
    let fb = render(&scene, &cam, &tracer);
    assert_eq!(fb.pixels.len(), 4 * 6);
    assert_eq!(fb.width, 6);
    assert_eq!(fb.height, 4);
}

// End to end: a single large sphere below the camera, one centered sample
// per pixel, depth 0. Every pixel whose ray misses equals the analytic
// background gradient; every pixel whose ray hits equals the fixed
// normal-visualization shade.
#[test]
fn normals_pass_matches_analytic_values() {
    let mut scene = Scene::new();
    scene.add(Geometry::Sphere(Sphere {
        origin: v(0, -10050000, -SCALE),
        radius: 100 * SCALE,
        material: Material::Lambertian(Lambertian { albedo: v(80000, 80000, 0) }),
    }));
    let cam = Camera::new(4, 150000, SCALE, 2 * SCALE, 1, v(0, 0, 0));
    let tracer = Raytracer::new(v(50000, 70000, SCALE), 0);
    let fb = render_normals(&scene, &cam, &tracer);
    assert_eq!(fb.width, 6);
    assert_eq!(fb.height, 4);
    let mut hits = 0;
    let mut misses = 0;
    for y in 0..4u32 {
        for x in 0..6u32 {
            let ray = cam.ray_for_pixel_jittered(x, y, 0, 0);
            let expected = match scene.cast_ray(&ray, T_EPSILON, FX_MAX) {
                Some(hit) => {
                    hits += 1;
                    color_to_rgb8(&hit.normal.add(&Vec3::unit()).scale(SCALE / 2))
                }
                None => {
                    misses += 1;
                    color_to_rgb8(&tracer.background_color(&ray))
                }
            };
            assert_eq!(fb.get_pixel(x, y), expected, "pixel ({x}, {y})");
        }
    }
    // the ground fills the lower rows, the sky the upper ones
    assert!(hits > 0 && misses > 0);
}
