use pathtracer::fx::{fx_add, fx_div, fx_mul, fx_sqrt, fx_sub, FX_MAX, HALF_SCALE, SCALE};
use pathtracer::geometry::{Geometry, Sphere};
use pathtracer::material::{Dielectric, Lambertian, Material, Metal};
use pathtracer::ray::Ray;
use pathtracer::raytracer::{Raytracer, T_EPSILON};
use pathtracer::scene::Scene;
use pathtracer::vec3::Vec3;

fn v(x: i64, y: i64, z: i64) -> Vec3 {
    Vec3 { x, y, z }
}

fn gray(albedo: i64) -> Material {
    Material::Lambertian(Lambertian { albedo: v(albedo, albedo, albedo) })
}

#[test]
fn scalar_ops_exact() {
    assert_eq!(fx_add(SCALE, SCALE), 2 * SCALE);
    assert_eq!(fx_sub(SCALE, 3 * SCALE), -2 * SCALE);
    assert_eq!(fx_mul(2 * SCALE, 3 * SCALE), 6 * SCALE);
    assert_eq!(fx_mul(-2 * SCALE, 3 * SCALE), -6 * SCALE);
    assert_eq!(fx_div(SCALE, 2 * SCALE), HALF_SCALE);
    assert_eq!(fx_sqrt(4 * SCALE), 2 * SCALE);
    assert_eq!(fx_sqrt(0), 0);
    // saturation at the scalar bound
    assert_eq!(fx_add(FX_MAX, FX_MAX), FX_MAX);
    assert_eq!(fx_sub(-FX_MAX, FX_MAX), -FX_MAX);
}

#[test]
fn vector_ops_exact() {
    let a = v(SCALE, 2 * SCALE, -SCALE);
    let b = v(3 * SCALE, -SCALE, SCALE);
    assert_eq!(a.add(&b), v(4 * SCALE, SCALE, 0));
    assert_eq!(a.sub(&b), v(-2 * SCALE, 3 * SCALE, -2 * SCALE));
    assert_eq!(a.neg(), v(-SCALE, -2 * SCALE, SCALE));
    assert_eq!(a.dot(&b), 0);
    assert_eq!(a.len_squared(), 6 * SCALE);
    assert_eq!(
        Vec3::right().cross(&Vec3::up()),
        v(0, 0, SCALE),
    );
    let unit = v(0, 0, 4 * SCALE).normalized();
    assert_eq!(unit, v(0, 0, SCALE));
    assert!(v(5, -5, 5).near_zero(10));
    assert!(!v(5, -15, 5).near_zero(10));
}

// Reflecting a reflected vector about the same unit normal restores the
// original vector.
#[test]
fn reflect_round_trip() {
    let n = v(0, 0, SCALE);
    let a = v(31234, -99999, 54321);
    let r = a.reflected(&n);
    assert_eq!(r, v(31234, -99999, -54321));
    assert_eq!(r.reflected(&n), a);

    let n2 = v(0, SCALE, 0);
    let b = v(-7777, 88888, 123);
    assert_eq!(b.reflected(&n2).reflected(&n2), b);
}

// Refraction with an index ratio of one returns the direction unchanged.
#[test]
fn refract_identity_at_ratio_one() {
    let uv = v(0, 0, -SCALE);
    let n = v(0, 0, SCALE);
    assert_eq!(uv.refracted(&n, SCALE), uv);
}

// A ray aimed straight at a sphere's center: the nearer of the two
// symmetric roots is reported.
#[test]
fn sphere_head_on_hit() {
    let s = Sphere { origin: v(0, 0, -5 * SCALE), radius: 2 * SCALE, material: gray(50000) };
    let ray = Ray::new(&v(0, 0, 0), &v(0, 0, -SCALE));
    let hit = s.intersect_with(&ray, T_EPSILON, FX_MAX).expect("head-on ray must hit");
    // roots 3 and 7, symmetric about the center distance 5; the nearer wins
    assert_eq!(hit.t, 3 * SCALE);
    assert_eq!(hit.point, v(0, 0, -3 * SCALE));
    assert_eq!(hit.normal, v(0, 0, SCALE));
}

// When the nearer root lies before the window, the farther one is used.
#[test]
fn sphere_inside_uses_far_root() {
    let s = Sphere { origin: v(0, 0, 0), radius: 2 * SCALE, material: gray(50000) };
    let ray = Ray::new(&v(0, 0, 0), &v(0, 0, -SCALE));
    let hit = s.intersect_with(&ray, T_EPSILON, FX_MAX).expect("ray from center must hit");
    assert_eq!(hit.t, 2 * SCALE);
}

// A ray whose perpendicular offset exceeds the radius misses entirely.
#[test]
fn sphere_miss_returns_none() {
    let s = Sphere { origin: v(0, 3 * SCALE, -5 * SCALE), radius: 2 * SCALE, material: gray(50000) };
    let ray = Ray::new(&v(0, 0, 0), &v(0, 0, -SCALE));
    assert!(s.intersect_with(&ray, T_EPSILON, FX_MAX).is_none());
}

// A tangent ray (offset equal to the radius) has discriminant exactly zero
// and a single repeated root.
#[test]
fn sphere_tangent_single_root() {
    let s = Sphere { origin: v(0, 2 * SCALE, -5 * SCALE), radius: 2 * SCALE, material: gray(50000) };
    let ray = Ray::new(&v(0, 0, 0), &v(0, 0, -SCALE));
    let hit = s.intersect_with(&ray, T_EPSILON, FX_MAX).expect("tangent ray touches");
    // both roots coincide at the center distance
    assert_eq!(hit.t, 5 * SCALE);
}

// The closest-hit query over two overlapping spheres returns the strictly
// smaller parameter.
#[test]
fn cast_ray_picks_closest() {
    let far = Sphere {
        origin: v(0, 0, -10 * SCALE),
        radius: 2 * SCALE,
        material: Material::Lambertian(Lambertian { albedo: v(10000, 0, 0) }),
    };
    let near = Sphere {
        origin: v(0, 0, -6 * SCALE),
        radius: 2 * SCALE,
        material: Material::Lambertian(Lambertian { albedo: v(0, 20000, 0) }),
    };
    let mut scene = Scene::new();
    scene.add(Geometry::Sphere(far));
    scene.add(Geometry::Sphere(near));
    let ray = Ray::new(&v(0, 0, 0), &v(0, 0, -SCALE));
    let hit = scene.cast_ray(&ray, T_EPSILON, FX_MAX).expect("both spheres lie on the ray");
    assert_eq!(hit.t, 4 * SCALE);
    match hit.material {
        Material::Lambertian(l) => assert_eq!(l.albedo, v(0, 20000, 0)),
        _ => panic!("wrong material"),
    }
}

// Ties go to the earliest inserted shape.
#[test]
fn cast_ray_tie_keeps_first() {
    let a = Sphere {
        origin: v(0, 0, -6 * SCALE),
        radius: 2 * SCALE,
        material: Material::Lambertian(Lambertian { albedo: v(11111, 0, 0) }),
    };
    let b = Sphere {
        origin: v(0, 0, -6 * SCALE),
        radius: 2 * SCALE,
        material: Material::Lambertian(Lambertian { albedo: v(0, 22222, 0) }),
    };
    let mut scene = Scene::new();
    scene.add(Geometry::Sphere(a));
    scene.add(Geometry::Sphere(b));
    let ray = Ray::new(&v(0, 0, 0), &v(0, 0, -SCALE));
    let hit = scene.cast_ray(&ray, T_EPSILON, FX_MAX).expect("hit expected");
    match hit.material {
        Material::Lambertian(l) => assert_eq!(l.albedo, v(11111, 0, 0)),
        _ => panic!("wrong material"),
    }
}

#[test]
fn cast_ray_empty_scene_is_none() {
    let scene = Scene::new();
    let ray = Ray::new(&v(0, 0, 0), &v(0, 0, -SCALE));
    assert!(scene.cast_ray(&ray, T_EPSILON, FX_MAX).is_none());
}

// Schlick reflectance: exact endpoints, range, and monotone growth toward
// grazing incidence.
#[test]
fn schlick_reflectance_values() {
    // equal indices: r0 = 0, and head-on incidence adds nothing
    assert_eq!(Dielectric::reflectance(SCALE, SCALE), 0);
    // grazing incidence reflects fully
    assert_eq!(Dielectric::reflectance(0, SCALE), SCALE);
    let eta = 150000; // a glass-like ratio
    let mut prev = Dielectric::reflectance(SCALE, eta);
    let mut cos = SCALE;
    while cos >= 0 {
        let r = Dielectric::reflectance(cos, eta);
        assert!(0 <= r && r <= SCALE);
        assert!(r >= prev || cos == SCALE);
        prev = r;
        cos -= 12500;
    }
    assert!(Dielectric::reflectance(25000, eta) >= Dielectric::reflectance(75000, eta));
}

// At the depth bound the integrator returns exactly the zero vector,
// whatever the scene holds.
#[test]
fn ray_color_at_depth_bound_is_black() {
    let mut scene = Scene::new();
    scene.add(Geometry::Sphere(Sphere {
        origin: v(0, 0, -3 * SCALE),
        radius: SCALE,
        material: gray(80000),
    }));
    let tracer = Raytracer::new(v(50000, 70000, SCALE), 0);
    let ray = Ray::new(&v(0, 0, 0), &v(0, 0, -SCALE));
    assert_eq!(tracer.ray_color(&ray, &scene), v(0, 0, 0));
}

// A miss yields exactly the background gradient.
#[test]
fn background_gradient_endpoints() {
    let bg = v(50000, 70000, SCALE);
    let tracer = Raytracer::new(bg, 5);
    let up = Ray::new(&v(0, 0, 0), &v(0, 2 * SCALE, 0));
    assert_eq!(tracer.background_color(&up), bg);
    let down = Ray::new(&v(0, 0, 0), &v(0, -2 * SCALE, 0));
    assert_eq!(tracer.background_color(&down), v(SCALE, SCALE, SCALE));
    // an empty scene always falls through to the gradient
    let scene = Scene::new();
    assert_eq!(tracer.ray_color(&up, &scene), bg);
}

// Deterministic scattering cores, draws handed in by hand.
#[test]
fn scatter_with_lambertian() {
    let m = Material::Lambertian(Lambertian { albedo: v(70000, 30000, 30000) });
    let hit = pathtracer::geometry::Intersect {
        t: SCALE,
        point: v(0, 0, -SCALE),
        normal: v(0, SCALE, 0),
        material: m,
    };
    let ray = Ray::new(&v(0, 0, 0), &v(0, 0, -SCALE));
    let (scattered, att) = m.scatter_with(&ray, &hit, v(0, 0, SCALE), 0);
    assert_eq!(att, v(70000, 30000, 30000));
    assert_eq!(scattered.origin, hit.point);
    // normal + sample = (0, 1, 1), normalized with the fixed-point sqrt
    assert_eq!(scattered.direction, v(0, 70710, 70710));
    // a degenerate sum falls back to the surface normal
    let (fallback, _) = m.scatter_with(&ray, &hit, v(0, -SCALE, 0), 0);
    assert_eq!(fallback.direction, v(0, SCALE, 0));
}

#[test]
fn scatter_with_metal_mirror() {
    let m = Material::Metal(Metal { albedo: v(80000, 80000, 80000), fuzz: 0 });
    let hit = pathtracer::geometry::Intersect {
        t: SCALE,
        point: v(0, 0, -SCALE),
        normal: v(0, 0, SCALE),
        material: m,
    };
    let ray = Ray::new(&v(0, 0, 0), &v(0, 0, -SCALE));
    let (scattered, att) = m.scatter_with(&ray, &hit, v(0, SCALE, 0), 0);
    assert_eq!(att, v(80000, 80000, 80000));
    // a head-on ray reflects straight back off the mirror
    assert_eq!(scattered.direction, v(0, 0, SCALE));
}

#[test]
fn scatter_with_dielectric_refracts_straight_through() {
    let m = Material::Dielectric(Dielectric { eta: SCALE });
    let hit = pathtracer::geometry::Intersect {
        t: SCALE,
        point: v(0, 0, -SCALE),
        normal: v(0, 0, SCALE),
        material: m,
    };
    let ray = Ray::new(&v(0, 0, 0), &v(0, 0, -SCALE));
    // coin at the top of its range: never reflect when r is below it
    let (scattered, att) = m.scatter_with(&ray, &hit, v(0, SCALE, 0), SCALE);
    assert_eq!(att, v(SCALE, SCALE, SCALE));
    assert_eq!(scattered.direction, v(0, 0, -SCALE));
}

#[test]
fn scatter_with_dielectric_total_internal_reflection() {
    let m = Material::Dielectric(Dielectric { eta: 2 * SCALE });
    // leaving the dense medium at a grazing angle: the outward normal
    // points against the ray, so the back face is taken
    let hit = pathtracer::geometry::Intersect {
        t: SCALE,
        point: v(0, 0, 0),
        normal: v(0, 0, -SCALE),
        material: m,
    };
    let ray = Ray::new(&v(0, 0, SCALE), &v(80000, 0, -60000));
    let (scattered, _) = m.scatter_with(&ray, &hit, v(0, SCALE, 0), SCALE);
    // sin²θt = 4 · (1 - 0.36) = 2.56 > 1: reflected, not refracted
    assert_eq!(scattered.direction, v(80000, 0, 60000));
}

#[test]
fn ray_evaluates_points_along_direction() {
    let ray = Ray::new(&v(SCALE, 0, 0), &v(0, 0, -3 * SCALE));
    assert_eq!(ray.direction, v(0, 0, -SCALE));
    assert_eq!(ray.at(2 * SCALE), v(SCALE, 0, -2 * SCALE));
    assert_eq!(ray.at(0), v(SCALE, 0, 0));
}

#[test]
fn geometry_dispatch_matches_sphere() {
    let s = Sphere { origin: v(0, 0, -5 * SCALE), radius: 2 * SCALE, material: gray(50000) };
    let g = Geometry::Sphere(s);
    let ray = Ray::new(&v(0, 0, 0), &v(0, 0, -SCALE));
    let a = g.intersect_with(&ray, T_EPSILON, FX_MAX).expect("hit");
    let b = s.intersect_with(&ray, T_EPSILON, FX_MAX).expect("hit");
    assert_eq!(a.t, b.t);
    assert_eq!(a.point, b.point);
    assert_eq!(a.normal, b.normal);
}

#[test]
fn scatter_draws_leave_attenuation_fixed() {
    let m = Material::Lambertian(Lambertian { albedo: v(70000, 30000, 30000) });
    let hit = pathtracer::geometry::Intersect {
        t: SCALE,
        point: v(0, 0, -SCALE),
        normal: v(0, SCALE, 0),
        material: m,
    };
    let ray = Ray::new(&v(0, 0, 0), &v(0, 0, -SCALE));
    for _ in 0..50 {
        let (scattered, att) = m.scatter(&ray, &hit);
        assert_eq!(att, v(70000, 30000, 30000));
        assert_eq!(scattered.origin, hit.point);
        let ls = scattered.direction.len_squared();
        assert!(90000 <= ls && ls <= 110000, "squared length {ls}");
    }
}
