//! The radiance integrator.
//!
//! `ray_color` wraps a depth-bounded recursion: at the depth bound the
//! contribution is black; a miss yields the background gradient; a hit
//! scatters and recurses, attenuating the recursive radiance
//! component-wise. The depth bound is the sole termination guarantee. A
//! deterministic depth-0 variant, `normal_color`, visualizes the surface
//! normal at the first hit.

use vstd::prelude::*;

use crate::fx::{
    fx_add, fx_add_spec, fx_mul, fx_mul_spec, fx_sub, fx_sub_spec, lemma_fx_mul_le,
    lemma_fx_mul_nonneg, lemma_fx_mul_unit, FX_MAX, HALF_SCALE, SCALE,
};
use crate::geometry::{geom_hit_spec, geom_wf, Geometry, Intersect};
use crate::material::material_wf;
use crate::ray::Ray;
use crate::scene::{cast_ray_spec, lemma_cast_ray_member, scene_wf, Scene};
use crate::vec3::{add_spec, color_wf, mul_spec, scale_spec, v3, Vec3};

verus! {

/// The start of the hit window: a small positive parameter that excludes
/// self-intersection at a scattered ray's own origin ("shadow acne").
pub const T_EPSILON: i64 = 100;

/// The recursive integrator with its background color and depth bound.
pub struct Raytracer {
    pub background: Vec3,
    pub depth_max: u32,
}

/// The blend weight `0.5 (direction.y + 1)` of the background gradient,
/// clamped into `[0, 1]` (a unit direction lands inside on its own).
pub open spec fn bg_blend_spec(ray: Ray) -> int {
    let a = fx_mul_spec(HALF_SCALE as int, fx_add_spec(ray.direction.y as int, SCALE as int));
    if a < 0 {
        0
    } else if a > SCALE as int {
        SCALE as int
    } else {
        a
    }
}

/// The background gradient: white blended toward the sky color by the
/// ray's vertical direction.
pub open spec fn background_spec(rt: Raytracer, ray: Ray) -> Vec3 {
    let a = bg_blend_spec(ray);
    add_spec(
        scale_spec(v3(SCALE as int, SCALE as int, SCALE as int), fx_sub_spec(SCALE as int, a)),
        scale_spec(rt.background, a),
    )
}

/// The deterministic normal-visualization shade: `0.5 (normal + 1)` at the
/// first hit, the background gradient on a miss.
pub open spec fn normal_color_spec(rt: Raytracer, ray: Ray, geoms: Seq<Geometry>) -> Vec3 {
    match cast_ray_spec(geoms, ray, T_EPSILON as int, FX_MAX as int) {
        Option::Some(h) => scale_spec(
            add_spec(h.normal, v3(SCALE as int, SCALE as int, SCALE as int)),
            HALF_SCALE as int,
        ),
        Option::None => background_spec(rt, ray),
    }
}

impl Raytracer {
    pub fn new(background: Vec3, depth_max: u32) -> (rt: Raytracer)
        ensures
            rt.background == background,
            rt.depth_max == depth_max,
    {
        Raytracer { background, depth_max }
    }

    /// The background gradient for a ray that hits nothing.
    pub fn background_color(&self, ray: &Ray) -> (r: Vec3)
        ensures
            r == background_spec(*self, *ray),
            color_wf(self.background) ==> color_wf(r),
    {
        let mut a: i64 = fx_mul(HALF_SCALE, fx_add(ray.direction.y, SCALE));
        if a < 0 {
            a = 0;
        }
        if a > SCALE {
            a = SCALE;
        }
        let white = Vec3::unit();
        let r = white.scale(fx_sub(SCALE, a)).add(&self.background.scale(a));
        proof {
            let ai = bg_blend_spec(*ray);
            lemma_fx_mul_unit((SCALE as int) - ai);
            if color_wf(self.background) {
                lemma_fx_mul_le(self.background.x as int, ai);
                lemma_fx_mul_le(self.background.y as int, ai);
                lemma_fx_mul_le(self.background.z as int, ai);
                crate::fx::lemma_fx_mul_mono(self.background.x as int, ai, SCALE as int, ai);
                crate::fx::lemma_fx_mul_mono(self.background.y as int, ai, SCALE as int, ai);
                crate::fx::lemma_fx_mul_mono(self.background.z as int, ai, SCALE as int, ai);
                lemma_fx_mul_unit(ai);
            }
        }
        r
    }

    /// The radiance along a camera ray: the recursion started at depth
    /// zero. The promises are those of `ray_color_depth`.
    pub fn ray_color(&self, ray: &Ray, scene: &Scene) -> (r: Vec3)
        requires
            color_wf(self.background),
            scene_wf(scene.geometry@),
        ensures
            self.depth_max == 0 ==> r == v3(0, 0, 0),
            self.depth_max > 0 && cast_ray_spec(
                scene.geometry@,
                *ray,
                T_EPSILON as int,
                FX_MAX as int,
            ) is None ==> r == background_spec(*self, *ray),
            color_wf(r),
    {
        self.ray_color_depth(ray, scene, 0)
    }

    /// The depth-bounded radiance recursion. At the depth bound the
    /// contribution is exactly black, whatever the scene holds; a miss
    /// yields exactly the background gradient; and the result is always a
    /// well-formed color (each channel in `[0, 1]`). On a hit the radiance
    /// is the scattered ray's radiance attenuated component-wise, with the
    /// scattering draws made inside — so only its range is promised.
    pub fn ray_color_depth(&self, ray: &Ray, scene: &Scene, depth_cur: u32) -> (r: Vec3)
        requires
            color_wf(self.background),
            scene_wf(scene.geometry@),
        ensures
            depth_cur >= self.depth_max ==> r == v3(0, 0, 0),
            depth_cur < self.depth_max && cast_ray_spec(
                scene.geometry@,
                *ray,
                T_EPSILON as int,
                FX_MAX as int,
            ) is None ==> r == background_spec(*self, *ray),
            color_wf(r),
        decreases self.depth_max - depth_cur,
    {
        if depth_cur >= self.depth_max {
            return Vec3::zero();
        }
        let hit = scene.cast_ray(ray, T_EPSILON, FX_MAX);
        match hit {
            Option::Some(intersect) => {
                proof {
                    lemma_cast_ray_member(
                        scene.geometry@,
                        *ray,
                        T_EPSILON as int,
                        FX_MAX as int,
                    );
                    let j = choose|j: int|
                        0 <= j < scene.geometry@.len() && cast_ray_spec(
                            scene.geometry@,
                            *ray,
                            T_EPSILON as int,
                            FX_MAX as int,
                        ) == #[trigger] geom_hit_spec(
                            scene.geometry@[j],
                            *ray,
                            T_EPSILON as int,
                            FX_MAX as int,
                        );
                    assert(geom_wf(scene.geometry@[j]));
                    assert(material_wf(intersect.material));
                }
                let (scattered, attenuation) = intersect.material.scatter(ray, &intersect);
                let c = self.ray_color_depth(&scattered, scene, depth_cur + 1);
                let r = c.mul(&attenuation);
                proof {
                    lemma_fx_mul_le(c.x as int, attenuation.x as int);
                    lemma_fx_mul_le(c.y as int, attenuation.y as int);
                    lemma_fx_mul_le(c.z as int, attenuation.z as int);
                }
                r
            },
            Option::None => self.background_color(ray),
        }
    }

    /// The deterministic depth-0 normal-visualization variant: the
    /// outward normal mapped into color range at the first hit, the
    /// background gradient on a miss.
    pub fn normal_color(&self, ray: &Ray, scene: &Scene) -> (r: Vec3)
        ensures
            r == normal_color_spec(*self, *ray, scene.geometry@),
    {
        let hit = scene.cast_ray(ray, T_EPSILON, FX_MAX);
        match hit {
            Option::Some(intersect) => intersect.normal.add(&Vec3::unit()).scale(HALF_SCALE),
            Option::None => self.background_color(ray),
        }
    }
}

} // verus!
