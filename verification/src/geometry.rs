//! Geometry and ray intersection.
//!
//! A sphere is the one shape; `Geometry` is the closed set of variants with
//! dispatch in `intersect_with`. The intersection solves the half-angle
//! quadratic: for a unit ray direction, `half_b = oc·d` and
//! `c = |oc|² - r²` give the discriminant `half_b² - c`; the smaller root is
//! tried first, the larger one if the smaller lies before the window.

use vstd::prelude::*;

use crate::fx::{
    fx_add, fx_add_spec, fx_mul, fx_mul_spec, fx_neg, fx_neg_spec, fx_sqrt, fx_sqrt_spec, fx_sub,
    fx_sub_spec, iabs, lemma_isqrt_props, FX_MAX, SCALE,
};
use crate::material::Material;
use crate::ray::{ray_at_spec, Ray};
use crate::vec3::{dot_spec, len_sq_spec, normalized_spec, sub_spec, Vec3};

verus! {

/// A hit record: the ray parameter, the hit point, the outward unit normal
/// (not oriented toward the ray), and the surface's material.
#[derive(Clone, Copy, Debug)]
pub struct Intersect {
    pub t: i64,
    pub point: Vec3,
    pub normal: Vec3,
    pub material: Material,
}

/// A sphere with positive radius.
#[derive(Clone, Copy, Debug)]
pub struct Sphere {
    pub origin: Vec3,
    pub radius: i64,
    pub material: Material,
}

/// The closed set of shapes; `intersect_with` dispatches on the variant.
#[derive(Clone, Copy, Debug)]
pub enum Geometry {
    Sphere(Sphere),
}

/// The half-angle linear coefficient `oc·d` of the intersection quadratic.
pub open spec fn sphere_half_b_spec(s: Sphere, ray: Ray) -> int {
    dot_spec(sub_spec(ray.origin, s.origin), ray.direction)
}

/// The constant coefficient `|oc|² - r²`.
pub open spec fn sphere_c_spec(s: Sphere, ray: Ray) -> int {
    fx_sub_spec(
        len_sq_spec(sub_spec(ray.origin, s.origin)),
        fx_mul_spec(s.radius as int, s.radius as int),
    )
}

/// The discriminant `half_b² - c`; the ray meets the sphere iff it is
/// nonnegative.
pub open spec fn sphere_disc_spec(s: Sphere, ray: Ray) -> int {
    fx_sub_spec(
        fx_mul_spec(sphere_half_b_spec(s, ray), sphere_half_b_spec(s, ray)),
        sphere_c_spec(s, ray),
    )
}

/// The nearest hit of the ray on the sphere within `[t_min, t_max]`, or
/// none. The smaller root `-(half_b + √disc)` is tried first; if it lies
/// before the window, the larger root `√disc - half_b`. The reported normal
/// is the outward unit vector from the sphere's center (left unnormalized
/// only in the degenerate sub-tick case that cannot be normalized).
pub open spec fn sphere_hit_spec(s: Sphere, ray: Ray, t_min: int, t_max: int) -> Option<
    Intersect,
> {
    let half_b = sphere_half_b_spec(s, ray);
    let disc = sphere_disc_spec(s, ray);
    if disc >= 0 {
        let sq = fx_sqrt_spec(disc);
        let t0 = fx_neg_spec(fx_add_spec(half_b, sq));
        let t = if t0 < t_min {
            fx_sub_spec(sq, half_b)
        } else {
            t0
        };
        if t_min <= t && t <= t_max {
            let point = ray_at_spec(ray, t);
            let po = sub_spec(point, s.origin);
            let normal = if len_sq_spec(po) >= 1 {
                normalized_spec(po)
            } else {
                po
            };
            Some(Intersect { t: t as i64, point, normal, material: s.material })
        } else {
            None
        }
    } else {
        None
    }
}

/// What a shape's intersection test returns.
pub open spec fn geom_hit_spec(g: Geometry, ray: Ray, t_min: int, t_max: int) -> Option<
    Intersect,
> {
    match g {
        Geometry::Sphere(s) => sphere_hit_spec(s, ray, t_min, t_max),
    }
}

/// A shape's data invariant: positive radius and well-formed material.
pub open spec fn geom_wf(g: Geometry) -> bool {
    match g {
        Geometry::Sphere(s) => s.radius >= 1 && crate::material::material_wf(s.material),
    }
}

impl Sphere {
    /// The nearest hit within `[t_min, t_max]`, or none (see
    /// `sphere_hit_spec`).
    pub fn intersect_with(&self, ray: &Ray, t_min: i64, t_max: i64) -> (res: Option<Intersect>)
        ensures
            res == sphere_hit_spec(*self, *ray, t_min as int, t_max as int),
    {
        let oc = ray.origin.sub(&self.origin);
        let half_b: i64 = oc.dot(&ray.direction);
        let c: i64 = fx_sub(oc.len_squared(), fx_mul(self.radius, self.radius));
        let disc: i64 = fx_sub(fx_mul(half_b, half_b), c);
        if disc >= 0 {
            let sq: i64 = fx_sqrt(disc);
            let mut t: i64 = fx_neg(fx_add(half_b, sq));
            if t < t_min {
                t = fx_sub(sq, half_b);
            }
            if t_min <= t && t <= t_max {
                let point = ray.at(t);
                let po = point.sub(&self.origin);
                let normal = if po.len_squared() >= 1 {
                    po.normalized()
                } else {
                    po
                };
                return Some(Intersect { t, point, normal, material: self.material });
            }
        }
        None
    }
}

impl Geometry {
    /// The nearest hit within `[t_min, t_max]`, or none.
    pub fn intersect_with(&self, ray: &Ray, t_min: i64, t_max: i64) -> (res: Option<Intersect>)
        ensures
            res == geom_hit_spec(*self, *ray, t_min as int, t_max as int),
    {
        match self {
            Geometry::Sphere(s) => s.intersect_with(ray, t_min, t_max),
        }
    }
}

/// The two candidate roots are symmetric about the midpoint parameter
/// `-half_b`: absent saturation their sum is exactly `-2 half_b`. For a ray
/// aimed straight at the center from distance `dist` (so `half_b == -dist`)
/// the roots lie symmetric about that distance, and `intersect_with`
/// reports the nearer one whenever it lies in the window (it is tried
/// first in `sphere_hit_spec`).
pub proof fn lemma_roots_symmetric(s: Sphere, ray: Ray)
    requires
        sphere_disc_spec(s, ray) >= 0,
        iabs(sphere_half_b_spec(s, ray)) + fx_sqrt_spec(sphere_disc_spec(s, ray)) <= FX_MAX as int,
    ensures
        fx_neg_spec(fx_add_spec(sphere_half_b_spec(s, ray), fx_sqrt_spec(sphere_disc_spec(s, ray))))
            + fx_sub_spec(fx_sqrt_spec(sphere_disc_spec(s, ray)), sphere_half_b_spec(s, ray)) == -2
            * sphere_half_b_spec(s, ray),
{
    let hb = sphere_half_b_spec(s, ray);
    let disc = sphere_disc_spec(s, ray);
    lemma_sqrt_nonneg(disc);
    let sq = fx_sqrt_spec(disc);
    assert(fx_add_spec(hb, sq) == hb + sq);
    assert(fx_neg_spec(hb + sq) == -(hb + sq));
    assert(fx_sub_spec(sq, hb) == sq - hb);
}

/// The scalar square root is never negative.
pub proof fn lemma_sqrt_nonneg(x: int)
    ensures
        fx_sqrt_spec(x) >= 0,
{
    if x > 0 {
        assert(x * (SCALE as int) >= 0) by (nonlinear_arith)
            requires
                x > 0,
        ;
        lemma_isqrt_props(x * (SCALE as int));
    }
}

/// A ray that misses the sphere entirely has a negative discriminant: over
/// exact integers, the squared perpendicular offset of the center from the
/// ray, cross-multiplied by `|d|²`, is `|oc|²|d|² - (oc·d)²`; when it
/// exceeds `r²|d|²` (offset beyond radius), the exact discriminant
/// `(oc·d)² - |d|²(|oc|² - r²)` is negative, so no intersection exists.
pub proof fn lemma_miss_negative_disc(
    ocx: int,
    ocy: int,
    ocz: int,
    dx: int,
    dy: int,
    dz: int,
    r: int,
)
    requires
        (ocx * ocx + ocy * ocy + ocz * ocz) * (dx * dx + dy * dy + dz * dz) - (ocx * dx + ocy * dy
            + ocz * dz) * (ocx * dx + ocy * dy + ocz * dz) > (r * r) * (dx * dx + dy * dy + dz
            * dz),
    ensures
        (ocx * dx + ocy * dy + ocz * dz) * (ocx * dx + ocy * dy + ocz * dz) - (dx * dx + dy * dy
            + dz * dz) * ((ocx * ocx + ocy * ocy + ocz * ocz) - r * r) < 0,
{
    let ll = ocx * ocx + ocy * ocy + ocz * ocz;
    let m = dx * dx + dy * dy + dz * dz;
    let q = ocx * dx + ocy * dy + ocz * dz;
    assert(m * (ll - r * r) == m * ll - m * (r * r)) by (nonlinear_arith);
    assert(m * ll == ll * m && m * (r * r) == (r * r) * m) by (nonlinear_arith);
}

/// A ray tangent to the sphere — perpendicular offset exactly the radius —
/// has an exact discriminant of zero.
pub proof fn lemma_tangent_zero_disc(
    ocx: int,
    ocy: int,
    ocz: int,
    dx: int,
    dy: int,
    dz: int,
    r: int,
)
    requires
        (ocx * ocx + ocy * ocy + ocz * ocz) * (dx * dx + dy * dy + dz * dz) - (ocx * dx + ocy * dy
            + ocz * dz) * (ocx * dx + ocy * dy + ocz * dz) == (r * r) * (dx * dx + dy * dy + dz
            * dz),
    ensures
        (ocx * dx + ocy * dy + ocz * dz) * (ocx * dx + ocy * dy + ocz * dz) - (dx * dx + dy * dy
            + dz * dz) * ((ocx * ocx + ocy * ocy + ocz * ocz) - r * r) == 0,
{
    let ll = ocx * ocx + ocy * ocy + ocz * ocz;
    let m = dx * dx + dy * dy + dz * dz;
    let q = ocx * dx + ocy * dy + ocz * dz;
    assert(m * (ll - r * r) == m * ll - m * (r * r)) by (nonlinear_arith);
    assert(m * ll == ll * m && m * (r * r) == (r * r) * m) by (nonlinear_arith);
}

/// With a discriminant of exactly zero the quadratic has a single repeated
/// root: both candidate roots collapse to `-half_b`.
pub proof fn lemma_zero_disc_repeated_root(s: Sphere, ray: Ray)
    requires
        sphere_disc_spec(s, ray) == 0,
        iabs(sphere_half_b_spec(s, ray)) <= FX_MAX as int,
    ensures
        fx_neg_spec(fx_add_spec(sphere_half_b_spec(s, ray), fx_sqrt_spec(0))) == fx_neg_spec(
            sphere_half_b_spec(s, ray),
        ),
        fx_sub_spec(fx_sqrt_spec(0), sphere_half_b_spec(s, ray)) == fx_neg_spec(
            sphere_half_b_spec(s, ray),
        ),
{
    assert(fx_sqrt_spec(0) == 0);
}

} // verus!
