//! Material scattering models.
//!
//! The three models — diffuse, fuzzed mirror, and dielectric — form a closed
//! set of variants with dispatch in `scatter`. Scattering consumes random
//! draws; `scatter_with` is the deterministic core that takes the draws as
//! arguments and is pinned down exactly, while `scatter` makes the draws and
//! promises that its result is `scatter_with` of some draw in range.

use vstd::prelude::*;

use crate::fx::{
    fx_add, fx_add_spec, fx_div, fx_div_spec, fx_mul, fx_mul_spec, fx_neg, fx_neg_spec, fx_sub,
    fx_sub_spec, lemma_fx_mul_le, lemma_fx_mul_mono, FX_MAX, SCALE,
};
use crate::geometry::Intersect;
use crate::ray::Ray;
use crate::rng::random_fx;
use crate::vec3::{
    add_spec, color_wf, dot_spec, is_unit_sample, lemma_fx_mul_sq_nonneg, len_sq_spec, neg_spec,
    normalized_spec, reflected_spec, refracted_spec, scale_spec, v3, Vec3,
};

verus! {

/// Diffuse: scatters about the surface normal, tinted by `albedo`.
#[derive(Clone, Copy, Debug)]
pub struct Lambertian {
    pub albedo: Vec3,
}

/// Mirror with a fuzz radius in `[0, 1]`, tinted by `albedo`.
#[derive(Clone, Copy, Debug)]
pub struct Metal {
    pub albedo: Vec3,
    pub fuzz: i64,
}

/// Clear medium with refractive index `eta > 0`.
#[derive(Clone, Copy, Debug)]
pub struct Dielectric {
    pub eta: i64,
}

/// The closed set of scattering models; `scatter` dispatches on the
/// variant.
#[derive(Clone, Copy, Debug)]
pub enum Material {
    Lambertian(Lambertian),
    Metal(Metal),
    Dielectric(Dielectric),
}

/// The parameters a material may hold: albedos are colors, fuzz lies in
/// `[0, 1]`, and the refractive index is positive (at least one tick).
pub open spec fn material_wf(m: Material) -> bool {
    match m {
        Material::Lambertian(l) => color_wf(l.albedo),
        Material::Metal(mt) => color_wf(mt.albedo) && 0 <= mt.fuzz <= SCALE,
        Material::Dielectric(d) => d.eta >= 1,
    }
}

/// The Schlick base reflectance `r0 = ((1 - eta) / (1 + eta))²`.
pub open spec fn schlick_r0_spec(eta_r: int) -> int {
    let a = fx_div_spec(fx_sub_spec(SCALE as int, eta_r), fx_add_spec(SCALE as int, eta_r));
    fx_mul_spec(a, a)
}

/// Fifth power of a scalar, as the chain of scaled products computes it.
pub open spec fn pow5_spec(t: int) -> int {
    let t2 = fx_mul_spec(t, t);
    let t4 = fx_mul_spec(t2, t2);
    fx_mul_spec(t4, t)
}

/// Schlick's approximation of the Fresnel reflectance:
/// `r0 + (1 - r0)(1 - cos)⁵`.
pub open spec fn reflectance_spec(cos: int, eta_r: int) -> int {
    let r0 = schlick_r0_spec(eta_r);
    fx_add_spec(r0, fx_mul_spec(fx_sub_spec(SCALE as int, r0), pow5_spec(fx_sub_spec(SCALE as int, cos))))
}

/// What scattering returns, as a function of the material, the incoming
/// ray, the hit record, and the two random draws: a unit-sphere sample `rv`
/// and a coin `coin` in `[0, 1]`.
pub open spec fn scatter_with_spec(m: Material, ray_in: Ray, hit: Intersect, rv: Vec3, coin: int) -> (Ray, Vec3) {
    match m {
        Material::Lambertian(l) => {
            let s = add_spec(hit.normal, rv);
            let dir = if len_sq_spec(s) >= 1 {
                normalized_spec(s)
            } else {
                hit.normal
            };
            (Ray { origin: hit.point, direction: dir }, l.albedo)
        },
        Material::Metal(mt) => {
            let refl = reflected_spec(ray_in.direction, hit.normal);
            let s = add_spec(refl, scale_spec(rv, mt.fuzz as int));
            let dir = if len_sq_spec(s) >= 1 {
                normalized_spec(s)
            } else {
                hit.normal
            };
            (Ray { origin: hit.point, direction: dir }, mt.albedo)
        },
        Material::Dielectric(d) => {
            let dn = dot_spec(hit.normal, ray_in.direction);
            let front = dn <= 0;
            let normal = if front {
                hit.normal
            } else {
                neg_spec(hit.normal)
            };
            let frac_eta = if front {
                fx_div_spec(SCALE as int, d.eta as int)
            } else {
                d.eta as int
            };
            let cos_i = fx_neg_spec(dot_spec(ray_in.direction, normal));
            let sin_t2 = fx_mul_spec(
                fx_mul_spec(frac_eta, frac_eta),
                fx_sub_spec(SCALE as int, fx_mul_spec(cos_i, cos_i)),
            );
            let dir = if sin_t2 > SCALE as int || reflectance_spec(cos_i, frac_eta) > coin {
                reflected_spec(ray_in.direction, normal)
            } else {
                let rf = refracted_spec(ray_in.direction, normal, frac_eta);
                if len_sq_spec(rf) >= 1 {
                    normalized_spec(rf)
                } else {
                    reflected_spec(ray_in.direction, normal)
                }
            };
            (Ray { origin: hit.point, direction: dir }, v3(SCALE as int, SCALE as int, SCALE as int))
        },
    }
}

impl Dielectric {
    /// Schlick's approximation for the Fresnel factor.
    pub fn reflectance(cos: i64, eta_r: i64) -> (r: i64)
        requires
            eta_r >= 0,
        ensures
            r as int == reflectance_spec(cos as int, eta_r as int),
    {
        let num: i64 = fx_sub(SCALE, eta_r);
        let den: i64 = fx_add(SCALE, eta_r);
        let a: i64 = fx_div(num, den);
        let r0: i64 = fx_mul(a, a);
        let t: i64 = fx_sub(SCALE, cos);
        let t2: i64 = fx_mul(t, t);
        let t4: i64 = fx_mul(t2, t2);
        let t5: i64 = fx_mul(t4, t);
        fx_add(r0, fx_mul(fx_sub(SCALE, r0), t5))
    }
}

impl Material {
    /// The deterministic scattering core: the random draws come in as
    /// arguments, so the result is an exact function of its inputs.
    pub fn scatter_with(&self, ray_in: &Ray, intersect: &Intersect, rv: Vec3, coin: i64) -> (res: (Ray, Vec3))
        requires
            material_wf(*self),
        ensures
            res == scatter_with_spec(*self, *ray_in, *intersect, rv, coin as int),
            color_wf(res.1),
    {
        match self {
            Material::Lambertian(l) => {
                let s = intersect.normal.add(&rv);
                let dir = if s.len_squared() >= 1 {
                    s.normalized()
                } else {
                    intersect.normal
                };
                (Ray { origin: intersect.point, direction: dir }, l.albedo)
            },
            Material::Metal(mt) => {
                let refl = ray_in.direction.reflected(&intersect.normal);
                let s = refl.add(&rv.scale(mt.fuzz));
                let dir = if s.len_squared() >= 1 {
                    s.normalized()
                } else {
                    intersect.normal
                };
                (Ray { origin: intersect.point, direction: dir }, mt.albedo)
            },
            Material::Dielectric(d) => {
                let dn: i64 = intersect.normal.dot(&ray_in.direction);
                let front: bool = dn <= 0;
                let normal = if front {
                    intersect.normal
                } else {
                    intersect.normal.neg()
                };
                let frac_eta: i64 = if front {
                    fx_div(SCALE, d.eta)
                } else {
                    d.eta
                };
                proof {
                    if front {
                        vstd::arithmetic::div_mod::lemma_div_pos_is_pos(
                            (SCALE as int) * (SCALE as int),
                            d.eta as int,
                        );
                    }
                }
                let cos_i: i64 = fx_neg(ray_in.direction.dot(&normal));
                let sin_t2: i64 = fx_mul(
                    fx_mul(frac_eta, frac_eta),
                    fx_sub(SCALE, fx_mul(cos_i, cos_i)),
                );
                let dir = if sin_t2 > SCALE || Dielectric::reflectance(cos_i, frac_eta) > coin {
                    ray_in.direction.reflected(&normal)
                } else {
                    let rf = ray_in.direction.refracted(&normal, frac_eta);
                    if rf.len_squared() >= 1 {
                        rf.normalized()
                    } else {
                        ray_in.direction.reflected(&normal)
                    }
                };
                (Ray { origin: intersect.point, direction: dir }, Vec3::unit())
            },
        }
    }

    /// Scatter the incoming ray at a hit: draw a unit-sphere sample and a
    /// coin, and hand them to the deterministic core. The result is
    /// `scatter_with` of some draws in range; which draws is chance.
    pub fn scatter(&self, ray_in: &Ray, intersect: &Intersect) -> (res: (Ray, Vec3))
        requires
            material_wf(*self),
        ensures
            exists|rv: Vec3, coin: int|
                is_unit_sample(rv) && 0 <= coin <= SCALE as int && res == #[trigger] scatter_with_spec(
                    *self,
                    *ray_in,
                    *intersect,
                    rv,
                    coin,
                ),
            color_wf(res.1),
    {
        let rv = Vec3::random_on_unit_sphere();
        let coin: i64 = random_fx(0, SCALE);
        let res = self.scatter_with(ray_in, intersect, rv, coin);
        proof {
            assert(is_unit_sample(rv) && 0 <= coin as int <= SCALE as int && res
                == scatter_with_spec(*self, *ray_in, *intersect, rv, coin as int));
        }
        res
    }
}

/// The Schlick base reflectance lies in `[0, 1)`: the quotient
/// `(1 - eta) / (1 + eta)` has magnitude below one for every positive
/// index, and its square keeps that.
pub proof fn lemma_schlick_r0_bounds(eta_r: int)
    requires
        1 <= eta_r <= FX_MAX as int,
    ensures
        0 <= schlick_r0_spec(eta_r) <= SCALE as int - 1,
{
    let s = SCALE as int;
    let num = fx_sub_spec(s, eta_r);
    let den = fx_add_spec(s, eta_r);
    assert(num == s - eta_r);
    assert(den > s && crate::fx::iabs(num) < den);
    let q = crate::fx::tdiv(num * s, den);
    crate::fx::lemma_tdiv_mag(num * s, den);
    crate::fx::lemma_iabs_mul(num, s);
    vstd::arithmetic::mul::lemma_mul_inequality(crate::fx::iabs(num), den - 1, s);
    vstd::arithmetic::div_mod::lemma_div_is_ordered(crate::fx::iabs(num) * s, (den - 1) * s, den);
    assert((den - 1) * s == den * (s - 1) + (den - s)) by (nonlinear_arith);
    vstd::arithmetic::div_mod::lemma_div_multiples_vanish_fancy(s - 1, den - s, den);
    assert(crate::fx::iabs(q) <= s - 1);
    let a = fx_div_spec(num, den);
    assert(a == q);
    lemma_fx_mul_sq_nonneg(a);
    assert(a * a <= (s - 1) * (s - 1)) by (nonlinear_arith)
        requires
            -(s - 1) <= a <= s - 1,
    ;
    assert(a * a >= 0) by (nonlinear_arith);
    vstd::arithmetic::div_mod::lemma_div_is_ordered(a * a, (s - 1) * (s - 1), s);
    assert((s - 1) * (s - 1) == s * (s - 2) + 1);
    vstd::arithmetic::div_mod::lemma_div_multiples_vanish_fancy(s - 2, 1, s);
    vstd::arithmetic::div_mod::lemma_div_pos_is_pos(a * a, s);
}

/// The truncated fifth power maps `[0, 1]` into `[0, t]`.
pub proof fn lemma_pow5_bounds(t: int)
    requires
        0 <= t <= SCALE as int,
    ensures
        0 <= pow5_spec(t) <= t,
{
    let t2 = fx_mul_spec(t, t);
    lemma_fx_mul_le(t, t);
    let t4 = fx_mul_spec(t2, t2);
    lemma_fx_mul_le(t2, t2);
    lemma_fx_mul_le(t4, t);
}

/// The truncated fifth power is monotone on `[0, 1]`.
pub proof fn lemma_pow5_mono(ta: int, tb: int)
    requires
        0 <= ta <= tb <= SCALE as int,
    ensures
        pow5_spec(ta) <= pow5_spec(tb),
{
    lemma_pow5_bounds(ta);
    lemma_pow5_bounds(tb);
    lemma_fx_mul_le(ta, ta);
    lemma_fx_mul_le(tb, tb);
    lemma_fx_mul_mono(ta, ta, tb, tb);
    lemma_fx_mul_mono(fx_mul_spec(ta, ta), fx_mul_spec(ta, ta), fx_mul_spec(tb, tb), fx_mul_spec(tb, tb));
    lemma_fx_mul_le(fx_mul_spec(ta, ta), fx_mul_spec(ta, ta));
    lemma_fx_mul_le(fx_mul_spec(tb, tb), fx_mul_spec(tb, tb));
    lemma_fx_mul_mono(
        fx_mul_spec(fx_mul_spec(ta, ta), fx_mul_spec(ta, ta)),
        ta,
        fx_mul_spec(fx_mul_spec(tb, tb), fx_mul_spec(tb, tb)),
        tb,
    );
}

/// The Schlick reflectance lies in `[0, 1]` for every incidence cosine in
/// `[0, 1]` and every positive index ratio.
pub proof fn lemma_reflectance_bounds(cos: int, eta_r: int)
    requires
        0 <= cos <= SCALE as int,
        1 <= eta_r <= FX_MAX as int,
    ensures
        0 <= reflectance_spec(cos, eta_r) <= SCALE as int,
{
    let s = SCALE as int;
    let r0 = schlick_r0_spec(eta_r);
    lemma_schlick_r0_bounds(eta_r);
    let t = fx_sub_spec(s, cos);
    assert(t == s - cos);
    lemma_pow5_bounds(t);
    let p5 = pow5_spec(t);
    let one = fx_sub_spec(s, r0);
    assert(one == s - r0);
    lemma_fx_mul_le(one, p5);
}

/// The Schlick reflectance grows toward grazing incidence: it is monotone
/// nonincreasing in the cosine (truncation can only flatten, never invert,
/// the order).
pub proof fn lemma_reflectance_monotone(c1: int, c2: int, eta_r: int)
    requires
        0 <= c1 <= c2 <= SCALE as int,
        1 <= eta_r <= FX_MAX as int,
    ensures
        reflectance_spec(c2, eta_r) <= reflectance_spec(c1, eta_r),
{
    let s = SCALE as int;
    let r0 = schlick_r0_spec(eta_r);
    lemma_schlick_r0_bounds(eta_r);
    let ta = fx_sub_spec(s, c2);
    let tb = fx_sub_spec(s, c1);
    assert(ta == s - c2 && tb == s - c1);
    lemma_pow5_mono(ta, tb);
    lemma_pow5_bounds(ta);
    lemma_pow5_bounds(tb);
    let one = fx_sub_spec(s, r0);
    assert(one == s - r0);
    lemma_fx_mul_mono(one, pow5_spec(ta), one, pow5_spec(tb));
    lemma_fx_mul_le(one, pow5_spec(ta));
    lemma_fx_mul_le(one, pow5_spec(tb));
}

} // verus!
