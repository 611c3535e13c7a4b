//! 3-vectors of fixed-point scalars.
//!
//! A `Vec3` serves as a point, a direction, or an RGB color with channels in
//! `[0, 1]` (that is, raw `[0, SCALE]`). Every operation has a
//! specification-level twin built from the exact scalar specifications, and
//! the geometric laws that the scalar rounding cannot disturb — the
//! reflection involution and the unit-ratio refraction identity — are proved
//! over exact integer arithmetic at the end of the module.

use vstd::prelude::*;

use crate::fx::{
    fx_add, fx_add_spec, fx_div, fx_div_spec, fx_mul, fx_mul_spec, fx_neg, fx_neg_spec, fx_sqrt,
    fx_sqrt_spec, fx_sub, fx_sub_spec, iabs, lemma_fx_mul_nonneg, lemma_isqrt_props, SCALE,
};
use crate::rng::random_fx;

verus! {

/// Three fixed-point components; a point, a direction, or a color.
#[derive(Clone, Copy, Debug, PartialEq, Eq, Structural)]
pub struct Vec3 {
    pub x: i64,
    pub y: i64,
    pub z: i64,
}

/// Build a vector from mathematical integers (which must lie in scalar
/// range for the components to carry them exactly).
pub open spec fn v3(x: int, y: int, z: int) -> Vec3 {
    Vec3 { x: x as i64, y: y as i64, z: z as i64 }
}

pub open spec fn add_spec(a: Vec3, b: Vec3) -> Vec3 {
    v3(
        fx_add_spec(a.x as int, b.x as int),
        fx_add_spec(a.y as int, b.y as int),
        fx_add_spec(a.z as int, b.z as int),
    )
}

pub open spec fn sub_spec(a: Vec3, b: Vec3) -> Vec3 {
    v3(
        fx_sub_spec(a.x as int, b.x as int),
        fx_sub_spec(a.y as int, b.y as int),
        fx_sub_spec(a.z as int, b.z as int),
    )
}

pub open spec fn neg_spec(a: Vec3) -> Vec3 {
    v3(fx_neg_spec(a.x as int), fx_neg_spec(a.y as int), fx_neg_spec(a.z as int))
}

/// Scale every component by the scalar `k`.
pub open spec fn scale_spec(a: Vec3, k: int) -> Vec3 {
    v3(fx_mul_spec(a.x as int, k), fx_mul_spec(a.y as int, k), fx_mul_spec(a.z as int, k))
}

/// Component-wise product (attenuation composition).
pub open spec fn mul_spec(a: Vec3, b: Vec3) -> Vec3 {
    v3(
        fx_mul_spec(a.x as int, b.x as int),
        fx_mul_spec(a.y as int, b.y as int),
        fx_mul_spec(a.z as int, b.z as int),
    )
}

pub open spec fn dot_spec(a: Vec3, b: Vec3) -> int {
    fx_add_spec(
        fx_add_spec(fx_mul_spec(a.x as int, b.x as int), fx_mul_spec(a.y as int, b.y as int)),
        fx_mul_spec(a.z as int, b.z as int),
    )
}

pub open spec fn cross_spec(a: Vec3, b: Vec3) -> Vec3 {
    v3(
        fx_sub_spec(fx_mul_spec(a.y as int, b.z as int), fx_mul_spec(a.z as int, b.y as int)),
        fx_sub_spec(fx_mul_spec(a.z as int, b.x as int), fx_mul_spec(a.x as int, b.z as int)),
        fx_sub_spec(fx_mul_spec(a.x as int, b.y as int), fx_mul_spec(a.y as int, b.x as int)),
    )
}

pub open spec fn len_sq_spec(a: Vec3) -> int {
    dot_spec(a, a)
}

pub open spec fn len_spec(a: Vec3) -> int {
    fx_sqrt_spec(len_sq_spec(a))
}

/// Each component divided by the length.
pub open spec fn normalized_spec(a: Vec3) -> Vec3 {
    let l = len_spec(a);
    v3(fx_div_spec(a.x as int, l), fx_div_spec(a.y as int, l), fx_div_spec(a.z as int, l))
}

/// An RGB color with every channel in `[0, 1]`.
pub open spec fn color_wf(c: Vec3) -> bool {
    0 <= c.x <= SCALE && 0 <= c.y <= SCALE && 0 <= c.z <= SCALE
}

/// All components below `eps` in magnitude.
pub open spec fn near_zero_spec(a: Vec3, eps: int) -> bool {
    iabs(a.x as int) < eps && iabs(a.y as int) < eps && iabs(a.z as int) < eps
}

/// Mirror `v` about the unit normal `n`: `v - 2 (v·n) n`.
pub open spec fn reflected_spec(v: Vec3, n: Vec3) -> Vec3 {
    let d = dot_spec(v, n);
    sub_spec(v, scale_spec(n, fx_add_spec(d, d)))
}

/// Snell's law in vector form, for a unit incoming direction `uv`, unit
/// normal `n` and index ratio `ratio`: the perpendicular part is
/// `ratio (uv + cos·n)` with `cos = min(-uv·n, 1)`, and the parallel part is
/// `-sqrt(|1 - |perp|²|) n`.
pub open spec fn refracted_spec(uv: Vec3, n: Vec3, ratio: int) -> Vec3 {
    let c0 = fx_neg_spec(dot_spec(uv, n));
    let c = if c0 > SCALE as int {
        SCALE as int
    } else {
        c0
    };
    let perp = scale_spec(add_spec(uv, scale_spec(n, c)), ratio);
    let k = fx_sub_spec(SCALE as int, len_sq_spec(perp));
    let k_abs = if k < 0 {
        fx_neg_spec(k)
    } else {
        k
    };
    let par = scale_spec(n, fx_neg_spec(fx_sqrt_spec(k_abs)));
    add_spec(perp, par)
}

/// A direction as the rejection sampler hands it out: either a sampled cube
/// point of length in `(0, 1]`, normalized, or — if every bounded attempt
/// was rejected — the fixed unit fallback.
pub open spec fn is_unit_sample(r: Vec3) -> bool {
    (exists|v: Vec3| 1 <= len_sq_spec(v) <= SCALE as int && r == #[trigger] normalized_spec(v))
        || r == v3(0, SCALE as int, 0)
}

/// Flip a sample into the hemisphere around `n`.
pub open spec fn hemisphere_spec(u: Vec3, n: Vec3) -> Vec3 {
    if dot_spec(u, n) < 0 {
        neg_spec(u)
    } else {
        u
    }
}

impl Vec3 {
    /// The zero vector (a point at the origin; the color black).
    pub fn zero() -> (r: Vec3)
        ensures
            r == v3(0, 0, 0),
    {
        Vec3 { x: 0, y: 0, z: 0 }
    }

    /// One unit in every component (the color white).
    pub fn unit() -> (r: Vec3)
        ensures
            r == v3(SCALE as int, SCALE as int, SCALE as int),
    {
        Vec3 { x: SCALE, y: SCALE, z: SCALE }
    }

    pub fn right() -> (r: Vec3)
        ensures
            r == v3(SCALE as int, 0, 0),
    {
        Vec3 { x: SCALE, y: 0, z: 0 }
    }

    pub fn up() -> (r: Vec3)
        ensures
            r == v3(0, SCALE as int, 0),
    {
        Vec3 { x: 0, y: SCALE, z: 0 }
    }

    pub fn forward() -> (r: Vec3)
        ensures
            r == v3(0, 0, -(SCALE as int)),
    {
        Vec3 { x: 0, y: 0, z: -SCALE }
    }

    pub fn add(&self, other: &Vec3) -> (r: Vec3)
        ensures
            r == add_spec(*self, *other),
    {
        Vec3 {
            x: fx_add(self.x, other.x),
            y: fx_add(self.y, other.y),
            z: fx_add(self.z, other.z),
        }
    }

    pub fn sub(&self, other: &Vec3) -> (r: Vec3)
        ensures
            r == sub_spec(*self, *other),
    {
        Vec3 {
            x: fx_sub(self.x, other.x),
            y: fx_sub(self.y, other.y),
            z: fx_sub(self.z, other.z),
        }
    }

    pub fn neg(&self) -> (r: Vec3)
        ensures
            r == neg_spec(*self),
    {
        Vec3 { x: fx_neg(self.x), y: fx_neg(self.y), z: fx_neg(self.z) }
    }

    pub fn scale(&self, k: i64) -> (r: Vec3)
        ensures
            r == scale_spec(*self, k as int),
    {
        Vec3 { x: fx_mul(self.x, k), y: fx_mul(self.y, k), z: fx_mul(self.z, k) }
    }

    /// Component-wise product: attenuation applied to a color.
    pub fn mul(&self, other: &Vec3) -> (r: Vec3)
        ensures
            r == mul_spec(*self, *other),
    {
        Vec3 {
            x: fx_mul(self.x, other.x),
            y: fx_mul(self.y, other.y),
            z: fx_mul(self.z, other.z),
        }
    }

    pub fn dot(&self, other: &Vec3) -> (r: i64)
        ensures
            r as int == dot_spec(*self, *other),
    {
        fx_add(
            fx_add(fx_mul(self.x, other.x), fx_mul(self.y, other.y)),
            fx_mul(self.z, other.z),
        )
    }

    pub fn cross(&self, other: &Vec3) -> (r: Vec3)
        ensures
            r == cross_spec(*self, *other),
    {
        Vec3 {
            x: fx_sub(fx_mul(self.y, other.z), fx_mul(self.z, other.y)),
            y: fx_sub(fx_mul(self.z, other.x), fx_mul(self.x, other.z)),
            z: fx_sub(fx_mul(self.x, other.y), fx_mul(self.y, other.x)),
        }
    }

    pub fn len_squared(&self) -> (r: i64)
        ensures
            r as int == len_sq_spec(*self),
            r >= 0,
    {
        proof {
            lemma_fx_mul_sq_nonneg(self.x as int);
            lemma_fx_mul_sq_nonneg(self.y as int);
            lemma_fx_mul_sq_nonneg(self.z as int);
        }
        fx_add(
            fx_add(fx_mul(self.x, self.x), fx_mul(self.y, self.y)),
            fx_mul(self.z, self.z),
        )
    }

    pub fn len(&self) -> (r: i64)
        ensures
            r as int == len_spec(*self),
            r >= 0,
    {
        fx_sqrt(self.len_squared())
    }

    /// Normalize a vector whose squared length is at least one tick (the
    /// guard the callers establish before dividing by the length).
    pub fn normalized(&self) -> (r: Vec3)
        requires
            len_sq_spec(*self) >= 1,
        ensures
            r == normalized_spec(*self),
            len_spec(*self) >= 1,
    {
        let l: i64 = self.len();
        proof {
            lemma_len_pos(*self);
        }
        Vec3 { x: fx_div(self.x, l), y: fx_div(self.y, l), z: fx_div(self.z, l) }
    }

    /// All components below `eps` in magnitude.
    pub fn near_zero(&self, epsilon: i64) -> (r: bool)
        requires
            epsilon >= 0,
        ensures
            r == near_zero_spec(*self, epsilon as int),
    {
        self.x < epsilon && -epsilon < self.x && self.y < epsilon && -epsilon < self.y
            && self.z < epsilon && -epsilon < self.z
    }

    /// Mirror about the unit normal: `v - 2 (v·n) n`.
    pub fn reflected(&self, normal: &Vec3) -> (r: Vec3)
        ensures
            r == reflected_spec(*self, *normal),
    {
        let d: i64 = self.dot(normal);
        let k: i64 = fx_add(d, d);
        self.sub(&normal.scale(k))
    }

    /// Snell's law in vector form (see `refracted_spec`).
    pub fn refracted(&self, normal: &Vec3, frac_eta: i64) -> (r: Vec3)
        ensures
            r == refracted_spec(*self, *normal, frac_eta as int),
    {
        let d: i64 = self.dot(normal);
        let mut cos_i: i64 = fx_neg(d);
        if cos_i > SCALE {
            cos_i = SCALE;
        }
        let perp = self.add(&normal.scale(cos_i)).scale(frac_eta);
        let k: i64 = fx_sub(SCALE, perp.len_squared());
        let k_abs: i64 = if k < 0 {
            fx_neg(k)
        } else {
            k
        };
        let par = normal.scale(fx_neg(fx_sqrt(k_abs)));
        perp.add(&par)
    }

    /// A random color: each channel drawn from `[0, 1]`.
    pub fn random() -> (r: Vec3)
        ensures
            0 <= r.x <= SCALE && 0 <= r.y <= SCALE && 0 <= r.z <= SCALE,
    {
        Vec3::random_range(0, SCALE)
    }

    /// Each component drawn independently from `[min, max]`.
    pub fn random_range(min: i64, max: i64) -> (r: Vec3)
        requires
            min <= max,
            (max as int) - (min as int) < 0x7fff_ffff_ffff_ffff,
        ensures
            min <= r.x <= max && min <= r.y <= max && min <= r.z <= max,
    {
        Vec3 {
            x: random_fx(min, max),
            y: random_fx(min, max),
            z: random_fx(min, max),
        }
    }

    /// Rejection-sample a uniform direction: draw points of the symmetric
    /// unit cube until one lands inside the unit ball (and is long enough
    /// to normalize), then normalize it. The unit ball fills about half the
    /// cube, so a bounded number of attempts all but always suffices; if
    /// every one is rejected, a fixed unit axis is returned so the sampler
    /// stays total.
    pub fn random_on_unit_sphere() -> (r: Vec3)
        ensures
            is_unit_sample(r),
    {
        let mut attempts: u32 = 0;
        while attempts < 64
            invariant
                true,
            decreases 64 - attempts,
        {
            let v = Vec3::random_range(-SCALE, SCALE);
            let ls: i64 = v.len_squared();
            if 1 <= ls && ls <= SCALE {
                let u = v.normalized();
                proof {
                    assert(1 <= len_sq_spec(v) <= SCALE as int && u == normalized_spec(v));
                }
                return u;
            }
            attempts = attempts + 1;
        }
        Vec3 { x: 0, y: SCALE, z: 0 }
    }

    /// A uniform direction in the hemisphere around `normal`.
    pub fn random_on_hemisphere(normal: &Vec3) -> (r: Vec3)
        ensures
            exists|u: Vec3| is_unit_sample(u) && r == #[trigger] hemisphere_spec(u, *normal),
    {
        let v = Vec3::random_on_unit_sphere();
        let d: i64 = v.dot(normal);
        let r = if d < 0 {
            v.neg()
        } else {
            v
        };
        proof {
            assert(is_unit_sample(v) && r == hemisphere_spec(v, *normal));
        }
        r
    }
}

/// A squared scalar is nonnegative.
pub proof fn lemma_fx_mul_sq_nonneg(a: int)
    ensures
        0 <= fx_mul_spec(a, a),
{
    if a >= 0 {
        lemma_fx_mul_nonneg(a, a);
    } else {
        assert(a * a >= 0) by (nonlinear_arith);
        assert(fx_mul_spec(a, a) == fx_mul_spec(-a, -a)) by {
            assert(a * a == (-a) * (-a)) by (nonlinear_arith);
        }
        lemma_fx_mul_nonneg(-a, -a);
    }
}

/// A vector with at least one tick of squared length has a positive length.
pub proof fn lemma_len_pos(a: Vec3)
    requires
        len_sq_spec(a) >= 1,
    ensures
        len_spec(a) >= 1,
{
    let n = len_sq_spec(a) * (SCALE as int);
    assert(n >= SCALE as int) by (nonlinear_arith)
        requires
            len_sq_spec(a) >= 1,
            n == len_sq_spec(a) * (SCALE as int),
    ;
    lemma_isqrt_props(n);
    let r = crate::fx::isqrt_spec(n);
    if r < 1 {
        assert(false);
    }
}

/// The exact-arithmetic mirror image: over mathematical integers,
/// `refl = |n|² v - 2 (v·n) n` (the reflection formula cleared of its
/// division by `|n|²`). For a unit normal this is the reflection itself.
pub open spec fn refl3x(vx: int, vy: int, vz: int, nx: int, ny: int, nz: int) -> int {
    (nx * nx + ny * ny + nz * nz) * vx - 2 * (vx * nx + vy * ny + vz * nz) * nx
}

pub open spec fn refl3y(vx: int, vy: int, vz: int, nx: int, ny: int, nz: int) -> int {
    (nx * nx + ny * ny + nz * nz) * vy - 2 * (vx * nx + vy * ny + vz * nz) * ny
}

pub open spec fn refl3z(vx: int, vy: int, vz: int, nx: int, ny: int, nz: int) -> int {
    (nx * nx + ny * ny + nz * nz) * vz - 2 * (vx * nx + vy * ny + vz * nz) * nz
}

/// Reflecting a reflected vector about the same normal restores the
/// original vector: over exact integers, applying the cleared reflection
/// twice multiplies each component by `|n|⁴`, so for a unit normal
/// (`|n|² == 1`) the round trip is the identity.
pub proof fn lemma_reflect_involution(vx: int, vy: int, vz: int, nx: int, ny: int, nz: int)
    ensures
        refl3x(
            refl3x(vx, vy, vz, nx, ny, nz),
            refl3y(vx, vy, vz, nx, ny, nz),
            refl3z(vx, vy, vz, nx, ny, nz),
            nx,
            ny,
            nz,
        ) == (nx * nx + ny * ny + nz * nz) * (nx * nx + ny * ny + nz * nz) * vx,
        refl3y(
            refl3x(vx, vy, vz, nx, ny, nz),
            refl3y(vx, vy, vz, nx, ny, nz),
            refl3z(vx, vy, vz, nx, ny, nz),
            nx,
            ny,
            nz,
        ) == (nx * nx + ny * ny + nz * nz) * (nx * nx + ny * ny + nz * nz) * vy,
        refl3z(
            refl3x(vx, vy, vz, nx, ny, nz),
            refl3y(vx, vy, vz, nx, ny, nz),
            refl3z(vx, vy, vz, nx, ny, nz),
            nx,
            ny,
            nz,
        ) == (nx * nx + ny * ny + nz * nz) * (nx * nx + ny * ny + nz * nz) * vz,
{
    let m = nx * nx + ny * ny + nz * nz;
    let d = vx * nx + vy * ny + vz * nz;
    let rx = m * vx - 2 * d * nx;
    let ry = m * vy - 2 * d * ny;
    let rz = m * vz - 2 * d * nz;
    assert(rx * nx == m * (vx * nx) - 2 * (d * (nx * nx))) by (nonlinear_arith)
        requires
            rx == m * vx - 2 * d * nx,
    ;
    assert(ry * ny == m * (vy * ny) - 2 * (d * (ny * ny))) by (nonlinear_arith)
        requires
            ry == m * vy - 2 * d * ny,
    ;
    assert(rz * nz == m * (vz * nz) - 2 * (d * (nz * nz))) by (nonlinear_arith)
        requires
            rz == m * vz - 2 * d * nz,
    ;
    assert(m * (vx * nx) + m * (vy * ny) + m * (vz * nz) == m * d) by (nonlinear_arith)
        requires
            d == vx * nx + vy * ny + vz * nz,
    ;
    assert(d * (nx * nx) + d * (ny * ny) + d * (nz * nz) == d * m) by (nonlinear_arith)
        requires
            m == nx * nx + ny * ny + nz * nz,
    ;
    assert(m * d == d * m) by (nonlinear_arith);
    let e = rx * nx + ry * ny + rz * nz;
    assert(e == -(d * m));
    assert(m * rx == m * (m * vx) - 2 * (m * (d * nx))) by (nonlinear_arith)
        requires
            rx == m * vx - 2 * d * nx,
    ;
    assert(m * ry == m * (m * vy) - 2 * (m * (d * ny))) by (nonlinear_arith)
        requires
            ry == m * vy - 2 * d * ny,
    ;
    assert(m * rz == m * (m * vz) - 2 * (m * (d * nz))) by (nonlinear_arith)
        requires
            rz == m * vz - 2 * d * nz,
    ;
    assert(e * nx == -(m * (d * nx)) && e * ny == -(m * (d * ny)) && e * nz == -(m * (d * nz)))
        by (nonlinear_arith)
        requires
            e == -(d * m),
    ;
    assert(m * (m * vx) == m * m * vx && m * (m * vy) == m * m * vy && m * (m * vz) == m * m
        * vz) by (nonlinear_arith);
    assert((2 * e) * nx == 2 * (e * nx) && (2 * e) * ny == 2 * (e * ny) && (2 * e) * nz == 2 * (e
        * nz)) by (nonlinear_arith);
    assert(m * rx - 2 * e * nx == m * m * vx);
    assert(m * ry - 2 * e * ny == m * m * vy);
    assert(m * rz - 2 * e * nz == m * m * vz);
}

/// The fixed-point reflection itself round-trips wherever its arithmetic
/// is exact: for the unit normal along the z axis (where the scaled
/// products reduce to sign flips), reflecting a reflected vector restores
/// the original vector, component for component.
pub proof fn lemma_reflected_involution_z_axis(a: Vec3)
    requires
        -0x3fff_ffff_ffff_ffff <= a.x as int <= 0x3fff_ffff_ffff_ffff,
        -0x3fff_ffff_ffff_ffff <= a.y as int <= 0x3fff_ffff_ffff_ffff,
        -0x3fff_ffff_ffff_ffff <= a.z as int <= 0x3fff_ffff_ffff_ffff,
    ensures
        reflected_spec(reflected_spec(a, v3(0, 0, SCALE as int)), v3(0, 0, SCALE as int)) == a,
{
    let n = v3(0, 0, SCALE as int);
    crate::fx::lemma_fx_mul_unit(a.z as int);
    let r = reflected_spec(a, n);
    assert(dot_spec(a, n) == a.z as int);
    crate::fx::lemma_fx_mul_unit(2 * (a.z as int));
    assert(r.x == a.x && r.y == a.y && r.z as int == -(a.z as int));
    crate::fx::lemma_fx_mul_unit(r.z as int);
    assert(dot_spec(r, n) == r.z as int);
    crate::fx::lemma_fx_mul_unit(2 * (r.z as int));
}

/// Refraction with an index ratio of one returns the incoming direction:
/// over exact integers scaled by `k` (unit vectors satisfy `|v|² == k²`),
/// the perpendicular part `k² uv + c n` (with `c = -uv·n >= 0`) has squared
/// length `k² (k⁴ - c²)`, so the radicand `1 - |perp|²` is `c²/k⁴`, the
/// parallel term is `-c n`, and the sum restores `k² uv`.
pub proof fn lemma_refract_identity(
    ux: int,
    uy: int,
    uz: int,
    nx: int,
    ny: int,
    nz: int,
    k: int,
    c: int,
)
    requires
        k > 0,
        ux * ux + uy * uy + uz * uz == k * k,
        nx * nx + ny * ny + nz * nz == k * k,
        c == -(ux * nx + uy * ny + uz * nz),
        c >= 0,
    ensures
        (k * k * ux + c * nx) * (k * k * ux + c * nx) + (k * k * uy + c * ny) * (k * k * uy + c
            * ny) + (k * k * uz + c * nz) * (k * k * uz + c * nz) == k * k * (k * k * k * k - c
            * c),
        c * c <= k * k * k * k,
        (k * k * ux + c * nx) - c * nx == k * k * ux,
        (k * k * uy + c * ny) - c * ny == k * k * uy,
        (k * k * uz + c * nz) - c * nz == k * k * uz,
{
    let s = k * k;
    let px = s * ux + c * nx;
    let py = s * uy + c * ny;
    let pz = s * uz + c * nz;

    lemma_binomial_sq(px, s * ux, c * nx);
    lemma_binomial_sq(py, s * uy, c * ny);
    lemma_binomial_sq(pz, s * uz, c * nz);
    assert((s * ux) * (s * ux) == s * s * (ux * ux) && (s * uy) * (s * uy) == s * s * (uy * uy)
        && (s * uz) * (s * uz) == s * s * (uz * uz)) by (nonlinear_arith);
    assert((s * ux) * (c * nx) == (s * c) * (ux * nx) && (s * uy) * (c * ny) == (s * c) * (uy
        * ny) && (s * uz) * (c * nz) == (s * c) * (uz * nz)) by (nonlinear_arith);
    assert((c * nx) * (c * nx) == c * c * (nx * nx) && (c * ny) * (c * ny) == c * c * (ny * ny)
        && (c * nz) * (c * nz) == c * c * (nz * nz)) by (nonlinear_arith);
    assert(px * px == s * s * (ux * ux) + 2 * ((s * c) * (ux * nx)) + c * c * (nx * nx));
    assert(py * py == s * s * (uy * uy) + 2 * ((s * c) * (uy * ny)) + c * c * (ny * ny));
    assert(pz * pz == s * s * (uz * uz) + 2 * ((s * c) * (uz * nz)) + c * c * (nz * nz));
    assert(s * s * (ux * ux) + s * s * (uy * uy) + s * s * (uz * uz) == s * s * s)
        by (nonlinear_arith)
        requires
            ux * ux + uy * uy + uz * uz == s,
    ;
    assert(c * c * (nx * nx) + c * c * (ny * ny) + c * c * (nz * nz) == c * c * s)
        by (nonlinear_arith)
        requires
            nx * nx + ny * ny + nz * nz == s,
    ;
    assert((s * c) * (ux * nx) + (s * c) * (uy * ny) + (s * c) * (uz * nz) == -(s * (c * c)))
        by (nonlinear_arith)
        requires
            ux * nx + uy * ny + uz * nz == -c,
    ;
    assert(s * s * s + c * c * s - 2 * (s * (c * c)) == s * (s * s - c * c)) by (nonlinear_arith);
    assert(px * px + py * py + pz * pz == s * (s * s - c * c));
    assert(px == k * k * ux + c * nx && py == k * k * uy + c * ny && pz == k * k * uz + c * nz);
    assert(s * s == k * k * k * k && s * (s * s - c * c) == k * k * (k * k * k * k - c * c))
        by (nonlinear_arith)
        requires
            s == k * k,
    ;
    assert(px * px >= 0 && py * py >= 0 && pz * pz >= 0) by (nonlinear_arith);
    assert(s * (s * s - c * c) >= 0);
    assert(s > 0) by (nonlinear_arith)
        requires
            k > 0,
            s == k * k,
    ;
    assert(c * c <= s * s) by (nonlinear_arith)
        requires
            s > 0,
            s * (s * s - c * c) >= 0,
    ;
}

/// `(a + b)² == a² + 2ab + b²`, for a named sum.
proof fn lemma_binomial_sq(p: int, a: int, b: int)
    requires
        p == a + b,
    ensures
        p * p == a * a + 2 * (a * b) + b * b,
{
    assert(p * p == a * a + 2 * (a * b) + b * b) by (nonlinear_arith)
        requires
            p == a + b,
    ;
}

} // verus!
