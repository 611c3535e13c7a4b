//! The camera: viewport geometry and per-pixel ray generation.
//!
//! Construction derives the viewport basis, the per-pixel step vectors and
//! the center of the top-left pixel from the image height, the aspect
//! ratio, the focal length and the viewport height. Ray generation jitters
//! the sample point inside the pixel: `ray_for_pixel_jittered` is the
//! deterministic core taking the jitter as arguments, and
//! `generate_ray_for_pixel` draws the jitter at random.

use vstd::prelude::*;

use crate::fx::{
    fx_div, fx_div_spec, fx_mul, fx_mul_spec, fx_neg, fx_neg_spec, HALF_SCALE, SCALE,
};
use crate::ray::Ray;
use crate::rng::random_fx;
use crate::vec3::{
    add_spec, len_sq_spec, neg_spec, normalized_spec, scale_spec, sub_spec, v3, Vec3,
};

verus! {

/// The derived, immutable view geometry.
pub struct Camera {
    pub height: u32,
    pub aspect_ratio: i64,
    pub width: u32,
    pub focal_length: i64,
    pub vp_width: i64,
    pub vp_height: i64,
    pub samples_per_pixel: u32,
    pub origin: Vec3,
    pub pixel_delta_x: Vec3,
    pub pixel_delta_y: Vec3,
    pub vp_pixel00: Vec3,
}

/// The image width derived from height and aspect ratio, floored to a
/// whole pixel count.
pub open spec fn camera_width_spec(height: u32, aspect_ratio: i64) -> int {
    (height as int) * (aspect_ratio as int) / (SCALE as int)
}

/// What construction derives from the given parameters.
pub open spec fn camera_spec(
    height: u32,
    aspect_ratio: i64,
    focal_length: i64,
    vp_height: i64,
    samples_per_pixel: u32,
    origin: Vec3,
) -> Camera {
    let w = camera_width_spec(height, aspect_ratio);
    let vp_w = fx_mul_spec(vp_height as int, aspect_ratio as int);
    let vp_horizontal = scale_spec(v3(SCALE as int, 0, 0), vp_w);
    let vp_vertical = scale_spec(neg_spec(v3(0, SCALE as int, 0)), vp_height as int);
    let lower_left = add_spec(
        sub_spec(
            sub_spec(origin, scale_spec(vp_horizontal, HALF_SCALE as int)),
            scale_spec(vp_vertical, HALF_SCALE as int),
        ),
        scale_spec(v3(0, 0, -(SCALE as int)), focal_length as int),
    );
    let pdx = v3(fx_div_spec(vp_w, w * (SCALE as int)), 0, 0);
    let pdy = v3(
        0,
        fx_div_spec(fx_neg_spec(vp_height as int), (height as int) * (SCALE as int)),
        0,
    );
    let p00 = add_spec(lower_left, scale_spec(add_spec(pdx, pdy), HALF_SCALE as int));
    Camera {
        height,
        aspect_ratio,
        width: w as u32,
        focal_length,
        vp_width: vp_w as i64,
        vp_height,
        samples_per_pixel,
        origin,
        pixel_delta_x: pdx,
        pixel_delta_y: pdy,
        vp_pixel00: p00,
    }
}

/// What rendering needs of a camera: at least one pixel each way and at
/// least one sample per pixel.
pub open spec fn camera_wf(c: Camera) -> bool {
    c.width >= 1 && c.height >= 1 && c.samples_per_pixel >= 1
}

/// The ray through the sample point of pixel `(x, y)` offset by the jitter
/// `(jx, jy)` (in units of one pixel step): from the eye toward the
/// jittered sample, normalized. The degenerate sub-tick direction that
/// cannot be normalized falls back to the unit forward axis.
pub open spec fn ray_for_pixel_spec(c: Camera, x: u32, y: u32, jx: int, jy: int) -> Ray {
    let center = add_spec(
        add_spec(c.vp_pixel00, scale_spec(c.pixel_delta_x, (x as int) * (SCALE as int))),
        scale_spec(c.pixel_delta_y, (y as int) * (SCALE as int)),
    );
    let sample = add_spec(center, add_spec(scale_spec(c.pixel_delta_x, jx), scale_spec(c.pixel_delta_y, jy)));
    let dir = sub_spec(sample, c.origin);
    if len_sq_spec(dir) >= 1 {
        Ray { origin: c.origin, direction: normalized_spec(dir) }
    } else {
        Ray { origin: c.origin, direction: v3(0, 0, -(SCALE as int)) }
    }
}

impl Camera {
    /// Derive the view geometry. The width `height·aspect` must come to at
    /// least one pixel and fit the pixel index type.
    pub fn new(
        height: u32,
        aspect_ratio: i64,
        focal_length: i64,
        vp_height: i64,
        samples_per_pixel: u32,
        origin: Vec3,
    ) -> (c: Camera)
        requires
            height >= 1,
            aspect_ratio >= 1,
            samples_per_pixel >= 1,
            (height as int) * (aspect_ratio as int) >= SCALE as int,
            camera_width_spec(height, aspect_ratio) <= u32::MAX as int,
        ensures
            c == camera_spec(height, aspect_ratio, focal_length, vp_height, samples_per_pixel, origin),
            camera_wf(c),
    {
        proof {
            vstd::arithmetic::div_mod::lemma_div_is_ordered(
                SCALE as int,
                (height as int) * (aspect_ratio as int),
                SCALE as int,
            );
            vstd::arithmetic::div_mod::lemma_div_by_self(SCALE as int);
        }
        let wq: u128 = ((height as u128) * (aspect_ratio as u128)) / (SCALE as u128);
        let width: u32 = wq as u32;
        let vp_width: i64 = fx_mul(vp_height, aspect_ratio);
        let vp_horizontal = Vec3::right().scale(vp_width);
        let vp_vertical = Vec3::up().neg().scale(vp_height);
        let lower_left = origin
            .sub(&vp_horizontal.scale(HALF_SCALE))
            .sub(&vp_vertical.scale(HALF_SCALE))
            .add(&Vec3::forward().scale(focal_length));
        let width_fx: i64 = (width as i64) * SCALE;
        let height_fx: i64 = (height as i64) * SCALE;
        let pixel_delta_x = Vec3 { x: fx_div(vp_width, width_fx), y: 0, z: 0 };
        let pixel_delta_y = Vec3 { x: 0, y: fx_div(fx_neg(vp_height), height_fx), z: 0 };
        let vp_pixel00 = lower_left.add(&pixel_delta_x.add(&pixel_delta_y).scale(HALF_SCALE));
        Camera {
            height,
            aspect_ratio,
            width,
            focal_length,
            vp_width,
            vp_height,
            samples_per_pixel,
            origin,
            pixel_delta_x,
            pixel_delta_y,
            vp_pixel00,
        }
    }

    /// The deterministic ray for pixel `(x, y)` with the given jitter, in
    /// half-unit range per axis.
    pub fn ray_for_pixel_jittered(&self, x: u32, y: u32, jx: i64, jy: i64) -> (r: Ray)
        requires
            x < self.width,
            y < self.height,
        ensures
            r == ray_for_pixel_spec(*self, x, y, jx as int, jy as int),
    {
        let x_fx: i64 = (x as i64) * SCALE;
        let y_fx: i64 = (y as i64) * SCALE;
        let center = self.vp_pixel00.add(&self.pixel_delta_x.scale(x_fx)).add(
            &self.pixel_delta_y.scale(y_fx),
        );
        let sample = center.add(&self.pixel_delta_x.scale(jx).add(&self.pixel_delta_y.scale(jy)));
        let dir = sample.sub(&self.origin);
        if dir.len_squared() >= 1 {
            Ray { origin: self.origin, direction: dir.normalized() }
        } else {
            Ray { origin: self.origin, direction: Vec3::forward() }
        }
    }

    /// The ray for pixel `(x, y)` with a uniform jitter of up to half a
    /// pixel step each way; which jitter is chance. Repeated calls for one
    /// pixel sample the pixel's area independently — the sole antialiasing
    /// and Monte-Carlo mechanism.
    pub fn generate_ray_for_pixel(&self, x: u32, y: u32) -> (r: Ray)
        requires
            x < self.width,
            y < self.height,
        ensures
            exists|jx: int, jy: int|
                -(HALF_SCALE as int) <= jx <= HALF_SCALE as int && -(HALF_SCALE as int) <= jy
                    <= HALF_SCALE as int && r == #[trigger] ray_for_pixel_spec(*self, x, y, jx, jy),
    {
        let jx: i64 = random_fx(-HALF_SCALE, HALF_SCALE);
        let jy: i64 = random_fx(-HALF_SCALE, HALF_SCALE);
        let r = self.ray_for_pixel_jittered(x, y, jx, jy);
        proof {
            assert(r == ray_for_pixel_spec(*self, x, y, jx as int, jy as int));
        }
        r
    }
}

} // verus!
