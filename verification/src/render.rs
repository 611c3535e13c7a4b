//! The render driver.
//!
//! Rows are partitioned into contiguous, disjoint scanline bands that cover
//! the image exactly; each band renders independently (so workers need no
//! lock: each owns its rows). A pixel averages its samples, applies the
//! square-root gamma transform, and quantizes each channel to eight bits by
//! `round(clamp(value, 0, 1) · 255)`.

use vstd::prelude::*;

use crate::camera::{camera_wf, Camera};
use crate::fx::{fx_sqrt, fx_sqrt_spec, lemma_isqrt_props, HALF_SCALE, SCALE};
use crate::raytracer::{normal_color_spec, Raytracer};
use crate::scene::{scene_wf, Scene};
use crate::vec3::{color_wf, Vec3};

verus! {

/// One quantized pixel: three 8-bit channels.
#[derive(Clone, Copy, Debug, PartialEq, Eq, Structural)]
pub struct Rgb8 {
    pub r: u8,
    pub g: u8,
    pub b: u8,
}

/// Clamp a channel into color range.
pub open spec fn clamp01_spec(c: int) -> int {
    if c < 0 {
        0
    } else if c > SCALE as int {
        SCALE as int
    } else {
        c
    }
}

/// Quantize a clamped channel to eight bits, rounding half up:
/// `round(clamp(c, 0, 1) · 255)`.
pub open spec fn quantize_spec(c: int) -> int {
    (clamp01_spec(c) * 255 + HALF_SCALE as int) / (SCALE as int)
}

/// The display gamma transform: the square root of the clamped channel
/// (gamma two).
pub open spec fn gamma_spec(c: int) -> int {
    fx_sqrt_spec(clamp01_spec(c))
}

/// A color after gamma and quantization.
pub open spec fn pixel_of_spec(c: Vec3) -> Rgb8 {
    Rgb8 {
        r: quantize_spec(gamma_spec(c.x as int)) as u8,
        g: quantize_spec(gamma_spec(c.y as int)) as u8,
        b: quantize_spec(gamma_spec(c.z as int)) as u8,
    }
}

/// Quantize one channel to eight bits.
pub fn quantize_channel(c: i64) -> (r: u8)
    ensures
        r as int == quantize_spec(c as int),
{
    let cc: i64 = if c < 0 {
        0
    } else if c > SCALE {
        SCALE
    } else {
        c
    };
    let q: u64 = ((cc as u64) * 255 + (HALF_SCALE as u64)) / (SCALE as u64);
    proof {
        vstd::arithmetic::div_mod::lemma_div_is_ordered(
            (cc as int) * 255 + HALF_SCALE as int,
            25550000,
            SCALE as int,
        );
        vstd::arithmetic::div_mod::lemma_div_multiples_vanish_fancy(255, 50000, 100000);
        vstd::arithmetic::div_mod::lemma_div_pos_is_pos((cc as int) * 255 + HALF_SCALE as int, SCALE as int);
    }
    q as u8
}

/// The gamma transform of one channel; the result is again a channel in
/// `[0, 1]`.
pub fn gamma_channel(c: i64) -> (r: i64)
    ensures
        r as int == gamma_spec(c as int),
        0 <= r <= SCALE,
{
    let cc: i64 = if c < 0 {
        0
    } else if c > SCALE {
        SCALE
    } else {
        c
    };
    let r: i64 = fx_sqrt(cc);
    proof {
        if cc > 0 {
            lemma_isqrt_props((cc as int) * (SCALE as int));
            assert((cc as int) * (SCALE as int) <= 10000000000) by (nonlinear_arith)
                requires
                    0 <= cc as int <= 100000,
            ;
            assert(r as int <= 100000) by (nonlinear_arith)
                requires
                    (r as int) * (r as int) <= 10000000000,
                    r as int >= 0,
            ;
        }
    }
    r
}

/// Gamma-correct and quantize a color.
pub fn color_to_rgb8(c: &Vec3) -> (p: Rgb8)
    ensures
        p == pixel_of_spec(*c),
{
    Rgb8 {
        r: quantize_channel(gamma_channel(c.x)),
        g: quantize_channel(gamma_channel(c.y)),
        b: quantize_channel(gamma_channel(c.z)),
    }
}

/// A dense row-major pixel grid sized to the camera's resolution.
pub struct Framebuffer {
    pub width: u32,
    pub height: u32,
    pub pixels: Vec<Rgb8>,
}

/// The grid holds exactly one pixel per coordinate.
pub open spec fn fb_wf(fb: Framebuffer) -> bool {
    fb.pixels@.len() == (fb.height as int) * (fb.width as int)
}

/// Row-major position of pixel `(x, y)`: top row first.
pub open spec fn fb_index_spec(fb: Framebuffer, x: int, y: int) -> int {
    y * (fb.width as int) + x
}

/// A row-major index is in range and strictly below the grid size.
pub proof fn lemma_rowmajor_in_range(x: int, y: int, w: int, h: int)
    requires
        0 <= x < w,
        0 <= y < h,
    ensures
        0 <= y * w + x < h * w,
{
    assert(y * w + x < h * w) by (nonlinear_arith)
        requires
            0 <= x < w,
            0 <= y < h,
    ;
    assert(y * w >= 0) by (nonlinear_arith)
        requires
            y >= 0,
            w > 0,
    ;
}

impl Framebuffer {
    /// An all-black grid of the given size (which must fit in memory's
    /// index type).
    pub fn new(width: u32, height: u32) -> (fb: Framebuffer)
        requires
            (height as int) * (width as int) <= usize::MAX as int,
        ensures
            fb.width == width,
            fb.height == height,
            fb_wf(fb),
            forall|k: int|
                0 <= k < fb.pixels@.len() ==> fb.pixels@[k] == (Rgb8 { r: 0, g: 0, b: 0 }),
    {
        let total: usize = (height as usize) * (width as usize);
        let mut pixels: Vec<Rgb8> = Vec::new();
        let mut k: usize = 0;
        while k < total
            invariant
                k <= total,
                pixels@.len() == k as int,
                forall|j: int| 0 <= j < k as int ==> pixels@[j] == (Rgb8 { r: 0, g: 0, b: 0 }),
            decreases total - k,
        {
            pixels.push(Rgb8 { r: 0, g: 0, b: 0 });
            k = k + 1;
        }
        Framebuffer { width, height, pixels }
    }

    /// The pixel at `(x, y)`.
    pub fn get_pixel(&self, x: u32, y: u32) -> (p: Rgb8)
        requires
            fb_wf(*self),
            x < self.width,
            y < self.height,
        ensures
            p == self.pixels@[fb_index_spec(*self, x as int, y as int)],
    {
        let n: usize = self.pixels.len();
        proof {
            lemma_rowmajor_in_range(x as int, y as int, self.width as int, self.height as int);
        }
        let idx: usize = (y as usize) * (self.width as usize) + (x as usize);
        self.pixels[idx]
    }

    /// Write the pixel at `(x, y)`; every other pixel keeps its value.
    pub fn set_pixel(&mut self, x: u32, y: u32, p: Rgb8)
        requires
            fb_wf(*old(self)),
            x < old(self).width,
            y < old(self).height,
        ensures
            fb_wf(*final(self)),
            final(self).width == old(self).width,
            final(self).height == old(self).height,
            final(self).pixels@ == old(self).pixels@.update(
                fb_index_spec(*old(self), x as int, y as int),
                p,
            ),
    {
        let n: usize = self.pixels.len();
        proof {
            lemma_rowmajor_in_range(x as int, y as int, self.width as int, self.height as int);
        }
        let idx: usize = (y as usize) * (self.width as usize) + (x as usize);
        self.pixels.set(idx, p);
    }
}

/// Start row of band `i` when `height` rows split into `workers` bands:
/// the first `height % workers` bands take one extra row.
pub open spec fn band_start_spec(i: int, height: int, workers: int) -> int
    recommends
        workers > 0,
{
    let base = height / workers;
    let rem = height % workers;
    i * base + if i < rem {
        i
    } else {
        rem
    }
}

/// Split the rows `[0, height)` into `workers` contiguous bands of
/// near-equal size: band `i` is `[band_start(i), band_start(i+1))`, the
/// first band starts at row zero and the last ends exactly at `height`, so
/// no row is dropped whatever the divisibility.
pub fn partition_rows(height: usize, workers: usize) -> (bands: Vec<(usize, usize)>)
    requires
        workers >= 1,
    ensures
        bands@.len() == workers as int,
        forall|i: int|
            0 <= i < workers as int ==> (#[trigger] bands@[i]).0 == band_start_spec(
                i,
                height as int,
                workers as int,
            ) && bands@[i].1 == band_start_spec(i + 1, height as int, workers as int),
        bands@[0].0 == 0,
        bands@[workers as int - 1].1 == height as int,
{
    proof {
        vstd::arithmetic::div_mod::lemma_fundamental_div_mod(height as int, workers as int);
    }
    let base: usize = height / workers;
    let rem: usize = height % workers;
    let mut bands: Vec<(usize, usize)> = Vec::new();
    let mut start: usize = 0;
    let mut i: usize = 0;
    while i < workers
        invariant
            i <= workers,
            workers >= 1,
            base == height as int / workers as int,
            rem == height as int % workers as int,
            bands@.len() == i as int,
            start as int == band_start_spec(i as int, height as int, workers as int),
            start <= height,
            forall|j: int|
                0 <= j < i as int ==> (#[trigger] bands@[j]).0 == band_start_spec(
                    j,
                    height as int,
                    workers as int,
                ) && bands@[j].1 == band_start_spec(j + 1, height as int, workers as int),
        decreases workers - i,
    {
        let extra: usize = if i < rem {
            1
        } else {
            0
        };
        proof {
            lemma_band_start_le_height(i as int + 1, height as int, workers as int);
            assert((i as int + 1) * (height as int / workers as int) == i as int * (height as int
                / workers as int) + height as int / workers as int) by (nonlinear_arith);
            assert(start as int + base as int + extra as int == band_start_spec(
                i as int + 1,
                height as int,
                workers as int,
            ));
        }
        let end: usize = start + base + extra;
        bands.push((start, end));
        start = end;
        i = i + 1;
    }
    proof {
        vstd::arithmetic::div_mod::lemma_fundamental_div_mod(height as int, workers as int);
        assert(band_start_spec(workers as int, height as int, workers as int) == height as int);
    }
    bands
}

/// No band start passes the image height.
pub proof fn lemma_band_start_le_height(i: int, height: int, workers: int)
    requires
        workers >= 1,
        height >= 0,
        0 <= i <= workers,
    ensures
        band_start_spec(i, height, workers) <= height,
        band_start_spec(i, height, workers) >= 0,
{
    let base = height / workers;
    let rem = height % workers;
    vstd::arithmetic::div_mod::lemma_fundamental_div_mod(height, workers);
    vstd::arithmetic::div_mod::lemma_div_pos_is_pos(height, workers);
    vstd::arithmetic::mul::lemma_mul_inequality(i, workers, base);
    assert(i * base >= 0) by (nonlinear_arith)
        requires
            i >= 0,
            base >= 0,
    ;
    assert(workers * base == base * workers) by (nonlinear_arith);
}

/// Row `row` lies inside band `i`.
pub open spec fn in_band(bands: Seq<(usize, usize)>, i: int, row: int) -> bool {
    (bands[i].0 as int) <= row < (bands[i].1 as int)
}

/// Some band holds row `row`.
pub open spec fn covered(bands: Seq<(usize, usize)>, row: int) -> bool {
    exists|i: int| 0 <= i < bands.len() && #[trigger] in_band(bands, i, row)
}

/// The partition law: the bands cover `[0, height)` exactly once — every
/// row lies in some band, and the bands are pairwise disjoint (ordered: an
/// earlier band ends no later than a later band starts).
pub proof fn lemma_partition_covers(bands: Seq<(usize, usize)>, height: int, workers: int)
    requires
        workers >= 1,
        height >= 0,
        bands.len() == workers,
        forall|i: int|
            0 <= i < workers ==> (#[trigger] bands[i]).0 == band_start_spec(i, height, workers)
                && bands[i].1 == band_start_spec(i + 1, height, workers),
    ensures
        forall|row: int| 0 <= row < height ==> #[trigger] covered(bands, row),
        forall|i: int, j: int|
            0 <= i < j < workers ==> (#[trigger] bands[i]).1 <= (#[trigger] bands[j]).0,
{
    assert forall|i: int, j: int| 0 <= i < j < workers implies (#[trigger] bands[i]).1 <= (
    #[trigger] bands[j]).0 by {
        lemma_band_start_mono(i + 1, j, height, workers);
    }
    assert forall|row: int| 0 <= row < height implies #[trigger] covered(bands, row) by {
        lemma_find_band(bands, height, workers, row, 0);
    }
}

/// Band starts are monotone in the band index.
pub proof fn lemma_band_start_mono(i: int, j: int, height: int, workers: int)
    requires
        workers >= 1,
        height >= 0,
        0 <= i <= j,
    ensures
        band_start_spec(i, height, workers) <= band_start_spec(j, height, workers),
{
    let base = height / workers;
    vstd::arithmetic::div_mod::lemma_div_pos_is_pos(height, workers);
    vstd::arithmetic::mul::lemma_mul_inequality(i, j, base);
}

/// From any band whose start is at or before `row`, some band at or after
/// it contains `row`.
proof fn lemma_find_band(bands: Seq<(usize, usize)>, height: int, workers: int, row: int, k: int)
    requires
        workers >= 1,
        height >= 0,
        bands.len() == workers,
        forall|i: int|
            0 <= i < workers ==> (#[trigger] bands[i]).0 == band_start_spec(i, height, workers)
                && bands[i].1 == band_start_spec(i + 1, height, workers),
        0 <= k < workers,
        bands[k].0 <= row < height,
    ensures
        covered(bands, row),
    decreases workers - k,
{
    if row < bands[k].1 {
        assert(in_band(bands, k, row));
    } else {
        if k == workers - 1 {
            vstd::arithmetic::div_mod::lemma_fundamental_div_mod(height, workers);
            assert(band_start_spec(workers, height, workers) == height);
            assert(false);
        } else {
            lemma_find_band(bands, height, workers, row, k + 1);
        }
    }
}


/// What the deterministic normal-visualization pass writes at pixel
/// `(x, y)`: the depth-0 normal shade along the centered (unjittered)
/// pixel ray, gamma-corrected and quantized.
pub open spec fn normal_pixel_spec(
    tracer: Raytracer,
    camera: Camera,
    geoms: Seq<crate::geometry::Geometry>,
    x: int,
    y: int,
) -> Rgb8 {
    pixel_of_spec(
        normal_color_spec(
            tracer,
            crate::camera::ray_for_pixel_spec(camera, x as u32, y as u32, 0, 0),
            geoms,
        ),
    )
}

/// The first `rows` rows of a row-major grid hold exactly the
/// normal-visualization pixels.
pub open spec fn normals_rows_ok(
    pix: Seq<Rgb8>,
    tracer: Raytracer,
    camera: Camera,
    geoms: Seq<crate::geometry::Geometry>,
    w: int,
    rows: int,
) -> bool {
    forall|xx: int, yy: int|
        0 <= xx < w && 0 <= yy < rows ==> pix[yy * w + xx] == #[trigger] normal_pixel_spec(
            tracer,
            camera,
            geoms,
            xx,
            yy,
        )
}

/// The first `cols` pixels of row `y` hold exactly the
/// normal-visualization pixels.
pub open spec fn normals_row_prefix_ok(
    pix: Seq<Rgb8>,
    tracer: Raytracer,
    camera: Camera,
    geoms: Seq<crate::geometry::Geometry>,
    w: int,
    y: int,
    cols: int,
) -> bool {
    forall|xx: int|
        0 <= xx < cols ==> pix[y * w + xx] == #[trigger] normal_pixel_spec(
            tracer,
            camera,
            geoms,
            xx,
            y,
        )
}

/// Every pixel of the framebuffer is the normal-visualization pixel of
/// its coordinate.
pub open spec fn normals_fb_ok(
    fb: Framebuffer,
    tracer: Raytracer,
    camera: Camera,
    geoms: Seq<crate::geometry::Geometry>,
) -> bool {
    normals_rows_ok(fb.pixels@, tracer, camera, geoms, fb.width as int, fb.height as int)
}

/// Render the scanline band `[y0, y1)`: every pixel averages
/// `samples_per_pixel` jittered radiance samples, is gamma-corrected and
/// quantized. The band's pixels come out row-major, one per coordinate;
/// the sampled values themselves are chance.
pub fn render_band(
    scene: &Scene,
    camera: &Camera,
    tracer: &Raytracer,
    y0: u32,
    y1: u32,
) -> (pixels: Vec<Rgb8>)
    requires
        y0 <= y1,
        y1 <= camera.height,
        camera_wf(*camera),
        scene_wf(scene.geometry@),
        color_wf(tracer.background),
    ensures
        pixels@.len() == ((y1 - y0) as int) * (camera.width as int),
{
    let w: u32 = camera.width;
    let spp: u32 = camera.samples_per_pixel;
    let mut pixels: Vec<Rgb8> = Vec::new();
    let mut y: u32 = y0;
    while y < y1
        invariant
            y0 <= y <= y1,
            y1 <= camera.height,
            camera_wf(*camera),
            scene_wf(scene.geometry@),
            color_wf(tracer.background),
            w == camera.width,
            spp == camera.samples_per_pixel,
            pixels@.len() == ((y - y0) as int) * (w as int),
        decreases y1 - y,
    {
        let mut x: u32 = 0;
        while x < w
            invariant
                x <= w,
                y0 <= y < y1,
                y1 <= camera.height,
                camera_wf(*camera),
                scene_wf(scene.geometry@),
                color_wf(tracer.background),
                w == camera.width,
                spp == camera.samples_per_pixel,
                pixels@.len() == ((y - y0) as int) * (w as int) + x as int,
            decreases w - x,
        {
            let mut sx: i64 = 0;
            let mut sy: i64 = 0;
            let mut sz: i64 = 0;
            let mut s: u32 = 0;
            while s < spp
                invariant
                    s <= spp,
                    x < w,
                    y < y1,
                    y1 <= camera.height,
                    camera_wf(*camera),
                    scene_wf(scene.geometry@),
                    color_wf(tracer.background),
                    w == camera.width,
                    spp == camera.samples_per_pixel,
                    0 <= sx <= (s as int) * (SCALE as int),
                    0 <= sy <= (s as int) * (SCALE as int),
                    0 <= sz <= (s as int) * (SCALE as int),
                decreases spp - s,
            {
                let ray = camera.generate_ray_for_pixel(x, y);
                let c = tracer.ray_color(&ray, scene);
                proof {
                    assert((s as int + 1) * (SCALE as int) == (s as int) * (SCALE as int)
                        + SCALE as int) by (nonlinear_arith);
                    assert((s as int + 1) * (SCALE as int) <= 0x1_0000_0000 * 100000)
                        by (nonlinear_arith)
                        requires
                            0 <= s as int + 1 <= 0x1_0000_0000,
                    ;
                }
                sx = sx + c.x;
                sy = sy + c.y;
                sz = sz + c.z;
                s = s + 1;
            }
            proof {
                vstd::arithmetic::div_mod::lemma_div_is_ordered(
                    sx as int,
                    (spp as int) * (SCALE as int),
                    spp as int,
                );
                vstd::arithmetic::div_mod::lemma_div_is_ordered(
                    sy as int,
                    (spp as int) * (SCALE as int),
                    spp as int,
                );
                vstd::arithmetic::div_mod::lemma_div_is_ordered(
                    sz as int,
                    (spp as int) * (SCALE as int),
                    spp as int,
                );
                vstd::arithmetic::div_mod::lemma_div_multiples_vanish(SCALE as int, spp as int);
                vstd::arithmetic::div_mod::lemma_div_pos_is_pos(sx as int, spp as int);
                vstd::arithmetic::div_mod::lemma_div_pos_is_pos(sy as int, spp as int);
                vstd::arithmetic::div_mod::lemma_div_pos_is_pos(sz as int, spp as int);
            }
            let ax: i64 = ((sx as u64) / (spp as u64)) as i64;
            let ay: i64 = ((sy as u64) / (spp as u64)) as i64;
            let az: i64 = ((sz as u64) / (spp as u64)) as i64;
            let pixel = color_to_rgb8(&Vec3 { x: ax, y: ay, z: az });
            pixels.push(pixel);
            x = x + 1;
        }
        proof {
            assert(((y - y0) as int + 1) * (w as int) == ((y - y0) as int) * (w as int)
                + w as int) by (nonlinear_arith);
        }
        y = y + 1;
    }
    pixels
}

/// Render the whole image sequentially into a framebuffer: one band
/// covering every row.
pub fn render(scene: &Scene, camera: &Camera, tracer: &Raytracer) -> (fb: Framebuffer)
    requires
        camera_wf(*camera),
        scene_wf(scene.geometry@),
        color_wf(tracer.background),
        (camera.height as int) * (camera.width as int) <= usize::MAX as int,
    ensures
        fb.width == camera.width,
        fb.height == camera.height,
        fb_wf(fb),
{
    let pixels = render_band(scene, camera, tracer, 0, camera.height);
    Framebuffer { width: camera.width, height: camera.height, pixels }
}

/// Render the deterministic depth-0 normal-visualization pass with one
/// centered (unjittered) sample per pixel: every pixel of the result is
/// exactly `normal_pixel_spec`: the analytic background gradient wherever
/// the centered ray misses, and the normal shade where it hits.
pub fn render_normals(scene: &Scene, camera: &Camera, tracer: &Raytracer) -> (fb: Framebuffer)
    requires
        camera_wf(*camera),
    ensures
        fb.width == camera.width,
        fb.height == camera.height,
        fb_wf(fb),
        normals_fb_ok(fb, *tracer, *camera, scene.geometry@),
{
    let w: u32 = camera.width;
    let h: u32 = camera.height;
    let mut pixels: Vec<Rgb8> = Vec::new();
    let mut y: u32 = 0;
    while y < h
        invariant
            y <= h,
            w == camera.width,
            h == camera.height,
            camera_wf(*camera),
            pixels@.len() == (y as int) * (w as int),
            normals_rows_ok(pixels@, *tracer, *camera, scene.geometry@, w as int, y as int),
        decreases h - y,
    {
        let mut x: u32 = 0;
        while x < w
            invariant
                x <= w,
                y < h,
                w == camera.width,
                h == camera.height,
                camera_wf(*camera),
                pixels@.len() == (y as int) * (w as int) + x as int,
                normals_rows_ok(pixels@, *tracer, *camera, scene.geometry@, w as int, y as int),
                normals_row_prefix_ok(
                    pixels@,
                    *tracer,
                    *camera,
                    scene.geometry@,
                    w as int,
                    y as int,
                    x as int,
                ),
            decreases w - x,
        {
            let ray = camera.ray_for_pixel_jittered(x, y, 0, 0);
            let c = tracer.normal_color(&ray, scene);
            let p = color_to_rgb8(&c);
            pixels.push(p);
            proof {
                assert forall|xx: int, yy: int|
                    0 <= xx < w as int && 0 <= yy < y as int implies pixels@[yy * (w as int) + xx]
                    == #[trigger] normal_pixel_spec(*tracer, *camera, scene.geometry@, xx, yy) by {
                    lemma_rowmajor_in_range(xx, yy, w as int, y as int);
                }
                assert(pixels@[(y as int) * (w as int) + x as int] == normal_pixel_spec(
                    *tracer,
                    *camera,
                    scene.geometry@,
                    x as int,
                    y as int,
                ));
                assert(normals_rows_ok(pixels@, *tracer, *camera, scene.geometry@, w as int, y as int));
            }
            x = x + 1;
        }
        proof {
            assert((y as int + 1) * (w as int) == (y as int) * (w as int) + w as int)
                by (nonlinear_arith);
            assert forall|xx: int, yy: int|
                0 <= xx < w as int && 0 <= yy < y as int + 1 implies pixels@[yy * (w as int) + xx]
                == #[trigger] normal_pixel_spec(*tracer, *camera, scene.geometry@, xx, yy) by {
                if yy < y as int {
                    assert(normals_rows_ok(pixels@, *tracer, *camera, scene.geometry@, w as int, y as int));
                } else {
                    assert(normals_row_prefix_ok(
                        pixels@,
                        *tracer,
                        *camera,
                        scene.geometry@,
                        w as int,
                        y as int,
                        w as int,
                    ));
                }
            }
        }
        y = y + 1;
    }
    Framebuffer { width: w, height: h, pixels }
}

} // verus!
