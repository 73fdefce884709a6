//! Textures: a color for every surface coordinate and world point.

use vstd::prelude::*;
use crate::num::{div_i128, fdiv_i128, tdiv};
use crate::perlin::{perm_ok, ranvec_ok, turb_val, Perlin};
use crate::rtweekend::clamp;
use crate::vec3::{fxmul, Color, Point3, Vec3};
use crate::UNIT;

verus! {

/// Checker cells flip every this many grid units, the fixed-point size of
/// the reference pattern's half-period.
pub const CHECKER_CELL: i64 = 20589;

pub struct SolidColor {
    pub color_value: Color,
}

pub struct CheckerTexture {
    pub odd: Box<Texture>,
    pub even: Box<Texture>,
}

pub struct NoiseTexture {
    pub noise: Perlin,
    pub scale: i64,
}

pub struct ImageTexture {
    pub data: Vec<u8>,
    pub width: u32,
    pub height: u32,
    pub bytes_per_scanline: u32,
}

/// Every kind of texture.
pub enum Texture {
    Solid(SolidColor),
    Checker(CheckerTexture),
    Noise(NoiseTexture),
    Image(ImageTexture),
}

/// Fixed-point value of pi.
pub const PI_FX: i64 = 205887;

/// Fixed-point value of two pi (twice `PI_FX`, so the two half-periods of
/// the sine split the period exactly).
pub const TWO_PI_FX: i64 = 411774;

/// `PI_FX` squared, the parabola's normalizer.
pub const SIN_DEN: i64 = 42389456769;

/// A fixed-point sine: the argument reduced into one period, then each
/// half-period approximated by the parabola `4 t (pi - t) / pi^2`, negated
/// on the second half. Exact at every multiple of half a period.
pub open spec fn sin_fx_s(x: int) -> int {
    let m = x - (TWO_PI_FX as int) * (x / (TWO_PI_FX as int));
    if m <= PI_FX as int {
        tdiv(4 * m * ((PI_FX as int) - m) * (UNIT as int), SIN_DEN as int)
    } else {
        -tdiv(4 * (m - (PI_FX as int)) * ((TWO_PI_FX as int) - m) * (UNIT as int), SIN_DEN as int)
    }
}

pub open spec fn noise_tex_wf(nt: NoiseTexture) -> bool {
    &&& ranvec_ok(nt.noise.ranvec@)
    &&& perm_ok(nt.noise.perm_x@)
    &&& perm_ok(nt.noise.perm_y@)
    &&& perm_ok(nt.noise.perm_z@)
    &&& 0 <= nt.scale <= 0x10_0000
}

/// The marble formula: half of one plus the sine of the scaled depth
/// coordinate perturbed by ten turbulence units. Points beyond the scene
/// grid are clamped onto it before the lattice is sampled.
pub open spec fn marble_channel(nt: NoiseTexture, p: Point3) -> int {
    let q = Vec3 {
        x: crate::hittable::clamp_s(p.x as int, -0x100_0000, 0x100_0000) as i64,
        y: crate::hittable::clamp_s(p.y as int, -0x100_0000, 0x100_0000) as i64,
        z: crate::hittable::clamp_s(p.z as int, -0x100_0000, 0x100_0000) as i64,
    };
    let arg = fxmul(nt.scale as int, q.z as int) + 10 * turb_val(
        nt.noise.ranvec@,
        nt.noise.perm_x@,
        nt.noise.perm_y@,
        nt.noise.perm_z@,
        q,
        7,
    );
    tdiv((UNIT as int) + sin_fx_s(arg), 2)
}

pub open spec fn image_wf(t: ImageTexture) -> bool {
    &&& 0 < t.width <= 0x1_0000
    &&& 0 < t.height <= 0x1_0000
    &&& t.bytes_per_scanline == 3 * t.width
    &&& t.data@.len() == 3 * t.width * t.height
}

pub open spec fn texture_wf(t: Texture) -> bool
    decreases t,
{
    match t {
        Texture::Solid(_) => true,
        Texture::Checker(c) => texture_wf(*c.odd) && texture_wf(*c.even),
        Texture::Noise(nt) => noise_tex_wf(nt),
        Texture::Image(img) => image_wf(img),
    }
}

/// Which cell of the checker pattern a point falls in: a sine of a scaled
/// coordinate is negative exactly when the coordinate's floor cell index
/// is odd, so the product of the three sines is negative exactly when the
/// summed floor indices are odd.
pub open spec fn checker_odd(p: Point3) -> bool {
    let cx = (p.x as int) / (CHECKER_CELL as int);
    let cy = (p.y as int) / (CHECKER_CELL as int);
    let cz = (p.z as int) / (CHECKER_CELL as int);
    let sum = cx + cy + cz;
    sum - 2 * tdiv(sum, 2) != 0
}

/// The image pixel sampled at surface coordinates `(u, v)`.
pub open spec fn image_index(t: ImageTexture, u: int, v: int) -> int {
    let uc = crate::hittable::clamp_s(u, 0, UNIT as int);
    let vc = (UNIT as int) - crate::hittable::clamp_s(v, 0, UNIT as int);
    let i0 = uc * t.width / (UNIT as int);
    let j0 = vc * t.height / (UNIT as int);
    let i = if i0 >= t.width {
        t.width - 1
    } else {
        i0
    };
    let j = if j0 >= t.height {
        t.height - 1
    } else {
        j0
    };
    j * t.bytes_per_scanline + i * 3
}

/// What each texture answers, as a function of the query.
pub open spec fn texture_value(t: Texture, u: int, v: int, p: Point3) -> Color
    decreases t,
{
    match t {
        Texture::Solid(sc) => sc.color_value,
        Texture::Checker(c) => if checker_odd(p) {
            texture_value(*c.odd, u, v, p)
        } else {
            texture_value(*c.even, u, v, p)
        },
        Texture::Noise(nt) => {
            let c = marble_channel(nt, p);
            Color { x: c as i64, y: c as i64, z: c as i64 }
        },
        Texture::Image(img) => {
            let base = image_index(img, u, v);
            Color {
                x: tdiv(img.data@[base] * (UNIT as int), 255) as i64,
                y: tdiv(img.data@[base + 1] * (UNIT as int), 255) as i64,
                z: tdiv(img.data@[base + 2] * (UNIT as int), 255) as i64,
            }
        },
    }
}

impl SolidColor {
    pub fn new(c: Color) -> (r: SolidColor)
        ensures
            r.color_value == c,
    {
        SolidColor { color_value: c }
    }

    pub fn new_(red: i64, green: i64, blue: i64) -> (r: SolidColor)
        ensures
            r.color_value == (Vec3 { x: red, y: green, z: blue }),
    {
        SolidColor { color_value: Color { x: red, y: green, z: blue } }
    }
}

impl CheckerTexture {
    pub fn new(_even: Box<Texture>, _odd: Box<Texture>) -> (r: CheckerTexture)
        ensures
            r.even == _even,
            r.odd == _odd,
    {
        CheckerTexture { even: _even, odd: _odd }
    }

    pub fn new_by_color(c1: Color, c2: Color) -> (r: CheckerTexture)
        ensures
            r.even == Box::new(Texture::Solid(SolidColor { color_value: c1 })),
            r.odd == Box::new(Texture::Solid(SolidColor { color_value: c2 })),
    {
        CheckerTexture {
            even: Box::new(Texture::Solid(SolidColor { color_value: c1 })),
            odd: Box::new(Texture::Solid(SolidColor { color_value: c2 })),
        }
    }
}

impl ImageTexture {
    /// Wrap an already decoded RGB byte buffer, three bytes a pixel, rows
    /// top to bottom.
    pub fn new(data: Vec<u8>, width: u32, height: u32) -> (r: ImageTexture)
        requires
            0 < width <= 0x1_0000,
            0 < height <= 0x1_0000,
            data@.len() == 3 * width * height,
        ensures
            r.data == data,
            r.width == width,
            r.height == height,
            r.bytes_per_scanline == 3 * width,
            image_wf(r),
    {
        ImageTexture { data, width, height, bytes_per_scanline: 3 * width }
    }
}

impl Texture {
    /// The color of this texture at surface coordinates `(u, v)` and world
    /// point `p`; coordinates are fixed-point values.
    pub fn value(&self, u: i64, v: i64, p: Point3) -> (c: Color)
        requires
            texture_wf(*self),
            crate::vec3::bounded(p, 0x400_0000_0000_0000),
        ensures
            c == texture_value(*self, u as int, v as int, p),
        decreases *self,
    {
        match self {
            Texture::Solid(sc) => sc.color_value,
            Texture::Checker(c) => {
                let cx = floor_cell(p.x);
                let cy = floor_cell(p.y);
                let cz = floor_cell(p.z);
                let s = cx + cy + cz;
                let h = crate::num::div_i64(s, 2);
                let odd = s - 2 * h != 0;
                proof {
                    assert(odd == checker_odd(p));
                }
                if odd {
                    c.odd.value(u, v, p)
                } else {
                    c.even.value(u, v, p)
                }
            },
            Texture::Noise(nt) => {
                let qx = clamp(p.x, -0x100_0000, 0x100_0000);
                let qy = clamp(p.y, -0x100_0000, 0x100_0000);
                let qz = clamp(p.z, -0x100_0000, 0x100_0000);
                let q = Vec3 { x: qx, y: qy, z: qz };
                let t = nt.noise.turb(q, 7);
                proof {
                    crate::vec3::lemma_fxmul_bound(
                        nt.scale as int,
                        qz as int,
                        0x10_0000,
                        0x100_0000,
                    );
                    crate::num::lemma_tdiv_ordered(
                        (0x10_0000 as int) * 0x100_0000,
                        0x1_0000_0000_0000,
                        UNIT as int,
                    );
                    assert(tdiv(0x1_0000_0000_0000, UNIT as int) == 0x1_0000_0000) by {
                        vstd::arithmetic::div_mod::lemma_div_multiples_vanish(
                            0x1_0000_0000,
                            0x1_0000,
                        );
                        assert(0x1_0000_0000 * 0x1_0000 == 0x1_0000_0000_0000)
                            by (nonlinear_arith);
                    }
                    assert(0x10_0000 * 0x100_0000 <= 0x1_0000_0000_0000) by (nonlinear_arith);
                }
                let sz = crate::vec3::fxmul_exec(nt.scale, qz);
                let arg = sz + 10 * t;
                let sn = sin_fx(arg);
                let c = crate::num::div_i64(UNIT + sn, 2);
                Color { x: c, y: c, z: c }
            },
            Texture::Image(img) => {
                let uc = clamp(u, 0, UNIT);
                let vc = UNIT - clamp(v, 0, UNIT);
                let ucw: u64 = uc as u64;
                let vcw: u64 = vc as u64;
                let w64: u64 = img.width as u64;
                let h64: u64 = img.height as u64;
                proof {
                    lemma_image_scale(uc as int, img.width as int);
                    lemma_image_scale(vc as int, img.height as int);
                    assert((ucw as int) * (w64 as int) == (uc as int) * (img.width as int))
                        by (nonlinear_arith)
                        requires
                            ucw as int == uc as int,
                            w64 as int == img.width as int,
                    ;
                    assert((vcw as int) * (h64 as int) == (vc as int) * (img.height as int))
                        by (nonlinear_arith)
                        requires
                            vcw as int == vc as int,
                            h64 as int == img.height as int,
                    ;
                }
                let i0: u64 = ucw * w64 / (UNIT as u64);
                let j0: u64 = vcw * h64 / (UNIT as u64);
                let i: u64 = if i0 >= w64 {
                    w64 - 1
                } else {
                    i0
                };
                let j: u64 = if j0 >= h64 {
                    h64 - 1
                } else {
                    j0
                };
                let bps: u64 = img.bytes_per_scanline as u64;
                proof {
                    assert(i < w64 && j < h64);
                    assert((j as int) * (bps as int) + (i as int) * 3 + 2 < 3 * (img.width as int)
                        * (img.height as int) && 0 <= (j as int) * (bps as int) && 3 * (
                    img.width as int) * (img.height as int) <= 0xC000_0000_0000)
                        by (nonlinear_arith)
                        requires
                            0 <= i < img.width as int,
                            0 <= j < img.height as int,
                            0 < img.width <= 0x1_0000,
                            0 < img.height <= 0x1_0000,
                            bps as int == 3 * (img.width as int),
                    ;
                }
                let base64: u64 = j * bps + i * 3;
                proof {
                    let uc_s = crate::hittable::clamp_s(u as int, 0, UNIT as int);
                    let vc_s = (UNIT as int) - crate::hittable::clamp_s(v as int, 0, UNIT as int);
                    assert(uc as int == uc_s && vc as int == vc_s);
                    let i0_s = uc_s * (img.width as int) / (UNIT as int);
                    let j0_s = vc_s * (img.height as int) / (UNIT as int);
                    assert(i0 as int == i0_s && j0 as int == j0_s);
                    let i_s = if i0_s >= img.width as int {
                        img.width as int - 1
                    } else {
                        i0_s
                    };
                    let j_s = if j0_s >= img.height as int {
                        img.height as int - 1
                    } else {
                        j0_s
                    };
                    assert(i as int == i_s && j as int == j_s);
                    assert((j as int) * (bps as int) == j_s * (img.bytes_per_scanline as int))
                        by (nonlinear_arith)
                        requires
                            j as int == j_s,
                            bps as int == img.bytes_per_scanline as int,
                    ;
                    assert(base64 as int == image_index(*img, u as int, v as int));
                    lemma_image_in_bounds(*img, u as int, v as int);
                    assert(base64 as int + 2 < img.data@.len());
                }
                let dlen: usize = img.data.len();
                proof {
                    assert(dlen == img.data@.len());
                    assert(base64 as int + 2 < dlen as int);
                }
                let base = base64 as usize;
                let rb = img.data[base];
                let gb = img.data[base + 1];
                let bb = img.data[base + 2];
                Color {
                    x: ((rb as u64) * (UNIT as u64) / 255) as i64,
                    y: ((gb as u64) * (UNIT as u64) / 255) as i64,
                    z: ((bb as u64) * (UNIT as u64) / 255) as i64,
                }
            },
        }
    }
}

impl NoiseTexture {
    /// Generate fresh noise tables and remember the pattern scale.
    pub fn new(sc: i64) -> (r: NoiseTexture)
        requires
            0 <= sc <= 0x10_0000,
        ensures
            r.scale == sc,
            noise_tex_wf(r),
    {
        let mut tmp = Perlin::new();
        tmp.init();
        NoiseTexture { noise: tmp, scale: sc }
    }
}

/// The fixed-point sine behind the marble pattern.
fn sin_fx(x: i64) -> (r: i64)
    requires
        -0x40_0000_0000 <= x <= 0x40_0000_0000,
    ensures
        r == sin_fx_s(x as int),
        -UNIT <= r <= UNIT,
{
    let q = fdiv_i128(x as i128, TWO_PI_FX as i128);
    proof {
        vstd::arithmetic::div_mod::lemma_fundamental_div_mod(x as int, TWO_PI_FX as int);
        vstd::arithmetic::div_mod::lemma_mod_division_less_than_divisor(x as int, TWO_PI_FX as int);
        crate::vec3::lemma_mul_fits(q as int, TWO_PI_FX as int, 0x40_0000_0000, 0x10_0000);
    }
    let m = x - TWO_PI_FX * (q as i64);
    if m <= PI_FX {
        sin_half(m)
    } else {
        // The second half-period: the same parabola over the offset into
        // it, negated (`2 pi - m == pi - (m - pi)` splits the period
        // exactly because `TWO_PI_FX` is twice `PI_FX`).
        let r = sin_half(m - PI_FX);
        proof {
            assert((PI_FX as int) - ((m as int) - (PI_FX as int)) == (TWO_PI_FX as int) - m);
        }
        -r
    }
}

/// The parabola approximating one positive half-period of the sine.
fn sin_half(t: i64) -> (r: i64)
    requires
        0 <= t <= PI_FX,
    ensures
        r == tdiv(4 * t * ((PI_FX as int) - t) * (UNIT as int), SIN_DEN as int),
        0 <= r <= UNIT,
{
    proof {
        assert(0 <= 4 * (t as int) * ((PI_FX as int) - t) && 4 * (t as int) * ((PI_FX as int) - t)
            <= (PI_FX as int) * (PI_FX as int)) by (nonlinear_arith)
            requires
                0 <= t <= PI_FX,
                PI_FX == 205887,
        ;
        assert((PI_FX as int) * (PI_FX as int) == SIN_DEN) by (nonlinear_arith);
        crate::vec3::lemma_mul_fits(
            4 * (t as int) * ((PI_FX as int) - t),
            UNIT as int,
            0x9_DFFF_0000_0000,
            0x1_0000,
        );
        assert(4 * (t as int) * ((PI_FX as int) - t) <= 0x9_DFFF_0000_0000) by (nonlinear_arith)
            requires
                0 <= t <= PI_FX,
                PI_FX == 205887,
        ;
        crate::num::lemma_tdiv_ordered(
            4 * (t as int) * ((PI_FX as int) - t) * (UNIT as int),
            (SIN_DEN as int) * (UNIT as int),
            SIN_DEN as int,
        );
        assert(4 * (t as int) * ((PI_FX as int) - t) * (UNIT as int) <= (SIN_DEN as int) * (
        UNIT as int)) by (nonlinear_arith)
            requires
                0 <= 4 * (t as int) * ((PI_FX as int) - t) <= SIN_DEN,
        ;
        vstd::arithmetic::div_mod::lemma_div_multiples_vanish(UNIT as int, SIN_DEN as int);
        assert(tdiv((SIN_DEN as int) * (UNIT as int), SIN_DEN as int) == UNIT);
        crate::num::lemma_tdiv_bound(
            4 * (t as int) * ((PI_FX as int) - t) * (UNIT as int),
            SIN_DEN as int,
        );
        assert(0 <= 4 * (t as int) * ((PI_FX as int) - t) * (UNIT as int)) by (nonlinear_arith)
            requires
                0 <= 4 * (t as int) * ((PI_FX as int) - t),
        ;
    }
    let num: i128 = 4 * (t as i128) * ((PI_FX as i128) - (t as i128)) * (UNIT as i128);
    let r = div_i128(num, SIN_DEN as i128);
    r as i64
}

/// The checker cell index of one coordinate.
fn floor_cell(x: i64) -> (r: i64)
    requires
        -0x400_0000_0000_0000 <= x <= 0x400_0000_0000_0000,
    ensures
        r == (x as int) / (CHECKER_CELL as int),
        -0x400_0000_0000_0000 <= r <= 0x400_0000_0000_0000,
{
    let q = crate::num::fdiv_i128(x as i128, CHECKER_CELL as i128);
    q as i64
}

/// A fixed-point coordinate in `[0, 1]` scaled by a pixel count stays
/// below the count after dividing the scale back out.
proof fn lemma_image_scale(c: int, w: int)
    requires
        0 <= c <= UNIT,
        0 < w <= 0x1_0000,
    ensures
        0 <= c * w,
        c * w <= 0x1_0000_0000,
        0 <= c * w / (UNIT as int) <= w,
{
    assert(0 <= c * w <= (UNIT as int) * w && (UNIT as int) * w <= 0x1_0000_0000)
        by (nonlinear_arith)
        requires
            0 <= c <= UNIT,
            0 < w <= 0x1_0000,
    ;
    vstd::arithmetic::div_mod::lemma_div_pos_is_pos(c * w, UNIT as int);
    vstd::arithmetic::div_mod::lemma_div_is_ordered(c * w, (UNIT as int) * w, UNIT as int);
    vstd::arithmetic::div_mod::lemma_div_multiples_vanish(w, UNIT as int);
}

/// The sampled byte triple starts inside the decoded buffer.
proof fn lemma_image_in_bounds(t: ImageTexture, u: int, v: int)
    requires
        image_wf(t),
    ensures
        0 <= image_index(t, u, v),
        image_index(t, u, v) + 2 < t.data@.len(),
        image_index(t, u, v) + 2 < 0x1_0000_0000_0000,
{
    let uc = crate::hittable::clamp_s(u, 0, UNIT as int);
    let vc = (UNIT as int) - crate::hittable::clamp_s(v, 0, UNIT as int);
    let i0 = uc * t.width / (UNIT as int);
    let j0 = vc * t.height / (UNIT as int);
    assert(0 <= uc * t.width && 0 <= vc * t.height) by (nonlinear_arith)
        requires
            0 <= uc,
            0 <= vc,
            0 < t.width,
            0 < t.height,
    ;
    vstd::arithmetic::div_mod::lemma_div_pos_is_pos(uc * t.width, UNIT as int);
    vstd::arithmetic::div_mod::lemma_div_pos_is_pos(vc * t.height, UNIT as int);
    let i = if i0 >= t.width {
        t.width - 1
    } else {
        i0
    };
    let j = if j0 >= t.height {
        t.height - 1
    } else {
        j0
    };
    assert(0 <= i < t.width && 0 <= j < t.height);
    assert(j * (3 * t.width) + i * 3 + 2 < 3 * t.width * t.height && 0 <= j * (3 * t.width) && 0
        <= i * 3 && 3 * t.width * t.height <= 0xC000_0000_0000) by (nonlinear_arith)
        requires
            0 <= i < t.width,
            0 <= j < t.height,
            0 < t.width <= 0x1_0000,
            0 < t.height <= 0x1_0000,
    ;
}

} // verus!
