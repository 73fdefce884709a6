//! Turning an accumulated linear-light color into an 8-bit pixel.

use vstd::prelude::*;
use crate::num::{is_isqrt, tdiv};
use crate::rtweekend::clamp;
use crate::vec3::{sqrt_floor, Color};
use crate::UNIT;

verus! {

/// One channel: average over the samples, gamma-correct with a square
/// root, clamp to just under one, and widen to `0..=255`.
pub open spec fn quantize_channel(c: int, samples: int) -> int {
    let cg = if c == i64::MIN {
        c + 1
    } else {
        c
    };
    let scaled = tdiv(cg, samples);
    let lin = if scaled < 0 {
        0
    } else if scaled > UNIT as int {
        UNIT as int
    } else {
        scaled
    };
    let g = sqrt_floor(lin * (UNIT as int));
    let gc = if g > 65470 {
        65470
    } else {
        g
    };
    gc * 256 / (UNIT as int)
}

impl Color {
    /// The 8-bit pixel this accumulated color prints as, given how many
    /// samples were averaged into it.
    pub fn wrt_color(pixel_color: &Color, samples_per_pixel: i64) -> (rgb: (u8, u8, u8))
        requires
            samples_per_pixel >= 1,
        ensures
            rgb.0 == quantize_channel(pixel_color.x as int, samples_per_pixel as int),
            rgb.1 == quantize_channel(pixel_color.y as int, samples_per_pixel as int),
            rgb.2 == quantize_channel(pixel_color.z as int, samples_per_pixel as int),
    {
        let r = quantize_exec(pixel_color.x, samples_per_pixel);
        let g = quantize_exec(pixel_color.y, samples_per_pixel);
        let b = quantize_exec(pixel_color.z, samples_per_pixel);
        (r, g, b)
    }
}

fn quantize_exec(c: i64, samples: i64) -> (r: u8)
    requires
        samples >= 1,
    ensures
        r == quantize_channel(c as int, samples as int),
{
    let c0 = if c == i64::MIN {
        i64::MIN + 1
    } else {
        c
    };
    let scaled = crate::num::div_i64(c0, samples);
    let lin = clamp(scaled, 0, UNIT);
    proof {
        assert(0x1_0000 * 0x1_0000 == 0x1_0000_0000) by (nonlinear_arith);
        assert(0 <= (lin as int) * (UNIT as int) <= 0x1_0000_0000) by (nonlinear_arith)
            requires
                0 <= lin <= 0x1_0000,
        ;
    }
    let gw = crate::num::isqrt_u128((lin as u128) * (UNIT as u128));
    proof {
        crate::vec3::lemma_sqrt_floor((lin as int) * (UNIT as int), gw as int);
        crate::vec3::lemma_isqrt_le((lin as int) * (UNIT as int), gw as int, 0x1_0000);
    }
    let g: i64 = gw as i64;
    let gc: i64 = if g > 65470 {
        65470
    } else {
        g
    };
    proof {
        vstd::arithmetic::div_mod::lemma_div_pos_is_pos(gc * 256, UNIT as int);
        vstd::arithmetic::div_mod::lemma_div_is_ordered(gc * 256, 16760320, UNIT as int);
        assert(gc * 256 <= 65470 * 256 && 0 <= gc * 256) by (nonlinear_arith)
            requires
                0 <= gc <= 65470,
        ;
    }
    let q: u64 = ((gc as u64) * 256) / (UNIT as u64);
    q as u8
}

} // verus!
