//! A constant-density participating medium bounded by another shape.
//!
//! The boundary shape only delimits the volume; a ray entering it scatters
//! after a random free-flight distance, or passes through if that distance
//! outruns the chord inside the boundary. The random draw feeds a pure,
//! fully specified decision function, so everything downstream of the draw
//! is verified for every possible outcome.

use vstd::prelude::*;
use crate::hittable::Hittable;
use crate::num::{div_i64, tdiv};
use crate::rtweekend::fmax;
use crate::rtweekend::fmin;
use crate::vec3::fxmul;
use crate::UNIT;

verus! {

pub struct ConstantMedium {
    pub boundary: Box<Hittable>,
    pub phase_function: usize,
    pub inv_density: i64,
}

impl ConstantMedium {
    /// `d` is the fixed-point density; the stored value is the fixed-point
    /// reciprocal `UNIT^2 / d`.
    pub fn new(b: Box<Hittable>, d: i64, a: usize) -> (r: ConstantMedium)
        requires
            1 <= d,
        ensures
            r.boundary == b,
            r.phase_function == a,
            r.inv_density == tdiv(0x1_0000_0000, d as int),
            0 <= r.inv_density <= 0x1_0000_0000,
    {
        proof {
            crate::num::lemma_tdiv_bound(0x1_0000_0000, d as int);
            crate::num::lemma_tdiv_ordered(0, 0x1_0000_0000, d as int);
            if d > 1 {
                crate::num::lemma_tdiv_ordered(0x1_0000_0000, 0x1_0000_0000 * d, d as int);
                assert(0x1_0000_0000 <= 0x1_0000_0000 * d) by (nonlinear_arith)
                    requires
                        d >= 1,
                ;
                vstd::arithmetic::div_mod::lemma_div_multiples_vanish(0x1_0000_0000, d as int);
                assert(tdiv(0x1_0000_0000 * d, d as int) == 0x1_0000_0000);
            }
        }
        let inv = div_i64(0x1_0000_0000, d);
        ConstantMedium { boundary: b, phase_function: a, inv_density: inv }
    }
}

/// Fixed-point natural logarithm of two.
pub const LN2_FX: i64 = 45426;

/// Fixed-point `-log2(u / UNIT)` for a draw `u` in `[1, UNIT]`: one whole
/// unit per doubling needed to raise `u` to `UNIT`, linearly interpolated
/// inside the final octave. Exact at every power of two, monotonically
/// falling in `u`, and zero at a draw of `UNIT`.
pub open spec fn neg_log2_fx(u: int) -> int
    decreases 0x2_0000 - u,
{
    if u >= 0x1_0000 {
        0x1_0000 - u
    } else if u < 1 {
        0
    } else {
        0x1_0000 + neg_log2_fx(u * 2)
    }
}

/// The sampled free-flight distance: the reciprocal density scaled by
/// `ln 2` times the fixed-point binary logarithm — the grid's form of
/// `-ln(u / UNIT) / density`. A draw of `UNIT` travels distance zero; a
/// draw of one travels the farthest the sampler can produce.
pub open spec fn flight_distance(inv_density: int, u: int) -> int {
    fxmul(inv_density, fxmul(LN2_FX as int, neg_log2_fx(u)))
}

/// What the medium decides once the boundary chord `[t1, t2]` and the draw
/// `u` are known: clamp the chord to the query interval, convert the
/// sampled distance to a ray parameter, and scatter only if it lands
/// inside the chord.
pub open spec fn medium_decide(
    t1: int,
    t2: int,
    t_min: int,
    t_max: int,
    inv_density: int,
    ray_len: int,
    u: int,
) -> Option<int> {
    let lo0 = if t1 >= t_min {
        t1
    } else {
        t_min
    };
    let hi = if t2 <= t_max {
        t2
    } else {
        t_max
    };
    if lo0 >= hi {
        None
    } else {
        let lo = if lo0 < 0 {
            0
        } else {
            lo0
        };
        let inside = (hi - lo) * ray_len;
        let dist = flight_distance(inv_density, u);
        if dist > inside {
            None
        } else {
            Some(lo + tdiv(dist, ray_len))
        }
    }
}

/// Exec mirror of `neg_log2_fx`.
pub fn neg_log2_fx_exec(u: i64) -> (r: i64)
    requires
        1 <= u <= 0x1_0000,
    ensures
        r == neg_log2_fx(u as int),
        0 <= r <= 0x10_0000,
{
    let mut w: i64 = u;
    let mut acc: i64 = 0;
    proof {
        lemma_neg_log2_bound(u as int);
    }
    while w < 0x1_0000
        invariant
            1 <= w <= 0x2_0000,
            0 <= acc <= 0x11_0000,
            neg_log2_fx(u as int) == acc + neg_log2_fx(w as int),
            0 <= neg_log2_fx(u as int) <= 0x10_0000,
        decreases 0x2_0000 - w,
    {
        proof {
            lemma_neg_log2_bound(w as int);
        }
        w = w * 2;
        acc = acc + 0x1_0000;
        proof {
            lemma_neg_log2_bound(w as int);
            assert(acc == neg_log2_fx(u as int) - neg_log2_fx(w as int));
            assert(acc <= 0x11_0000);
        }
    }
    proof {
        assert(neg_log2_fx(w as int) == 0x1_0000 - w);
    }
    acc + (0x1_0000 - w)
}

proof fn lemma_neg_log2_bound(u: int)
    requires
        u >= 1,
    ensures
        u <= 0x1_0000 ==> 0 <= neg_log2_fx(u) <= 0x10_0000,
        u <= 0x2_0000 ==> -0x1_0000 <= neg_log2_fx(u) <= 0x10_0000,
        u >= 0x1_0000 ==> neg_log2_fx(u) == 0x1_0000 - u,
        u < 0x1_0000 ==> neg_log2_fx(u) == 0x1_0000 + neg_log2_fx(u * 2),
    decreases 0x2_0000 - u,
{
    if u < 0x1_0000 {
        lemma_neg_log2_bound(u * 2);
        lemma_neg_log2_antitone(u, 0x1_0000);
        lemma_neg_log2_antitone(1, u);
        assert(neg_log2_fx(0x1_0000) == 0);
        assert(neg_log2_fx(1) == 0x10_0000) by {
            reveal_with_fuel(neg_log2_fx, 18);
        }
    }
}

/// A larger draw never flies farther.
proof fn lemma_neg_log2_antitone(u1: int, u2: int)
    requires
        1 <= u1 <= u2,
        u2 <= 0x2_0000,
    ensures
        neg_log2_fx(u1) >= neg_log2_fx(u2),
    decreases 0x2_0000 - u1,
{
    if u1 >= 0x1_0000 {
    } else if u2 >= 0x1_0000 {
        lemma_neg_log2_antitone(u1 * 2, 0x2_0000);
        assert(neg_log2_fx(u1) == 0x1_0000 + neg_log2_fx(u1 * 2));
        assert(neg_log2_fx(0x2_0000) == -0x1_0000);
        assert(neg_log2_fx(u2) <= 0);
    } else {
        lemma_neg_log2_antitone(u1 * 2, u2 * 2);
    }
}

/// Exec mirror of `medium_decide`.
pub fn medium_decide_exec(
    t1: i64,
    t2: i64,
    t_min: i64,
    t_max: i64,
    inv_density: i64,
    ray_len: i64,
    u: i64,
) -> (r: Option<i64>)
    requires
        -0x4800_0000 <= t1 <= 0x4800_0000,
        -0x4800_0000 <= t2 <= 0x4800_0000,
        -0x4800_0000 <= t_min <= 0x4800_0000,
        -0x4800_0000 <= t_max <= 0x4800_0000,
        0 <= inv_density <= 0x1_0000_0000,
        1 <= ray_len <= 0x1000_0000,
        1 <= u <= 0x1_0000,
    ensures
        match r {
            Some(t) => {
                &&& medium_decide(
                    t1 as int,
                    t2 as int,
                    t_min as int,
                    t_max as int,
                    inv_density as int,
                    ray_len as int,
                    u as int,
                ) == Some(t as int)
                &&& t_min <= t <= t_max
                &&& -0x4800_0000 <= t <= 0x4800_0000
            },
            None => medium_decide(
                t1 as int,
                t2 as int,
                t_min as int,
                t_max as int,
                inv_density as int,
                ray_len as int,
                u as int,
            ) is None,
        },
{
    let lo0 = fmax(t1, t_min);
    let hi = fmin(t2, t_max);
    if lo0 >= hi {
        return None;
    }
    let lo = fmax(lo0, 0);
    assert(lo == if lo0 < 0 { 0int } else { lo0 as int });
    proof {
        crate::vec3::lemma_mul_fits(hi - lo, ray_len as int, 0x9000_0000, 0x1000_0000);
    }
    let inside: i128 = ((hi - lo) as i128) * (ray_len as i128);
    let lg = neg_log2_fx_exec(u);
    proof {
        crate::num::lemma_tdiv_bound((LN2_FX as int) * (lg as int), UNIT as int);
        assert(0 <= (LN2_FX as int) * (lg as int)) by (nonlinear_arith)
            requires
                lg >= 0,
        ;
    }
    let scaled = crate::vec3::fxmul_exec(LN2_FX, lg);
    let dist = crate::vec3::fxmul_exec(inv_density, scaled);
    proof {
        crate::num::lemma_tdiv_bound((inv_density as int) * (scaled as int), UNIT as int);
        assert(0 <= (inv_density as int) * (scaled as int)) by (nonlinear_arith)
            requires
                inv_density >= 0,
                scaled >= 0,
        ;
        crate::num::lemma_tdiv_bound(dist as int, ray_len as int);
    }
    if (dist as i128) > inside {
        return None;
    }
    proof {
        assert(hi - lo >= 0) by (nonlinear_arith)
            requires
                (hi - lo) * (ray_len as int) >= 0,
                ray_len >= 1,
        ;
        assert((hi - lo) * (ray_len as int) == (ray_len as int) * (hi - lo)) by (nonlinear_arith);
        crate::num::lemma_tdiv_ordered(dist as int, (hi - lo) * ray_len, ray_len as int);
        vstd::arithmetic::div_mod::lemma_div_multiples_vanish(hi - lo, ray_len as int);
        assert(tdiv((hi - lo) * ray_len, ray_len as int) == hi - lo);
    }
    let step_t = div_i64(dist, ray_len);
    Some(lo + step_t)
}

} // verus!
