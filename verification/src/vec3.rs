//! Three-component integer vectors.
//!
//! Components are grid coordinates (plain `i64` values). Quantities that
//! stand for real numbers in `[-1, 1]` — unit vectors, colors, texture
//! coordinates — are fixed-point values scaled by `UNIT`, and the product of
//! two such quantities is taken with `fxmul`, which rescales after
//! multiplying.

use vstd::prelude::*;
use crate::num::{div_i128, div_i64, is_isqrt, isqrt_u128, tdiv};
use crate::UNIT;

verus! {

#[derive(Clone, Copy, Debug, PartialEq, Eq, Structural)]
pub struct Vec3 {
    pub x: i64,
    pub y: i64,
    pub z: i64,
}

pub type Point3 = Vec3;

pub type Color = Vec3;

/// Every component is at most `b` in magnitude.
pub open spec fn bounded(v: Vec3, b: int) -> bool {
    -b <= v.x <= b && -b <= v.y <= b && -b <= v.z <= b
}

/// Mathematical dot product.
pub open spec fn dot_s(a: Vec3, b: Vec3) -> int {
    a.x * b.x + a.y * b.y + a.z * b.z
}

/// Mathematical squared length.
pub open spec fn sq_len_s(v: Vec3) -> int {
    dot_s(v, v)
}

/// Fixed-point product: multiply, then divide the scale back out.
pub open spec fn fxmul(a: int, b: int) -> int {
    tdiv(a * b, UNIT as int)
}

/// Floor of the square root, as a spec-level function.
pub open spec fn sqrt_floor(x: int) -> int {
    choose|r: int| is_isqrt(x, r)
}

/// The fixed-point unit vector of `w`: each component scaled by `UNIT`
/// and divided by the floor length.
pub open spec fn unit_spec(w: Vec3) -> Vec3 {
    Vec3 {
        x: tdiv(w.x * (UNIT as int), sqrt_floor(sq_len_s(w))) as i64,
        y: tdiv(w.y * (UNIT as int), sqrt_floor(sq_len_s(w))) as i64,
        z: tdiv(w.z * (UNIT as int), sqrt_floor(sq_len_s(w))) as i64,
    }
}

/// A vector that arose as the unit vector of some nonzero sample of the
/// closed unit ball.
pub open spec fn is_unit_sample(s: Vec3) -> bool {
    exists|w: Vec3|
        w != (Vec3 { x: 0i64, y: 0i64, z: 0i64 }) && bounded(w, UNIT as int) && sq_len_s(w) <= (
        UNIT as int) * (UNIT as int) && s == unit_spec(w)
}

/// A floor square root exists for every nonnegative integer.
pub proof fn lemma_sqrt_floor_exists(x: int)
    requires
        x >= 0,
    ensures
        is_isqrt(x, sqrt_floor(x)),
    decreases x,
{
    if x == 0 {
        assert(is_isqrt(0, 0));
        assert(is_isqrt(x, sqrt_floor(x)));
    } else {
        lemma_sqrt_floor_exists(x - 1);
        let w = sqrt_floor(x - 1);
        if (w + 1) * (w + 1) <= x {
            assert(is_isqrt(x, w + 1)) by (nonlinear_arith)
                requires
                    is_isqrt(x - 1, w),
                    (w + 1) * (w + 1) <= x,
            ;
            assert(is_isqrt(x, sqrt_floor(x)));
        } else {
            assert(is_isqrt(x, w));
            assert(is_isqrt(x, sqrt_floor(x)));
        }
    }
}

/// A nonzero vector's floor length is at least one, and any vector's
/// squared length is bounded by its components'.
pub proof fn lemma_len_pos(v: Vec3)
    requires
        !(v.x == 0 && v.y == 0 && v.z == 0),
    ensures
        sqrt_floor(sq_len_s(v)) >= 1,
{
    lemma_sq_len_nonneg(v);
    lemma_sqrt_floor_exists(sq_len_s(v));
    lemma_len_positive(v, sqrt_floor(sq_len_s(v)));
}

pub proof fn lemma_sq_len_bound(v: Vec3, cap: int)
    requires
        bounded(v, cap),
        cap >= 0,
    ensures
        0 <= sq_len_s(v) <= 3 * (cap * cap),
{
    lemma_sq_len_nonneg(v);
    lemma_dot_fits(v, v, cap);
}

/// The squared length of any vector is nonnegative.
pub proof fn lemma_sq_len_nonneg(v: Vec3)
    ensures
        dot_s(v, v) >= 0,
{
    lemma_sq_nonneg(v.x as int);
    lemma_sq_nonneg(v.y as int);
    lemma_sq_nonneg(v.z as int);
}

/// The floor square root exists and is unique, so `sqrt_floor` is pinned.
pub proof fn lemma_sqrt_floor(x: int, r: int)
    requires
        is_isqrt(x, r),
    ensures
        sqrt_floor(x) == r,
{
    assert(is_isqrt(x, sqrt_floor(x)));
    let w = sqrt_floor(x);
    assert(w == r) by (nonlinear_arith)
        requires
            0 <= w,
            0 <= r,
            w * w <= x < (w + 1) * (w + 1),
            r * r <= x < (r + 1) * (r + 1),
    ;
}

impl Vec3 {
    pub fn new(x: i64, y: i64, z: i64) -> (r: Vec3)
        ensures
            r == (Vec3 { x, y, z }),
    {
        Vec3 { x, y, z }
    }

    pub fn zero() -> (r: Vec3)
        ensures
            r == (Vec3 { x: 0i64, y: 0i64, z: 0i64 }),
    {
        Vec3 { x: 0, y: 0, z: 0 }
    }

    /// The fixed-point vector that stands for `(1, 1, 1)`.
    pub fn ones() -> (r: Vec3)
        ensures
            r == (Vec3 { x: UNIT, y: UNIT, z: UNIT }),
    {
        Vec3 { x: UNIT, y: UNIT, z: UNIT }
    }

    pub fn copy(v: Vec3) -> (r: Vec3)
        ensures
            r == v,
    {
        v
    }

    pub fn add(self, o: Vec3) -> (r: Vec3)
        requires
            self.x + o.x <= i64::MAX,
            self.y + o.y <= i64::MAX,
            self.z + o.z <= i64::MAX,
            self.x + o.x >= i64::MIN,
            self.y + o.y >= i64::MIN,
            self.z + o.z >= i64::MIN,
        ensures
            r.x == self.x + o.x,
            r.y == self.y + o.y,
            r.z == self.z + o.z,
    {
        Vec3 { x: self.x + o.x, y: self.y + o.y, z: self.z + o.z }
    }

    pub fn sub(self, o: Vec3) -> (r: Vec3)
        requires
            self.x - o.x <= i64::MAX,
            self.y - o.y <= i64::MAX,
            self.z - o.z <= i64::MAX,
            self.x - o.x >= i64::MIN,
            self.y - o.y >= i64::MIN,
            self.z - o.z >= i64::MIN,
        ensures
            r.x == self.x - o.x,
            r.y == self.y - o.y,
            r.z == self.z - o.z,
    {
        Vec3 { x: self.x - o.x, y: self.y - o.y, z: self.z - o.z }
    }

    pub fn neg(self) -> (r: Vec3)
        requires
            self.x != i64::MIN,
            self.y != i64::MIN,
            self.z != i64::MIN,
        ensures
            r.x == -self.x,
            r.y == -self.y,
            r.z == -self.z,
    {
        Vec3 { x: -self.x, y: -self.y, z: -self.z }
    }

    /// Scale by a plain integer factor.
    pub fn scale(self, k: i64) -> (r: Vec3)
        requires
            bounded(self, 0x1000_0000_0000),
            -0x4_0000 <= k <= 0x4_0000,
        ensures
            r.x == self.x * k,
            r.y == self.y * k,
            r.z == self.z * k,
            bounded(r, 0x4000_0000_0000_0000),
    {
        proof {
            lemma_mul_fits(self.x as int, k as int, 0x1000_0000_0000, 0x4_0000);
            lemma_mul_fits(self.y as int, k as int, 0x1000_0000_0000, 0x4_0000);
            lemma_mul_fits(self.z as int, k as int, 0x1000_0000_0000, 0x4_0000);
        }
        Vec3 { x: self.x * k, y: self.y * k, z: self.z * k }
    }

    /// Scale by a fixed-point factor `k` (so by the real number `k / UNIT`).
    pub fn scale_fx(self, k: i64) -> (r: Vec3)
        requires
            bounded(self, 0x100_0000_0000),
            -0x40_0000_0000 <= k <= 0x40_0000_0000,
        ensures
            r.x == fxmul(self.x as int, k as int),
            r.y == fxmul(self.y as int, k as int),
            r.z == fxmul(self.z as int, k as int),
            bounded(r, 0x4000_0000_0000_0000),
    {
        let x = fxmul_exec(self.x, k);
        let y = fxmul_exec(self.y, k);
        let z = fxmul_exec(self.z, k);
        Vec3 { x, y, z }
    }

    pub fn dot(a: Vec3, b: Vec3) -> (r: i64)
        requires
            bounded(a, 0x4000_0000),
            bounded(b, 0x4000_0000),
        ensures
            r == dot_s(a, b),
    {
        proof {
            lemma_dot_fits(a, b, 0x4000_0000);
        }
        let p1: i128 = (a.x as i128) * (b.x as i128);
        let p2: i128 = (a.y as i128) * (b.y as i128);
        let p3: i128 = (a.z as i128) * (b.z as i128);
        (p1 + p2 + p3) as i64
    }

    pub fn cross(a: Vec3, b: Vec3) -> (r: Vec3)
        requires
            bounded(a, 0x4000_0000),
            bounded(b, 0x4000_0000),
        ensures
            r.x == a.y * b.z - a.z * b.y,
            r.y == a.z * b.x - a.x * b.z,
            r.z == a.x * b.y - a.y * b.x,
    {
        proof {
            lemma_mul_fits(a.x as int, b.y as int, 0x4000_0000, 0x4000_0000);
            lemma_mul_fits(a.x as int, b.z as int, 0x4000_0000, 0x4000_0000);
            lemma_mul_fits(a.y as int, b.x as int, 0x4000_0000, 0x4000_0000);
            lemma_mul_fits(a.y as int, b.z as int, 0x4000_0000, 0x4000_0000);
            lemma_mul_fits(a.z as int, b.x as int, 0x4000_0000, 0x4000_0000);
            lemma_mul_fits(a.z as int, b.y as int, 0x4000_0000, 0x4000_0000);
        }
        let x: i128 = (a.y as i128) * (b.z as i128) - (a.z as i128) * (b.y as i128);
        let y: i128 = (a.z as i128) * (b.x as i128) - (a.x as i128) * (b.z as i128);
        let z: i128 = (a.x as i128) * (b.y as i128) - (a.y as i128) * (b.x as i128);
        Vec3 { x: x as i64, y: y as i64, z: z as i64 }
    }

    pub fn squared_length(self) -> (r: i64)
        requires
            bounded(self, 0x4000_0000),
        ensures
            r == sq_len_s(self),
            r >= 0,
    {
        proof {
            lemma_sq_nonneg(self.x as int);
            lemma_sq_nonneg(self.y as int);
            lemma_sq_nonneg(self.z as int);
        }
        Vec3::dot(self, self)
    }

    /// Floor of the Euclidean length.
    pub fn length(self) -> (r: i64)
        requires
            bounded(self, 0x4000_0000),
        ensures
            r == sqrt_floor(sq_len_s(self)),
            is_isqrt(sq_len_s(self), r as int),
    {
        let sq = self.squared_length();
        let r = isqrt_u128(sq as u128);
        proof {
            lemma_sqrt_floor(sq as int, r as int);
            lemma_dot_fits(self, self, 0x4000_0000);
            lemma_isqrt_le(sq as int, r as int, 0x1_0000_0000);
        }
        r as i64
    }

    /// Fixed-point unit vector: each component becomes `c * UNIT / |self|`.
    pub fn unit(self) -> (r: Vec3)
        requires
            bounded(self, 0x4000_0000),
            self != (Vec3 { x: 0i64, y: 0i64, z: 0i64 }),
        ensures
            r.x == tdiv(self.x * UNIT, sqrt_floor(sq_len_s(self))),
            r.y == tdiv(self.y * UNIT, sqrt_floor(sq_len_s(self))),
            r.z == tdiv(self.z * UNIT, sqrt_floor(sq_len_s(self))),
            r == unit_spec(self),
            bounded(r, UNIT as int),
    {
        let len = self.length();
        proof {
            lemma_sq_nonneg(self.x as int);
            lemma_sq_nonneg(self.y as int);
            lemma_sq_nonneg(self.z as int);
            lemma_len_positive(self, len as int);
            lemma_dot_fits(self, self, 0x4000_0000);
            lemma_isqrt_le(sq_len_s(self), len as int, 0x1_0000_0000);
            lemma_comp_le_len(self.x as int, sq_len_s(self), len as int);
            lemma_comp_le_len(self.y as int, sq_len_s(self), len as int);
            lemma_comp_le_len(self.z as int, sq_len_s(self), len as int);
        }
        let x = unit_comp(self.x, len);
        let y = unit_comp(self.y, len);
        let z = unit_comp(self.z, len);
        Vec3 { x, y, z }
    }

    /// On the integer grid, "negligibly short" means exactly zero.
    pub fn near_zero(self) -> (r: bool)
        ensures
            r == (self.x == 0 && self.y == 0 && self.z == 0),
    {
        self.x == 0 && self.y == 0 && self.z == 0
    }

    /// Mirror reflection of `v` about the unit-scale normal `n`:
    /// `v - 2 (v.n) n`, with the dot product rescaled to fixed point.
    pub fn reflect(v: Vec3, n: Vec3) -> (r: Vec3)
        requires
            bounded(v, 0x2_0000),
            bounded(n, 0x2_0000),
        ensures
            r.x == v.x - fxmul(n.x as int, 2 * tdiv(dot_s(v, n), UNIT as int)),
            r.y == v.y - fxmul(n.y as int, 2 * tdiv(dot_s(v, n), UNIT as int)),
            r.z == v.z - fxmul(n.z as int, 2 * tdiv(dot_s(v, n), UNIT as int)),
            bounded(r, 0x40_0000),
    {
        let d = Vec3::dot(v, n);
        proof {
            lemma_dot_fits(v, n, 0x2_0000);
            crate::num::lemma_tdiv_ordered(d as int, 0xC_0000_0000, UNIT as int);
            crate::num::lemma_tdiv_ordered(-0xC_0000_0000, d as int, UNIT as int);
        }
        let k: i64 = 2 * div_i64(d, UNIT);
        let s = n.scale_fx(k);
        proof {
            lemma_fxmul_bound(n.x as int, k as int, 0x2_0000, 0x18_0000);
            lemma_fxmul_bound(n.y as int, k as int, 0x2_0000, 0x18_0000);
            lemma_fxmul_bound(n.z as int, k as int, 0x2_0000, 0x18_0000);
        }
        v.sub(s)
    }

    /// Snell refraction of the unit-scale direction `uv` at the unit-scale
    /// normal `n`, with fixed-point index ratio `eta`.
    pub fn refract(uv: Vec3, n: Vec3, eta: i64) -> (r: Vec3)
        requires
            bounded(uv, 0x2_0000),
            bounded(n, 0x2_0000),
            0 <= eta <= 0x10_0000,
        ensures
            r.x == refract_x(uv, n, eta as int),
            r.y == refract_y(uv, n, eta as int),
            r.z == refract_z(uv, n, eta as int),
            bounded(r, 0x400_0000),
    {
        let cos = Vec3::cos_theta(uv, n);
        let nc = n.scale_fx(cos);
        proof {
            lemma_fxmul_bound(n.x as int, cos as int, 0x2_0000, 0xC_0000);
            lemma_fxmul_bound(n.y as int, cos as int, 0x2_0000, 0xC_0000);
            lemma_fxmul_bound(n.z as int, cos as int, 0x2_0000, 0xC_0000);
        }
        let base = uv.add(nc);
        let perp = base.scale_fx(eta);
        proof {
            lemma_fxmul_bound(base.x as int, eta as int, 0x20_0000, 0x10_0000);
            lemma_fxmul_bound(base.y as int, eta as int, 0x20_0000, 0x10_0000);
            lemma_fxmul_bound(base.z as int, eta as int, 0x20_0000, 0x10_0000);
        }
        let sq = perp.squared_length();
        let d: i64 = if sq < UNIT * UNIT {
            UNIT * UNIT - sq
        } else {
            0
        };
        let s = isqrt_u128(d as u128);
        proof {
            lemma_sqrt_floor(d as int, s as int);
            lemma_isqrt_le(d as int, s as int, 65536);
        }
        let par = n.scale_fx(-(s as i64));
        proof {
            lemma_fxmul_bound(n.x as int, -(s as int), 0x2_0000, 65536);
            lemma_fxmul_bound(n.y as int, -(s as int), 0x2_0000, 65536);
            lemma_fxmul_bound(n.z as int, -(s as int), 0x2_0000, 65536);
        }
        perp.add(par)
    }

    /// Fixed-point cosine of the angle between `-uv` and `n`, capped at one.
    pub fn cos_theta(uv: Vec3, n: Vec3) -> (r: i64)
        requires
            bounded(uv, 0x2_0000),
            bounded(n, 0x2_0000),
        ensures
            r == cos_theta_s(uv, n),
            -0xC_0000 <= r <= 65536,
    {
        let d = Vec3::dot(uv, n);
        proof {
            lemma_dot_fits(uv, n, 0x2_0000);
            crate::num::lemma_tdiv_bound(-(d as int), UNIT as int);
            crate::num::lemma_tdiv_ordered(-(d as int), 0xC_0000_0000, UNIT as int);
            crate::num::lemma_tdiv_ordered(-0xC_0000_0000, -(d as int), UNIT as int);
        }
        let c = div_i64(-d, UNIT);
        if c > UNIT {
            UNIT
        } else {
            c
        }
    }
}

/// Fixed-point cosine between `-uv` and `n`, capped at one.
pub open spec fn cos_theta_s(uv: Vec3, n: Vec3) -> int {
    let c = tdiv(-dot_s(uv, n), UNIT as int);
    if c > UNIT as int {
        UNIT as int
    } else {
        c
    }
}

/// The component of the refracted direction perpendicular to the normal.
pub open spec fn refract_perp(uc: int, nc: int, uv: Vec3, n: Vec3, eta: int) -> int {
    fxmul(uc + fxmul(nc, cos_theta_s(uv, n)), eta)
}

/// The discriminant whose square root scales the parallel component.
pub open spec fn refract_d(uv: Vec3, n: Vec3, eta: int) -> int {
    let px = refract_perp(uv.x as int, n.x as int, uv, n, eta);
    let py = refract_perp(uv.y as int, n.y as int, uv, n, eta);
    let pz = refract_perp(uv.z as int, n.z as int, uv, n, eta);
    let sq = px * px + py * py + pz * pz;
    if sq < (UNIT as int) * (UNIT as int) {
        (UNIT as int) * (UNIT as int) - sq
    } else {
        0
    }
}

pub open spec fn refract_x(uv: Vec3, n: Vec3, eta: int) -> int {
    refract_perp(uv.x as int, n.x as int, uv, n, eta) + fxmul(
        n.x as int,
        -sqrt_floor(refract_d(uv, n, eta)),
    )
}

pub open spec fn refract_y(uv: Vec3, n: Vec3, eta: int) -> int {
    refract_perp(uv.y as int, n.y as int, uv, n, eta) + fxmul(
        n.y as int,
        -sqrt_floor(refract_d(uv, n, eta)),
    )
}

pub open spec fn refract_z(uv: Vec3, n: Vec3, eta: int) -> int {
    refract_perp(uv.z as int, n.z as int, uv, n, eta) + fxmul(
        n.z as int,
        -sqrt_floor(refract_d(uv, n, eta)),
    )
}

/// Fixed-point product of two `i64` values.
pub fn fxmul_exec(a: i64, b: i64) -> (r: i64)
    requires
        -0x100_0000_0000 <= a <= 0x100_0000_0000,
        -0x40_0000_0000 <= b <= 0x40_0000_0000,
    ensures
        r == fxmul(a as int, b as int),
        -0x4000_0000_0000_0000 <= r <= 0x4000_0000_0000_0000,
{
    proof {
        lemma_mul_fits(a as int, b as int, 0x100_0000_0000, 0x40_0000_0000);
    }
    let p: i128 = (a as i128) * (b as i128);
    let q = div_i128(p, UNIT as i128);
    proof {
        crate::num::lemma_tdiv_ordered(p as int, 0x4000_0000_0000_0000_0000, UNIT as int);
        crate::num::lemma_tdiv_ordered(-0x4000_0000_0000_0000_0000, p as int, UNIT as int);
        vstd::arithmetic::div_mod::lemma_div_multiples_vanish(0x4000_0000_0000_0000, 65536);
        assert(tdiv(0x4000_0000_0000_0000_0000, UNIT as int) == 0x4000_0000_0000_0000);
        assert(tdiv(-0x4000_0000_0000_0000_0000, UNIT as int) == -0x4000_0000_0000_0000);
    }
    q as i64
}

/// A fixed-point product of values bounded by `ab` and `bb` is bounded by
/// their product divided by the scale.
pub proof fn lemma_fxmul_bound(a: int, b: int, ab: int, bb: int)
    requires
        -ab <= a <= ab,
        -bb <= b <= bb,
        0 <= ab,
        0 <= bb,
    ensures
        -tdiv(ab * bb, UNIT as int) <= fxmul(a, b) <= tdiv(ab * bb, UNIT as int),
{
    lemma_mul_fits(a, b, ab, bb);
    let prod = ab * bb;
    assert(prod >= 0 && (-ab) * bb == -prod) by (nonlinear_arith)
        requires
            ab >= 0,
            bb >= 0,
            prod == ab * bb,
    ;
    crate::num::lemma_tdiv_ordered(a * b, prod, UNIT as int);
    crate::num::lemma_tdiv_ordered(-prod, a * b, UNIT as int);
}

pub proof fn lemma_isqrt_le(x: int, r: int, cap: int)
    requires
        is_isqrt(x, r),
        0 <= x <= cap * cap,
        0 <= cap,
    ensures
        r <= cap,
{
    assert(r <= cap) by (nonlinear_arith)
        requires
            0 <= r,
            0 <= cap,
            r * r <= cap * cap,
    ;
}

/// One component of a unit vector.
pub fn unit_comp(c: i64, len: i64) -> (r: i64)
    requires
        len > 0,
        -len <= c <= len,
        len <= 0x1_0000_0000_0000,
    ensures
        r == tdiv(c * UNIT, len as int),
        -UNIT <= r <= UNIT,
{
    proof {
        lemma_mul_fits(c as int, UNIT as int, len as int, UNIT as int);
        lemma_mul_mono(c as int, len as int, UNIT as int);
        crate::num::lemma_tdiv_ordered(c * UNIT, len * UNIT, len as int);
        crate::num::lemma_tdiv_ordered(-(len as int) * UNIT, c * UNIT, len as int);
        vstd::arithmetic::div_mod::lemma_div_multiples_vanish(UNIT as int, len as int);
        assert(tdiv(len * UNIT, len as int) == UNIT);
        assert(tdiv(-(len as int) * UNIT, len as int) == -UNIT);
    }
    let p: i128 = (c as i128) * (UNIT as i128);
    let q = div_i128(p, len as i128);
    q as i64
}

proof fn lemma_sq_nonneg(a: int)
    ensures
        a * a >= 0,
{
    assert(a * a >= 0) by (nonlinear_arith);
}

pub proof fn lemma_mul_fits(a: int, b: int, ab: int, bb: int)
    requires
        -ab <= a <= ab,
        -bb <= b <= bb,
        0 <= ab,
        0 <= bb,
    ensures
        -(ab * bb) <= a * b <= ab * bb,
{
    assert(-(ab * bb) <= a * b <= ab * bb) by (nonlinear_arith)
        requires
            -ab <= a <= ab,
            -bb <= b <= bb,
            0 <= ab,
            0 <= bb,
    ;
}

proof fn lemma_mul_mono(a: int, cap: int, k: int)
    requires
        -cap <= a <= cap,
        k >= 0,
    ensures
        -(cap * k) <= a * k <= cap * k,
{
    assert(-(cap * k) <= a * k <= cap * k) by (nonlinear_arith)
        requires
            -cap <= a <= cap,
            k >= 0,
    ;
}

proof fn lemma_dot_fits(a: Vec3, b: Vec3, cap: int)
    requires
        bounded(a, cap),
        bounded(b, cap),
        cap >= 0,
    ensures
        -3 * (cap * cap) <= dot_s(a, b) <= 3 * (cap * cap),
        -(cap * cap) <= a.x * b.x <= cap * cap,
        -(cap * cap) <= a.y * b.y <= cap * cap,
        -(cap * cap) <= a.z * b.z <= cap * cap,
{
    lemma_mul_fits(a.x as int, b.x as int, cap, cap);
    lemma_mul_fits(a.y as int, b.y as int, cap, cap);
    lemma_mul_fits(a.z as int, b.z as int, cap, cap);
    lemma_mul_fits(a.y as int, b.z as int, cap, cap);
    lemma_mul_fits(a.z as int, b.y as int, cap, cap);
}

proof fn lemma_len_positive(v: Vec3, len: int)
    requires
        is_isqrt(sq_len_s(v), len),
        v != (Vec3 { x: 0i64, y: 0i64, z: 0i64 }),
    ensures
        len > 0,
{
    lemma_sq_nonneg(v.x as int);
    lemma_sq_nonneg(v.y as int);
    lemma_sq_nonneg(v.z as int);
    if v.x != 0 {
        assert(v.x * v.x >= 1) by (nonlinear_arith)
            requires
                v.x != 0,
        ;
    } else if v.y != 0 {
        assert(v.y * v.y >= 1) by (nonlinear_arith)
            requires
                v.y != 0,
        ;
    } else {
        assert(v.z * v.z >= 1) by (nonlinear_arith)
            requires
                v.z != 0,
        ;
    }
    assert(sq_len_s(v) >= 1);
    if len == 0 {
        assert((len + 1) * (len + 1) == 1);
    }
}

proof fn lemma_comp_le_len(c: int, sq: int, len: int)
    requires
        is_isqrt(sq, len),
        c * c <= sq,
    ensures
        -len <= c <= len,
{
    assert(-len <= c <= len) by (nonlinear_arith)
        requires
            0 <= len,
            c * c <= sq,
            sq < (len + 1) * (len + 1),
    ;
}

impl Vec3 {
/// A random vector with each fixed-point component drawn from `[lo, hi)`.
pub fn random_range(lo: i64, hi: i64) -> (r: Vec3)
    requires
        -0x1_0000 <= lo < hi <= 0x1_0001,
    ensures
        bounded(r, 0x1_0001),
{
    let x = crate::rtweekend::random_double(lo, hi);
    let y = crate::rtweekend::random_double(lo, hi);
    let z = crate::rtweekend::random_double(lo, hi);
    Vec3 { x, y, z }
}

/// Rejection-sample a point of the closed unit ball; after a bounded
/// number of misses fall back to a point on the axis, which also lies in
/// the ball.
pub fn random_in_unit_sphere() -> (r: Vec3)
    ensures
        bounded(r, UNIT as int),
        sq_len_s(r) <= (UNIT as int) * (UNIT as int),
{
    let mut k: u32 = 0;
    while k < 64
        invariant
            k <= 64,
        decreases 64 - k,
    {
        let v = Vec3::random_range(-UNIT, UNIT + 1);
        proof {
            lemma_dot_fits(v, v, 0x1_0001);
        }
        let sq = Vec3::dot(v, v);
        if sq <= UNIT * UNIT && -UNIT <= v.x && v.x <= UNIT && -UNIT <= v.y && v.y <= UNIT
            && -UNIT <= v.z && v.z <= UNIT {
            return v;
        }
        k = k + 1;
    }
    proof {
        assert((UNIT as int) * (UNIT as int) == 0x1_0000_0000) by (nonlinear_arith);
    }
    Vec3 { x: UNIT, y: 0, z: 0 }
}

/// A random direction of unit length (up to grid rounding): always the
/// unit vector of some nonzero sample of the closed unit ball.
pub fn random_unit_vector() -> (r: Vec3)
    ensures
        bounded(r, UNIT as int),
        is_unit_sample(r),
{
    let v = Vec3::random_in_unit_sphere();
    if v.x == 0 && v.y == 0 && v.z == 0 {
        let ghost w = Vec3 { x: UNIT, y: 0i64, z: 0i64 };
        proof {
            assert(0x1_0000 * 0x1_0000 == 0x1_0000_0000) by (nonlinear_arith);
            assert(0x1_0001 * 0x1_0001 == 0x1_0002_0001) by (nonlinear_arith);
            assert(UNIT * 0 == 0 && (0int) * 0 == 0) by (nonlinear_arith);
            assert(sq_len_s(w) == 0x1_0000_0000);
            assert(is_isqrt(0x1_0000_0000, 0x1_0000));
            lemma_sqrt_floor(0x1_0000_0000, 0x1_0000);
            vstd::arithmetic::div_mod::lemma_div_multiples_vanish(UNIT as int, UNIT as int);
            assert(tdiv(UNIT * UNIT, UNIT as int) == UNIT);
            vstd::arithmetic::div_mod::lemma_div_of0(UNIT as int);
            assert(tdiv(0 * UNIT, UNIT as int) == 0);
            assert(unit_spec(w) == (Vec3 { x: UNIT, y: 0i64, z: 0i64 }));
            assert(is_unit_sample(Vec3 { x: UNIT, y: 0i64, z: 0i64 }));
        }
        Vec3 { x: UNIT, y: 0, z: 0 }
    } else {
        let r = v.unit();
        proof {
            assert(is_unit_sample(r));
        }
        r
    }
}

/// Rejection-sample a point of the closed unit disk in the x-y plane.
pub fn random_in_unit_disk() -> (r: Vec3)
    ensures
        bounded(r, UNIT as int),
        r.z == 0,
{
    let mut k: u32 = 0;
    while k < 64
        invariant
            k <= 64,
        decreases 64 - k,
    {
        let x = crate::rtweekend::random_double(-UNIT, UNIT + 1);
        let y = crate::rtweekend::random_double(-UNIT, UNIT + 1);
        let v = Vec3 { x, y, z: 0 };
        proof {
            lemma_dot_fits(v, v, 0x1_0001);
        }
        let sq = Vec3::dot(v, v);
        if sq <= UNIT * UNIT && -UNIT <= x && x <= UNIT && -UNIT <= y && y <= UNIT {
            return v;
        }
        k = k + 1;
    }
    Vec3 { x: 0, y: 0, z: 0 }
}

}

} // verus!
