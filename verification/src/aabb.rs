//! Axis-aligned bounding boxes and the slab intersection test.
//!
//! The ray parameter where the ray crosses a slab face is the rational
//! `(face - origin) / direction`; the test keeps the running entry and exit
//! parameters as exact fractions (numerator over positive denominator) and
//! compares them by cross-multiplying, so it decides emptiness of the real
//! interval exactly, with no division and no rounding.

use vstd::prelude::*;
use crate::ray::Ray;
use crate::vec3::{bounded, Point3, Vec3};

verus! {

#[derive(Clone, Debug, PartialEq, Eq, Structural, Copy)]
pub struct AABB {
    pub minimum: Point3,
    pub maximum: Point3,
}

/// `a/b < c/d` for positive denominators, by cross-multiplying.
pub open spec fn fr_lt(an: int, ad: int, bn: int, bd: int) -> bool {
    an * bd < bn * ad
}

/// A zero-direction axis whose origin lies outside the slab: no `t` works.
pub open spec fn axis_dead(o: int, d: int, lo: int, hi: int) -> bool {
    d == 0 && !(lo <= o && o <= hi)
}

/// Numerator of the slab entry parameter on one axis (`d != 0`).
pub open spec fn entry_num(o: int, d: int, lo: int, hi: int) -> int {
    if d > 0 {
        lo - o
    } else {
        o - hi
    }
}

/// Numerator of the slab exit parameter on one axis (`d != 0`).
pub open spec fn exit_num(o: int, d: int, lo: int, hi: int) -> int {
    if d > 0 {
        hi - o
    } else {
        o - lo
    }
}

/// Positive denominator shared by both parameters on one axis.
pub open spec fn axis_den(d: int) -> int {
    if d > 0 {
        d
    } else {
        -d
    }
}

/// Raise the running lower bound to this axis's entry parameter.
pub open spec fn step_min(o: int, d: int, lo: int, hi: int, mn: (int, int)) -> (int, int) {
    if d == 0 {
        mn
    } else {
        if fr_lt(mn.0, mn.1, entry_num(o, d, lo, hi), axis_den(d)) {
            (entry_num(o, d, lo, hi), axis_den(d))
        } else {
            mn
        }
    }
}

/// Lower the running upper bound to this axis's exit parameter.
pub open spec fn step_max(o: int, d: int, lo: int, hi: int, mx: (int, int)) -> (int, int) {
    if d == 0 {
        mx
    } else {
        if fr_lt(exit_num(o, d, lo, hi), axis_den(d), mx.0, mx.1) {
            (exit_num(o, d, lo, hi), axis_den(d))
        } else {
            mx
        }
    }
}

/// The slab test as the implementation runs it: clip axis by axis, and stop
/// as soon as the interval is empty.
pub open spec fn slab_hit(bx: AABB, r: Ray, tmin: int, tmax: int) -> bool {
    let o = r.orig;
    let d = r.dir;
    let lo = bx.minimum;
    let hi = bx.maximum;
    if axis_dead(o.x as int, d.x as int, lo.x as int, hi.x as int) {
        false
    } else {
        let mn1 = step_min(o.x as int, d.x as int, lo.x as int, hi.x as int, (tmin, 1));
        let mx1 = step_max(o.x as int, d.x as int, lo.x as int, hi.x as int, (tmax, 1));
        if !fr_lt(mn1.0, mn1.1, mx1.0, mx1.1) {
            false
        } else if axis_dead(o.y as int, d.y as int, lo.y as int, hi.y as int) {
            false
        } else {
            let mn2 = step_min(o.y as int, d.y as int, lo.y as int, hi.y as int, mn1);
            let mx2 = step_max(o.y as int, d.y as int, lo.y as int, hi.y as int, mx1);
            if !fr_lt(mn2.0, mn2.1, mx2.0, mx2.1) {
                false
            } else if axis_dead(o.z as int, d.z as int, lo.z as int, hi.z as int) {
                false
            } else {
                let mn3 = step_min(o.z as int, d.z as int, lo.z as int, hi.z as int, mn2);
                let mx3 = step_max(o.z as int, d.z as int, lo.z as int, hi.z as int, mx2);
                fr_lt(mn3.0, mn3.1, mx3.0, mx3.1)
            }
        }
    }
}

/// The brute-force form of the same test: intersect all three axis
/// intervals first, then ask once whether anything is left.
pub open spec fn slab_brute(bx: AABB, r: Ray, tmin: int, tmax: int) -> bool {
    let o = r.orig;
    let d = r.dir;
    let lo = bx.minimum;
    let hi = bx.maximum;
    let mn1 = step_min(o.x as int, d.x as int, lo.x as int, hi.x as int, (tmin, 1));
    let mx1 = step_max(o.x as int, d.x as int, lo.x as int, hi.x as int, (tmax, 1));
    let mn2 = step_min(o.y as int, d.y as int, lo.y as int, hi.y as int, mn1);
    let mx2 = step_max(o.y as int, d.y as int, lo.y as int, hi.y as int, mx1);
    let mn3 = step_min(o.z as int, d.z as int, lo.z as int, hi.z as int, mn2);
    let mx3 = step_max(o.z as int, d.z as int, lo.z as int, hi.z as int, mx2);
    !axis_dead(o.x as int, d.x as int, lo.x as int, hi.x as int) && !axis_dead(
        o.y as int,
        d.y as int,
        lo.y as int,
        hi.y as int,
    ) && !axis_dead(o.z as int, d.z as int, lo.z as int, hi.z as int) && fr_lt(
        mn3.0,
        mn3.1,
        mx3.0,
        mx3.1,
    )
}

/// The smallest box that holds both boxes: componentwise minimum of the
/// minima and maximum of the maxima.
pub open spec fn box_union(b0: AABB, b1: AABB) -> AABB {
    AABB {
        minimum: Vec3 {
            x: if b0.minimum.x <= b1.minimum.x { b0.minimum.x } else { b1.minimum.x },
            y: if b0.minimum.y <= b1.minimum.y { b0.minimum.y } else { b1.minimum.y },
            z: if b0.minimum.z <= b1.minimum.z { b0.minimum.z } else { b1.minimum.z },
        },
        maximum: Vec3 {
            x: if b0.maximum.x >= b1.maximum.x { b0.maximum.x } else { b1.maximum.x },
            y: if b0.maximum.y >= b1.maximum.y { b0.maximum.y } else { b1.maximum.y },
            z: if b0.maximum.z >= b1.maximum.z { b0.maximum.z } else { b1.maximum.z },
        },
    }
}

/// From `a/ad <= b/bd` and `b/bd < c/cd` (positive denominators) follows
/// `a/ad < c/cd`.
proof fn lemma_fr_le_lt(an: int, ad: int, bn: int, bd: int, cn: int, cd: int)
    requires
        ad > 0,
        bd > 0,
        cd > 0,
        !fr_lt(bn, bd, an, ad),
        fr_lt(bn, bd, cn, cd),
    ensures
        fr_lt(an, ad, cn, cd),
{
    assert(an * cd < cn * ad) by (nonlinear_arith)
        requires
            ad > 0,
            bd > 0,
            cd > 0,
            an * bd <= bn * ad,
            bn * cd < cn * bd,
    ;
}

/// From `a/ad < b/bd` and `b/bd <= c/cd` follows `a/ad < c/cd`.
proof fn lemma_fr_lt_le(an: int, ad: int, bn: int, bd: int, cn: int, cd: int)
    requires
        ad > 0,
        bd > 0,
        cd > 0,
        fr_lt(an, ad, bn, bd),
        !fr_lt(cn, cd, bn, bd),
    ensures
        fr_lt(an, ad, cn, cd),
{
    assert(an * cd < cn * ad) by (nonlinear_arith)
        requires
            ad > 0,
            bd > 0,
            cd > 0,
            an * bd < bn * ad,
            bn * cd <= cn * bd,
    ;
}

/// One clipping step never lowers the running lower bound and keeps its
/// denominator positive; dually for the upper bound.
proof fn lemma_step_bounds(o: int, d: int, lo: int, hi: int, mn: (int, int), mx: (int, int))
    requires
        mn.1 > 0,
        mx.1 > 0,
    ensures
        step_min(o, d, lo, hi, mn).1 > 0,
        step_max(o, d, lo, hi, mx).1 > 0,
        !fr_lt(step_min(o, d, lo, hi, mn).0, step_min(o, d, lo, hi, mn).1, mn.0, mn.1),
        !fr_lt(mx.0, mx.1, step_max(o, d, lo, hi, mx).0, step_max(o, d, lo, hi, mx).1),
{
}

/// The sequential slab test, which stops as soon as the running interval
/// empties, answers exactly as the brute-force form that intersects all
/// three axis intervals first: early exit changes when the test stops,
/// never what it returns.
pub proof fn lemma_slab_agrees(bx: AABB, r: Ray, tmin: int, tmax: int)
    ensures
        slab_hit(bx, r, tmin, tmax) == slab_brute(bx, r, tmin, tmax),
{
    let o = r.orig;
    let d = r.dir;
    let lo = bx.minimum;
    let hi = bx.maximum;
    let mn1 = step_min(o.x as int, d.x as int, lo.x as int, hi.x as int, (tmin, 1));
    let mx1 = step_max(o.x as int, d.x as int, lo.x as int, hi.x as int, (tmax, 1));
    let mn2 = step_min(o.y as int, d.y as int, lo.y as int, hi.y as int, mn1);
    let mx2 = step_max(o.y as int, d.y as int, lo.y as int, hi.y as int, mx1);
    let mn3 = step_min(o.z as int, d.z as int, lo.z as int, hi.z as int, mn2);
    let mx3 = step_max(o.z as int, d.z as int, lo.z as int, hi.z as int, mx2);
    lemma_step_bounds(o.x as int, d.x as int, lo.x as int, hi.x as int, (tmin, 1), (tmax, 1));
    lemma_step_bounds(o.y as int, d.y as int, lo.y as int, hi.y as int, mn1, mx1);
    lemma_step_bounds(o.z as int, d.z as int, lo.z as int, hi.z as int, mn2, mx2);
    if !fr_lt(mn1.0, mn1.1, mx1.0, mx1.1) {
        // The interval was already empty after the first axis; the later
        // clips only tighten it, so the final interval is empty too.
        if fr_lt(mn3.0, mn3.1, mx3.0, mx3.1) {
            lemma_fr_le_lt(mn2.0, mn2.1, mn3.0, mn3.1, mx3.0, mx3.1);
            lemma_fr_le_lt(mn1.0, mn1.1, mn2.0, mn2.1, mx3.0, mx3.1);
            lemma_fr_lt_le(mn1.0, mn1.1, mx3.0, mx3.1, mx2.0, mx2.1);
            lemma_fr_lt_le(mn1.0, mn1.1, mx2.0, mx2.1, mx1.0, mx1.1);
        }
    } else if !fr_lt(mn2.0, mn2.1, mx2.0, mx2.1) {
        if fr_lt(mn3.0, mn3.1, mx3.0, mx3.1) {
            lemma_fr_le_lt(mn2.0, mn2.1, mn3.0, mn3.1, mx3.0, mx3.1);
            lemma_fr_lt_le(mn2.0, mn2.1, mx3.0, mx3.1, mx2.0, mx2.1);
        }
    }
}

/// Exec fraction comparison.
fn fr_lt_exec(an: i64, ad: i64, bn: i64, bd: i64) -> (r: bool)
    requires
        -0x2000_0000_0000 <= an <= 0x2000_0000_0000,
        -0x2000_0000_0000 <= bn <= 0x2000_0000_0000,
        0 < ad <= 0x2000_0000_0000,
        0 < bd <= 0x2000_0000_0000,
    ensures
        r == fr_lt(an as int, ad as int, bn as int, bd as int),
{
    proof {
        assert(-0x4_0000_0000_0000_0000_0000_0000 <= (an as int) * (bd as int)
            <= 0x4_0000_0000_0000_0000_0000_0000) by (nonlinear_arith)
            requires
                -0x2000_0000_0000 <= an <= 0x2000_0000_0000,
                0 < bd <= 0x2000_0000_0000,
        ;
        assert(-0x4_0000_0000_0000_0000_0000_0000 <= (bn as int) * (ad as int)
            <= 0x4_0000_0000_0000_0000_0000_0000) by (nonlinear_arith)
            requires
                -0x2000_0000_0000 <= bn <= 0x2000_0000_0000,
                0 < ad <= 0x2000_0000_0000,
        ;
    }
    (an as i128) * (bd as i128) < (bn as i128) * (ad as i128)
}

impl AABB {
    pub fn new(a: Point3, b: Point3) -> (r: AABB)
        ensures
            r.minimum == a,
            r.maximum == b,
    {
        AABB { minimum: a, maximum: b }
    }

    pub fn default_new() -> (r: AABB)
        ensures
            r.minimum == (Vec3 { x: 0i64, y: 0i64, z: 0i64 }),
            r.maximum == (Vec3 { x: 0i64, y: 0i64, z: 0i64 }),
    {
        AABB { minimum: Point3::zero(), maximum: Point3::zero() }
    }

    pub fn min(&self) -> (r: Point3)
        ensures
            r == self.minimum,
    {
        self.minimum
    }

    pub fn max(&self) -> (r: Point3)
        ensures
            r == self.maximum,
    {
        self.maximum
    }

    /// Does the ray cross this box anywhere in the open interval
    /// `(t_min, t_max)` of real ray parameters? Exact slab test.
    #[verifier::rlimit(60)]
    pub fn hit(&self, r: Ray, t_min: i64, t_max: i64) -> (res: bool)
        requires
            bounded(self.minimum, 0x1000_0000_0000),
            bounded(self.maximum, 0x1000_0000_0000),
            bounded(r.orig, 0x1000_0000_0000),
            bounded(r.dir, 0x1000_0000_0000),
            -0x4800_0000 <= t_min <= 0x4800_0000,
            -0x4800_0000 <= t_max <= 0x4800_0000,
        ensures
            res == slab_hit(*self, r, t_min as int, t_max as int),
    {
        let o = r.orig;
        let d = r.dir;
        let lo = self.minimum;
        let hi = self.maximum;
        let mut mn_n: i64 = t_min;
        let mut mn_d: i64 = 1;
        let mut mx_n: i64 = t_max;
        let mut mx_d: i64 = 1;

        // x slab
        if d.x == 0 {
            if o.x < lo.x || o.x > hi.x {
                return false;
            }
        } else {
            let dn: i64 = if d.x > 0 { d.x } else { -d.x };
            let en: i64 = if d.x > 0 { lo.x - o.x } else { o.x - hi.x };
            let xn: i64 = if d.x > 0 { hi.x - o.x } else { o.x - lo.x };
            if fr_lt_exec(mn_n, mn_d, en, dn) {
                mn_n = en;
                mn_d = dn;
            }
            if fr_lt_exec(xn, dn, mx_n, mx_d) {
                mx_n = xn;
                mx_d = dn;
            }
        }
        assert((mn_n as int, mn_d as int) === step_min(o.x as int, d.x as int, lo.x as int, hi.x as int, (t_min as int, 1int)));
        assert((mx_n as int, mx_d as int) === step_max(o.x as int, d.x as int, lo.x as int, hi.x as int, (t_max as int, 1int)));
        if !fr_lt_exec(mn_n, mn_d, mx_n, mx_d) {
            return false;
        }

        // y slab
        if d.y == 0 {
            if o.y < lo.y || o.y > hi.y {
                return false;
            }
        } else {
            let dn: i64 = if d.y > 0 { d.y } else { -d.y };
            let en: i64 = if d.y > 0 { lo.y - o.y } else { o.y - hi.y };
            let xn: i64 = if d.y > 0 { hi.y - o.y } else { o.y - lo.y };
            if fr_lt_exec(mn_n, mn_d, en, dn) {
                mn_n = en;
                mn_d = dn;
            }
            if fr_lt_exec(xn, dn, mx_n, mx_d) {
                mx_n = xn;
                mx_d = dn;
            }
        }
        if !fr_lt_exec(mn_n, mn_d, mx_n, mx_d) {
            return false;
        }

        // z slab
        if d.z == 0 {
            if o.z < lo.z || o.z > hi.z {
                return false;
            }
        } else {
            let dn: i64 = if d.z > 0 { d.z } else { -d.z };
            let en: i64 = if d.z > 0 { lo.z - o.z } else { o.z - hi.z };
            let xn: i64 = if d.z > 0 { hi.z - o.z } else { o.z - lo.z };
            if fr_lt_exec(mn_n, mn_d, en, dn) {
                mn_n = en;
                mn_d = dn;
            }
            if fr_lt_exec(xn, dn, mx_n, mx_d) {
                mx_n = xn;
                mx_d = dn;
            }
        }
        fr_lt_exec(mn_n, mn_d, mx_n, mx_d)
    }

    /// The smallest box holding both arguments.
    pub fn surrounding_box(box0: AABB, box1: AABB) -> (r: AABB)
        ensures
            r == box_union(box0, box1),
    {
        let small = Point3::new(
            crate::rtweekend::fmin(box0.minimum.x, box1.minimum.x),
            crate::rtweekend::fmin(box0.minimum.y, box1.minimum.y),
            crate::rtweekend::fmin(box0.minimum.z, box1.minimum.z),
        );
        let big = Point3::new(
            crate::rtweekend::fmax(box0.maximum.x, box1.maximum.x),
            crate::rtweekend::fmax(box0.maximum.y, box1.maximum.y),
            crate::rtweekend::fmax(box0.maximum.z, box1.maximum.z),
        );
        AABB::new(small, big)
    }
}

} // verus!
