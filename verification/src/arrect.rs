//! Axis-aligned rectangles, one per axis pair.
//!
//! The ray crosses the rectangle's plane at the exact rational parameter
//! `(k - origin)/direction`; acceptance — the parameter inside the closed
//! query interval, the two free coordinates inside the rectangle's
//! bounds — is decided on that fraction by cross-multiplication, with no
//! rounding. Only the stored hit parameter is the fraction truncated to
//! the grid.

use vstd::prelude::*;
use crate::hittable::{face_normal, HitRecord};
use crate::num::{div_i128, lemma_trunc_in_interval, tdiv};
use crate::ray::{ray_at_x, ray_at_y, ray_at_z, Ray};
use crate::vec3::{bounded, Vec3};
use crate::UNIT;

verus! {

/// Numerator of the plane-crossing parameter, once the denominator is made
/// positive.
pub open spec fn plane_tn(o: int, d: int, k: int) -> int {
    if d > 0 {
        k - o
    } else {
        o - k
    }
}

/// Positive denominator of the plane-crossing parameter.
pub open spec fn plane_td(d: int) -> int {
    if d > 0 {
        d
    } else {
        -d
    }
}

/// Fixed-point surface coordinate: `(w* - w0) / (w1 - w0)`, where the
/// crossing coordinate `w*` is the fraction `wn / td`.
pub open spec fn rect_uv(wn: int, w0: int, w1: int, td: int) -> int {
    tdiv((wn - w0 * td) * (UNIT as int), (w1 - w0) * td)
}

pub struct XYRect {
    pub mp: usize,
    pub x0: i64,
    pub x1: i64,
    pub y0: i64,
    pub y1: i64,
    pub k: i64,
}

pub open spec fn xy_wf(rc: XYRect) -> bool {
    &&& -0x100_0000 <= rc.x0 < rc.x1 <= 0x100_0000
    &&& -0x100_0000 <= rc.y0 < rc.y1 <= 0x100_0000
    &&& -0x100_0000 <= rc.k <= 0x100_0000
}

pub open spec fn xy_hit_spec(rc: XYRect, r: Ray, a: int, b: int) -> Option<HitRecord> {
    let dz = r.dir.z as int;
    if dz == 0 {
        None
    } else {
        let tn = plane_tn(r.orig.z as int, dz, rc.k as int);
        let td = plane_td(dz);
        if !(a * td <= tn && tn <= b * td) {
            None
        } else {
            let xn = r.orig.x * td + r.dir.x * tn;
            let yn = r.orig.y * td + r.dir.y * tn;
            if xn < rc.x0 * td || xn > rc.x1 * td || yn < rc.y0 * td || yn > rc.y1 * td {
                None
            } else {
                let th = tdiv(tn, td);
                let p = Vec3 {
                    x: ray_at_x(r, th) as i64,
                    y: ray_at_y(r, th) as i64,
                    z: ray_at_z(r, th) as i64,
                };
                let fn_pair = face_normal(r.dir, Vec3 { x: 0i64, y: 0i64, z: UNIT });
                Some(
                    HitRecord {
                        p,
                        normal: fn_pair.1,
                        front_face: fn_pair.0,
                        t: th as i64,
                        mat_ptr: rc.mp,
                        u: rect_uv(xn, rc.x0 as int, rc.x1 as int, td) as i64,
                        v: rect_uv(yn, rc.y0 as int, rc.y1 as int, td) as i64,
                    },
                )
            }
        }
    }
}

impl XYRect {
    pub fn new(x0_: i64, x1_: i64, y0_: i64, y1_: i64, k_: i64, mat: usize) -> (rc: XYRect)
        ensures
            rc == (XYRect { mp: mat, x0: x0_, x1: x1_, y0: y0_, y1: y1_, k: k_ }),
    {
        XYRect { mp: mat, x0: x0_, x1: x1_, y0: y0_, y1: y1_, k: k_ }
    }

    pub fn hit(&self, r: Ray, t_min: i64, t_max: i64, rec: &mut HitRecord) -> (res: bool)
        requires
            xy_wf(*self),
            bounded(r.orig, 0x4000_0000),
            bounded(r.dir, 0x100_0000),
            -0x4800_0000 <= t_min <= 0x4800_0000,
            -0x4800_0000 <= t_max <= 0x4800_0000,
        ensures
            res == xy_hit_spec(*self, r, t_min as int, t_max as int).is_some(),
            res ==> *final(rec) == xy_hit_spec(*self, r, t_min as int, t_max as int).unwrap(),
            !res ==> *final(rec) == *old(rec),
            res ==> t_min <= final(rec).t <= t_max,
            res ==> bounded(final(rec).p, 0x80_0000_0000_0000),
            res ==> bounded(final(rec).normal, 0x1_0000),
    {
        let dz = r.dir.z;
        if dz == 0 {
            return false;
        }
        let tn: i64 = if dz > 0 {
            self.k - r.orig.z
        } else {
            r.orig.z - self.k
        };
        let td: i64 = if dz > 0 {
            dz
        } else {
            -dz
        };
        proof {
            crate::vec3::lemma_mul_fits(t_min as int, td as int, 0x4800_0000, 0x100_0000);
            crate::vec3::lemma_mul_fits(t_max as int, td as int, 0x4800_0000, 0x100_0000);
        }
        if !((t_min as i128) * (td as i128) <= (tn as i128) && (tn as i128) <= (t_max as i128) * (
        td as i128)) {
            return false;
        }
        proof {
            crate::vec3::lemma_mul_fits(r.orig.x as int, td as int, 0x4000_0000, 0x100_0000);
            crate::vec3::lemma_mul_fits(r.orig.y as int, td as int, 0x4000_0000, 0x100_0000);
            crate::vec3::lemma_mul_fits(r.dir.x as int, tn as int, 0x100_0000, 0x4100_0000);
            crate::vec3::lemma_mul_fits(r.dir.y as int, tn as int, 0x100_0000, 0x4100_0000);
            crate::vec3::lemma_mul_fits(self.x0 as int, td as int, 0x100_0000, 0x100_0000);
            crate::vec3::lemma_mul_fits(self.x1 as int, td as int, 0x100_0000, 0x100_0000);
            crate::vec3::lemma_mul_fits(self.y0 as int, td as int, 0x100_0000, 0x100_0000);
            crate::vec3::lemma_mul_fits(self.y1 as int, td as int, 0x100_0000, 0x100_0000);
        }
        let xn: i128 = (r.orig.x as i128) * (td as i128) + (r.dir.x as i128) * (tn as i128);
        let yn: i128 = (r.orig.y as i128) * (td as i128) + (r.dir.y as i128) * (tn as i128);
        if xn < (self.x0 as i128) * (td as i128) || xn > (self.x1 as i128) * (td as i128) || yn < (
        self.y0 as i128) * (td as i128) || yn > (self.y1 as i128) * (td as i128) {
            return false;
        }
        proof {
            lemma_trunc_in_interval(tn as int, td as int, t_min as int, t_max as int);
        }
        let th_w = div_i128(tn as i128, td as i128);
        let th: i64 = th_w as i64;
        rec.u = rect_uv_exec(xn, self.x0, self.x1, td);
        rec.v = rect_uv_exec(yn, self.y0, self.y1, td);
        rec.t = th;
        let mut outward = Vec3 { x: 0, y: 0, z: UNIT };
        rec.mat_ptr = self.mp;
        rec.p = r.at(th);
        proof {
            crate::hittable::lemma_at_bound(r, th as int);
        }
        rec.set_face_normal(&r, &mut outward);
        true
    }
}

pub struct XZRect {
    pub mp: usize,
    pub x0: i64,
    pub x1: i64,
    pub z0: i64,
    pub z1: i64,
    pub k: i64,
}

pub open spec fn xz_wf(rc: XZRect) -> bool {
    &&& -0x100_0000 <= rc.x0 < rc.x1 <= 0x100_0000
    &&& -0x100_0000 <= rc.z0 < rc.z1 <= 0x100_0000
    &&& -0x100_0000 <= rc.k <= 0x100_0000
}

pub open spec fn xz_hit_spec(rc: XZRect, r: Ray, a: int, b: int) -> Option<HitRecord> {
    let dy = r.dir.y as int;
    if dy == 0 {
        None
    } else {
        let tn = plane_tn(r.orig.y as int, dy, rc.k as int);
        let td = plane_td(dy);
        if !(a * td <= tn && tn <= b * td) {
            None
        } else {
            let xn = r.orig.x * td + r.dir.x * tn;
            let zn = r.orig.z * td + r.dir.z * tn;
            if xn < rc.x0 * td || xn > rc.x1 * td || zn < rc.z0 * td || zn > rc.z1 * td {
                None
            } else {
                let th = tdiv(tn, td);
                let p = Vec3 {
                    x: ray_at_x(r, th) as i64,
                    y: ray_at_y(r, th) as i64,
                    z: ray_at_z(r, th) as i64,
                };
                let fn_pair = face_normal(r.dir, Vec3 { x: 0i64, y: UNIT, z: 0i64 });
                Some(
                    HitRecord {
                        p,
                        normal: fn_pair.1,
                        front_face: fn_pair.0,
                        t: th as i64,
                        mat_ptr: rc.mp,
                        u: rect_uv(xn, rc.x0 as int, rc.x1 as int, td) as i64,
                        v: rect_uv(zn, rc.z0 as int, rc.z1 as int, td) as i64,
                    },
                )
            }
        }
    }
}

impl XZRect {
    pub fn new(x0_: i64, x1_: i64, z0_: i64, z1_: i64, k_: i64, mat: usize) -> (rc: XZRect)
        ensures
            rc == (XZRect { mp: mat, x0: x0_, x1: x1_, z0: z0_, z1: z1_, k: k_ }),
    {
        XZRect { mp: mat, x0: x0_, x1: x1_, z0: z0_, z1: z1_, k: k_ }
    }

    pub fn hit(&self, r: Ray, t_min: i64, t_max: i64, rec: &mut HitRecord) -> (res: bool)
        requires
            xz_wf(*self),
            bounded(r.orig, 0x4000_0000),
            bounded(r.dir, 0x100_0000),
            -0x4800_0000 <= t_min <= 0x4800_0000,
            -0x4800_0000 <= t_max <= 0x4800_0000,
        ensures
            res == xz_hit_spec(*self, r, t_min as int, t_max as int).is_some(),
            res ==> *final(rec) == xz_hit_spec(*self, r, t_min as int, t_max as int).unwrap(),
            !res ==> *final(rec) == *old(rec),
            res ==> t_min <= final(rec).t <= t_max,
            res ==> bounded(final(rec).p, 0x80_0000_0000_0000),
            res ==> bounded(final(rec).normal, 0x1_0000),
    {
        let dy = r.dir.y;
        if dy == 0 {
            return false;
        }
        let tn: i64 = if dy > 0 {
            self.k - r.orig.y
        } else {
            r.orig.y - self.k
        };
        let td: i64 = if dy > 0 {
            dy
        } else {
            -dy
        };
        proof {
            crate::vec3::lemma_mul_fits(t_min as int, td as int, 0x4800_0000, 0x100_0000);
            crate::vec3::lemma_mul_fits(t_max as int, td as int, 0x4800_0000, 0x100_0000);
        }
        if !((t_min as i128) * (td as i128) <= (tn as i128) && (tn as i128) <= (t_max as i128) * (
        td as i128)) {
            return false;
        }
        proof {
            crate::vec3::lemma_mul_fits(r.orig.x as int, td as int, 0x4000_0000, 0x100_0000);
            crate::vec3::lemma_mul_fits(r.orig.z as int, td as int, 0x4000_0000, 0x100_0000);
            crate::vec3::lemma_mul_fits(r.dir.x as int, tn as int, 0x100_0000, 0x4100_0000);
            crate::vec3::lemma_mul_fits(r.dir.z as int, tn as int, 0x100_0000, 0x4100_0000);
            crate::vec3::lemma_mul_fits(self.x0 as int, td as int, 0x100_0000, 0x100_0000);
            crate::vec3::lemma_mul_fits(self.x1 as int, td as int, 0x100_0000, 0x100_0000);
            crate::vec3::lemma_mul_fits(self.z0 as int, td as int, 0x100_0000, 0x100_0000);
            crate::vec3::lemma_mul_fits(self.z1 as int, td as int, 0x100_0000, 0x100_0000);
        }
        let xn: i128 = (r.orig.x as i128) * (td as i128) + (r.dir.x as i128) * (tn as i128);
        let zn: i128 = (r.orig.z as i128) * (td as i128) + (r.dir.z as i128) * (tn as i128);
        if xn < (self.x0 as i128) * (td as i128) || xn > (self.x1 as i128) * (td as i128) || zn < (
        self.z0 as i128) * (td as i128) || zn > (self.z1 as i128) * (td as i128) {
            return false;
        }
        proof {
            lemma_trunc_in_interval(tn as int, td as int, t_min as int, t_max as int);
        }
        let th_w = div_i128(tn as i128, td as i128);
        let th: i64 = th_w as i64;
        rec.u = rect_uv_exec(xn, self.x0, self.x1, td);
        rec.v = rect_uv_exec(zn, self.z0, self.z1, td);
        rec.t = th;
        let mut outward = Vec3 { x: 0, y: UNIT, z: 0 };
        rec.mat_ptr = self.mp;
        rec.p = r.at(th);
        proof {
            crate::hittable::lemma_at_bound(r, th as int);
        }
        rec.set_face_normal(&r, &mut outward);
        true
    }
}

pub struct YZRect {
    pub mp: usize,
    pub y0: i64,
    pub y1: i64,
    pub z0: i64,
    pub z1: i64,
    pub k: i64,
}

pub open spec fn yz_wf(rc: YZRect) -> bool {
    &&& -0x100_0000 <= rc.y0 < rc.y1 <= 0x100_0000
    &&& -0x100_0000 <= rc.z0 < rc.z1 <= 0x100_0000
    &&& -0x100_0000 <= rc.k <= 0x100_0000
}

pub open spec fn yz_hit_spec(rc: YZRect, r: Ray, a: int, b: int) -> Option<HitRecord> {
    let dx = r.dir.x as int;
    if dx == 0 {
        None
    } else {
        let tn = plane_tn(r.orig.x as int, dx, rc.k as int);
        let td = plane_td(dx);
        if !(a * td <= tn && tn <= b * td) {
            None
        } else {
            let yn = r.orig.y * td + r.dir.y * tn;
            let zn = r.orig.z * td + r.dir.z * tn;
            if yn < rc.y0 * td || yn > rc.y1 * td || zn < rc.z0 * td || zn > rc.z1 * td {
                None
            } else {
                let th = tdiv(tn, td);
                let p = Vec3 {
                    x: ray_at_x(r, th) as i64,
                    y: ray_at_y(r, th) as i64,
                    z: ray_at_z(r, th) as i64,
                };
                let fn_pair = face_normal(r.dir, Vec3 { x: UNIT, y: 0i64, z: 0i64 });
                Some(
                    HitRecord {
                        p,
                        normal: fn_pair.1,
                        front_face: fn_pair.0,
                        t: th as i64,
                        mat_ptr: rc.mp,
                        u: rect_uv(yn, rc.y0 as int, rc.y1 as int, td) as i64,
                        v: rect_uv(zn, rc.z0 as int, rc.z1 as int, td) as i64,
                    },
                )
            }
        }
    }
}

impl YZRect {
    pub fn new(y0_: i64, y1_: i64, z0_: i64, z1_: i64, k_: i64, mat: usize) -> (rc: YZRect)
        ensures
            rc == (YZRect { mp: mat, y0: y0_, y1: y1_, z0: z0_, z1: z1_, k: k_ }),
    {
        YZRect { mp: mat, y0: y0_, y1: y1_, z0: z0_, z1: z1_, k: k_ }
    }

    pub fn hit(&self, r: Ray, t_min: i64, t_max: i64, rec: &mut HitRecord) -> (res: bool)
        requires
            yz_wf(*self),
            bounded(r.orig, 0x4000_0000),
            bounded(r.dir, 0x100_0000),
            -0x4800_0000 <= t_min <= 0x4800_0000,
            -0x4800_0000 <= t_max <= 0x4800_0000,
        ensures
            res == yz_hit_spec(*self, r, t_min as int, t_max as int).is_some(),
            res ==> *final(rec) == yz_hit_spec(*self, r, t_min as int, t_max as int).unwrap(),
            !res ==> *final(rec) == *old(rec),
            res ==> t_min <= final(rec).t <= t_max,
            res ==> bounded(final(rec).p, 0x80_0000_0000_0000),
            res ==> bounded(final(rec).normal, 0x1_0000),
    {
        let dx = r.dir.x;
        if dx == 0 {
            return false;
        }
        let tn: i64 = if dx > 0 {
            self.k - r.orig.x
        } else {
            r.orig.x - self.k
        };
        let td: i64 = if dx > 0 {
            dx
        } else {
            -dx
        };
        proof {
            crate::vec3::lemma_mul_fits(t_min as int, td as int, 0x4800_0000, 0x100_0000);
            crate::vec3::lemma_mul_fits(t_max as int, td as int, 0x4800_0000, 0x100_0000);
        }
        if !((t_min as i128) * (td as i128) <= (tn as i128) && (tn as i128) <= (t_max as i128) * (
        td as i128)) {
            return false;
        }
        proof {
            crate::vec3::lemma_mul_fits(r.orig.y as int, td as int, 0x4000_0000, 0x100_0000);
            crate::vec3::lemma_mul_fits(r.orig.z as int, td as int, 0x4000_0000, 0x100_0000);
            crate::vec3::lemma_mul_fits(r.dir.y as int, tn as int, 0x100_0000, 0x4100_0000);
            crate::vec3::lemma_mul_fits(r.dir.z as int, tn as int, 0x100_0000, 0x4100_0000);
            crate::vec3::lemma_mul_fits(self.y0 as int, td as int, 0x100_0000, 0x100_0000);
            crate::vec3::lemma_mul_fits(self.y1 as int, td as int, 0x100_0000, 0x100_0000);
            crate::vec3::lemma_mul_fits(self.z0 as int, td as int, 0x100_0000, 0x100_0000);
            crate::vec3::lemma_mul_fits(self.z1 as int, td as int, 0x100_0000, 0x100_0000);
        }
        let yn: i128 = (r.orig.y as i128) * (td as i128) + (r.dir.y as i128) * (tn as i128);
        let zn: i128 = (r.orig.z as i128) * (td as i128) + (r.dir.z as i128) * (tn as i128);
        if yn < (self.y0 as i128) * (td as i128) || yn > (self.y1 as i128) * (td as i128) || zn < (
        self.z0 as i128) * (td as i128) || zn > (self.z1 as i128) * (td as i128) {
            return false;
        }
        proof {
            lemma_trunc_in_interval(tn as int, td as int, t_min as int, t_max as int);
        }
        let th_w = div_i128(tn as i128, td as i128);
        let th: i64 = th_w as i64;
        rec.u = rect_uv_exec(yn, self.y0, self.y1, td);
        rec.v = rect_uv_exec(zn, self.z0, self.z1, td);
        rec.t = th;
        let mut outward = Vec3 { x: UNIT, y: 0, z: 0 };
        rec.mat_ptr = self.mp;
        rec.p = r.at(th);
        proof {
            crate::hittable::lemma_at_bound(r, th as int);
        }
        rec.set_face_normal(&r, &mut outward);
        true
    }
}

/// Exec form of `rect_uv`: the surface coordinate as an exact truncated
/// fraction, which lands in `[0, UNIT]` when the crossing is inside the
/// bounds.
fn rect_uv_exec(wn: i128, w0: i64, w1: i64, td: i64) -> (u: i64)
    requires
        0 < td <= 0x100_0000,
        -0x100_0000 <= w0 < w1 <= 0x100_0000,
        (w0 as int) * td <= wn <= (w1 as int) * td,
    ensures
        u == rect_uv(wn as int, w0 as int, w1 as int, td as int),
        0 <= u <= UNIT,
{
    proof {
        lemma_rect_uv_fits(wn as int, w0 as int, w1 as int, td as int);
        crate::vec3::lemma_mul_fits(w0 as int, td as int, 0x100_0000, 0x100_0000);
        crate::vec3::lemma_mul_fits(w1 as int, td as int, 0x100_0000, 0x100_0000);
    }
    let num: i128 = (wn - (w0 as i128) * (td as i128)) * (UNIT as i128);
    let den: i128 = ((w1 - w0) as i128) * (td as i128);
    let q = div_i128(num, den);
    q as i64
}

proof fn lemma_rect_uv_fits(wn: int, w0: int, w1: int, td: int)
    requires
        0 < td <= 0x100_0000,
        -0x100_0000 <= w0 < w1 <= 0x100_0000,
        w0 * td <= wn <= w1 * td,
    ensures
        0 <= (wn - w0 * td) * (UNIT as int) <= (w1 - w0) * td * (UNIT as int),
        0 < (w1 - w0) * td,
        0 <= rect_uv(wn, w0, w1, td) <= UNIT,
        (w1 - w0) * td * (UNIT as int) <= 0x1_0000_0000_0000_0000_0000,
{
    let den = (w1 - w0) * td;
    assert(0 < den <= 0x4_0000_0000_0000 && (w1 - w0) * td * (UNIT as int) == den * (UNIT as int))
        by (nonlinear_arith)
        requires
            0 < td <= 0x100_0000,
            0 < w1 - w0 <= 0x200_0000,
            den == (w1 - w0) * td,
    ;
    assert(wn - w0 * td <= den) by (nonlinear_arith)
        requires
            wn <= w1 * td,
            den == (w1 - w0) * td,
    ;
    assert(0 <= (wn - w0 * td) * (UNIT as int) <= den * (UNIT as int)) by (nonlinear_arith)
        requires
            0 <= wn - w0 * td <= den,
    ;
    crate::num::lemma_tdiv_ordered((wn - w0 * td) * (UNIT as int), den * (UNIT as int), den);
    crate::num::lemma_tdiv_bound((wn - w0 * td) * (UNIT as int), den);
    vstd::arithmetic::div_mod::lemma_div_multiples_vanish(UNIT as int, den);
    assert(tdiv(den * (UNIT as int), den) == UNIT);
    assert(den * (UNIT as int) <= 0x1_0000_0000_0000_0000_0000) by (nonlinear_arith)
        requires
            0 < den <= 0x4_0000_0000_0000,
    ;
}

} // verus!
