//! Spheres whose center moves linearly between two keyframes.
//!
//! At emission time `tm` the center is interpolated between the two
//! keyframe positions; intersection then delegates to the static sphere at
//! that center.

use vstd::prelude::*;
use crate::hittable::HitRecord;
use crate::num::{div_i64, tdiv};
use crate::ray::Ray;
use crate::sphere::{sphere_hit_spec, Sphere};
use crate::vec3::{bounded, Point3, Vec3};

verus! {

pub struct MovingSphere {
    pub center0: Point3,
    pub center1: Point3,
    pub time0: i64,
    pub time1: i64,
    pub radius: i64,
    pub mat_ptr: usize,
}

pub open spec fn msph_wf(s: MovingSphere) -> bool {
    &&& bounded(s.center0, 0x100_0000)
    &&& bounded(s.center1, 0x100_0000)
    &&& 1 <= s.radius <= 0x100_0000
    &&& -0x100_0000 <= s.time0 < s.time1 <= 0x100_0000
}

/// One interpolated coordinate: `c0 + (c1 - c0) * (tm - t0) / (t1 - t0)`.
pub open spec fn lerp(c0: int, c1: int, t0: int, t1: int, tm: int) -> int {
    c0 + tdiv((c1 - c0) * (tm - t0), t1 - t0)
}

/// The center presented to a ray emitted at time `tm`.
pub open spec fn msph_center(s: MovingSphere, tm: int) -> Vec3 {
    Vec3 {
        x: lerp(s.center0.x as int, s.center1.x as int, s.time0 as int, s.time1 as int, tm) as i64,
        y: lerp(s.center0.y as int, s.center1.y as int, s.time0 as int, s.time1 as int, tm) as i64,
        z: lerp(s.center0.z as int, s.center1.z as int, s.time0 as int, s.time1 as int, tm) as i64,
    }
}

/// The static sphere a ray at time `tm` actually intersects.
pub open spec fn msph_as_sphere(s: MovingSphere, tm: int) -> Sphere {
    Sphere { center: msph_center(s, tm), radius: s.radius, mat_ptr: s.mat_ptr }
}

pub open spec fn msph_hit_spec(s: MovingSphere, r: Ray, a: int, b: int) -> Option<HitRecord> {
    sphere_hit_spec(msph_as_sphere(s, r.tm as int), r, a, b)
}

/// For times inside the keyframe window the interpolated coordinate stays
/// between the two keyframe coordinates.
pub proof fn lemma_lerp_between(c0: int, c1: int, t0: int, t1: int, tm: int)
    requires
        t0 < t1,
        t0 <= tm <= t1,
    ensures
        c0 <= c1 ==> c0 <= lerp(c0, c1, t0, t1, tm) <= c1,
        c1 <= c0 ==> c1 <= lerp(c0, c1, t0, t1, tm) <= c0,
{
    let dt = t1 - t0;
    let w = tm - t0;
    let dc = c1 - c0;
    assert(0 <= w <= dt);
    if dc >= 0 {
        assert(0 <= dc * w <= dc * dt) by (nonlinear_arith)
            requires
                dc >= 0,
                0 <= w <= dt,
        ;
        crate::num::lemma_tdiv_bound(dc * w, dt);
        crate::num::lemma_tdiv_ordered(dc * w, dc * dt, dt);
        vstd::arithmetic::div_mod::lemma_div_multiples_vanish(dc, dt);
        assert(tdiv(dc * dt, dt) == dc);
    } else {
        assert(dc * dt <= dc * w <= 0) by (nonlinear_arith)
            requires
                dc < 0,
                0 <= w <= dt,
        ;
        crate::num::lemma_tdiv_bound(dc * w, dt);
        crate::num::lemma_tdiv_ordered(dc * dt, dc * w, dt);
        vstd::arithmetic::div_mod::lemma_div_multiples_vanish(-dc, dt);
        assert((-dc) * dt == -(dc * dt)) by (nonlinear_arith);
        assert(tdiv(dc * dt, dt) == dc);
    }
}

proof fn lemma_lerp_mul_fits(dc: int, w: int)
    requires
        -0x200_0000 <= dc <= 0x200_0000,
        0 <= w <= 0x200_0000,
    ensures
        -0x4_0000_0000_0000 <= dc * w <= 0x4_0000_0000_0000,
{
    assert(-0x4_0000_0000_0000 <= dc * w <= 0x4_0000_0000_0000) by (nonlinear_arith)
        requires
            -0x200_0000 <= dc <= 0x200_0000,
            0 <= w <= 0x200_0000,
    ;
}

impl MovingSphere {
    pub fn new(cen0: Point3, cen1: Point3, _time0: i64, _time1: i64, r: i64, m: usize) -> (s:
        MovingSphere)
        ensures
            s == (MovingSphere {
                center0: cen0,
                center1: cen1,
                time0: _time0,
                time1: _time1,
                radius: r,
                mat_ptr: m,
            }),
    {
        MovingSphere {
            center0: cen0,
            center1: cen1,
            time0: _time0,
            time1: _time1,
            radius: r,
            mat_ptr: m,
        }
    }

    pub fn default_new() -> (s: MovingSphere)
        ensures
            s.center0 == (Vec3 { x: 0i64, y: 0i64, z: 0i64 }),
            s.center1 == (Vec3 { x: 0i64, y: 0i64, z: 0i64 }),
            s.time0 == 0,
            s.time1 == 0,
            s.radius == 0,
            s.mat_ptr == 0,
    {
        MovingSphere {
            center0: Point3::zero(),
            center1: Point3::zero(),
            time0: 0,
            time1: 0,
            radius: 0,
            mat_ptr: 0,
        }
    }

    pub fn center(&self, time: i64) -> (c: Point3)
        requires
            msph_wf(*self),
            self.time0 <= time <= self.time1,
        ensures
            c == msph_center(*self, time as int),
            bounded(c, 0x100_0000),
    {
        let dt = self.time1 - self.time0;
        let w = time - self.time0;
        proof {
            lemma_lerp_between(
                self.center0.x as int,
                self.center1.x as int,
                self.time0 as int,
                self.time1 as int,
                time as int,
            );
            lemma_lerp_between(
                self.center0.y as int,
                self.center1.y as int,
                self.time0 as int,
                self.time1 as int,
                time as int,
            );
            lemma_lerp_between(
                self.center0.z as int,
                self.center1.z as int,
                self.time0 as int,
                self.time1 as int,
                time as int,
            );
            lemma_lerp_mul_fits(self.center1.x as int - self.center0.x as int, w as int);
            lemma_lerp_mul_fits(self.center1.y as int - self.center0.y as int, w as int);
            lemma_lerp_mul_fits(self.center1.z as int - self.center0.z as int, w as int);
            crate::num::lemma_tdiv_bound(
                (self.center1.x as int - self.center0.x as int) * (w as int),
                dt as int,
            );
            crate::num::lemma_tdiv_bound(
                (self.center1.y as int - self.center0.y as int) * (w as int),
                dt as int,
            );
            crate::num::lemma_tdiv_bound(
                (self.center1.z as int - self.center0.z as int) * (w as int),
                dt as int,
            );
        }
        let x = self.center0.x + div_i64((self.center1.x - self.center0.x) * w, dt);
        let y = self.center0.y + div_i64((self.center1.y - self.center0.y) * w, dt);
        let z = self.center0.z + div_i64((self.center1.z - self.center0.z) * w, dt);
        Point3 { x, y, z }
    }

    pub fn hit(&self, r: Ray, t_min: i64, t_max: i64, rec: &mut HitRecord) -> (res: bool)
        requires
            msph_wf(*self),
            self.time0 <= r.tm <= self.time1,
            bounded(r.orig, 0x4000_0000),
            bounded(r.dir, 0x100_0000),
            -0x4800_0000 <= t_min <= 0x4800_0000,
            -0x4800_0000 <= t_max <= 0x4800_0000,
        ensures
            res == msph_hit_spec(*self, r, t_min as int, t_max as int).is_some(),
            res ==> *final(rec) == msph_hit_spec(*self, r, t_min as int, t_max as int).unwrap(),
            !res ==> *final(rec) == *old(rec),
            res ==> t_min < final(rec).t < t_max,
            res ==> bounded(final(rec).p, 0x80_0000_0000_0000),
            res ==> bounded(final(rec).normal, 0x1_0000),
    {
        let cen = self.center(r.time());
        let probe = Sphere::new(cen, self.radius, self.mat_ptr);
        probe.hit(r, t_min, t_max, rec)
    }
}

} // verus!
