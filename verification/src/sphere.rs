//! Spheres, intersected analytically.
//!
//! With integer coordinates the discriminant test is exact: after taking
//! the floor square root `sf` of the discriminant, a grid parameter `t`
//! lies inside the ball exactly when `-sf <= qa*t + hb <= sf`, which is
//! linear in `t`. The two candidate parameters are therefore exact ceiling
//! and floor divisions — the nearest and farthest grid points inside the
//! ball — and the nearest one inside the query interval wins, as in the
//! classical two-root test.

use vstd::prelude::*;
use crate::hittable::{face_normal, HitRecord};
use crate::num::{cdiv, cdiv_i128, fdiv_i128, is_isqrt, isqrt_u128, tdiv};
use crate::ray::{ray_at_x, ray_at_y, ray_at_z, Ray};
use crate::vec3::{bounded, dot_s, lemma_sqrt_floor, sqrt_floor, Point3, Vec3};
use crate::UNIT;

verus! {

pub struct Sphere {
    pub center: Point3,
    pub radius: i64,
    pub mat_ptr: usize,
}

pub open spec fn sphere_wf(s: Sphere) -> bool {
    &&& bounded(s.center, 0x100_0000)
    &&& 1 <= s.radius <= 0x100_0000
}

/// Squared length of the ray direction.
pub open spec fn sph_qa(r: Ray) -> int {
    dot_s(r.dir, r.dir)
}

/// Half the linear coefficient of the quadratic: `dir . (orig - center)`.
pub open spec fn sph_hb(s: Sphere, r: Ray) -> int {
    r.dir.x * (r.orig.x - s.center.x) + r.dir.y * (r.orig.y - s.center.y) + r.dir.z * (r.orig.z
        - s.center.z)
}

/// The constant coefficient: `|orig - center|^2 - radius^2`.
pub open spec fn sph_c0(s: Sphere, r: Ray) -> int {
    (r.orig.x - s.center.x) * (r.orig.x - s.center.x) + (r.orig.y - s.center.y) * (r.orig.y
        - s.center.y) + (r.orig.z - s.center.z) * (r.orig.z - s.center.z) - s.radius * s.radius
}

pub open spec fn sph_disc(s: Sphere, r: Ray) -> int {
    sph_hb(s, r) * sph_hb(s, r) - sph_qa(r) * sph_c0(s, r)
}

/// Nearest grid parameter inside the ball.
pub open spec fn sph_t1(s: Sphere, r: Ray) -> int {
    cdiv(-sph_hb(s, r) - sqrt_floor(sph_disc(s, r)), sph_qa(r))
}

/// Farthest grid parameter inside the ball.
pub open spec fn sph_t2(s: Sphere, r: Ray) -> int {
    (sqrt_floor(sph_disc(s, r)) - sph_hb(s, r)) / sph_qa(r)
}

/// The outward unit-scale normal at parameter `t`: `(p - center) / radius`,
/// with each offset clamped into one radius (a hit point already lies in
/// the closed ball, so the clamp only guards the arithmetic).
pub open spec fn sph_outward(s: Sphere, r: Ray, t: int) -> Vec3 {
    Vec3 {
        x: tdiv(
            crate::hittable::clamp_s(ray_at_x(r, t) - s.center.x, -s.radius as int, s.radius as int)
                * (UNIT as int),
            s.radius as int,
        ) as i64,
        y: tdiv(
            crate::hittable::clamp_s(ray_at_y(r, t) - s.center.y, -s.radius as int, s.radius as int)
                * (UNIT as int),
            s.radius as int,
        ) as i64,
        z: tdiv(
            crate::hittable::clamp_s(ray_at_z(r, t) - s.center.z, -s.radius as int, s.radius as int)
                * (UNIT as int),
            s.radius as int,
        ) as i64,
    }
}

/// The record a sphere hit at parameter `t` fills in.
pub open spec fn sph_rec(s: Sphere, r: Ray, t: int) -> HitRecord {
    let p = Vec3 { x: ray_at_x(r, t) as i64, y: ray_at_y(r, t) as i64, z: ray_at_z(r, t) as i64 };
    let fn_pair = face_normal(r.dir, sph_outward(s, r, t));
    HitRecord {
        p,
        normal: fn_pair.1,
        front_face: fn_pair.0,
        t: t as i64,
        mat_ptr: s.mat_ptr,
        u: 0i64,
        v: 0i64,
    }
}

/// Full intersection semantics: the nearest in-ball grid parameter in the
/// open interval wins; if it lies outside, the farthest gets its chance.
pub open spec fn sphere_hit_spec(s: Sphere, r: Ray, a: int, b: int) -> Option<HitRecord> {
    if sph_qa(r) <= 0 {
        None
    } else if sph_disc(s, r) <= 0 {
        None
    } else if sph_t1(s, r) > sph_t2(s, r) {
        None
    } else if a < sph_t1(s, r) < b {
        Some(sph_rec(s, r, sph_t1(s, r)))
    } else if a < sph_t2(s, r) < b {
        Some(sph_rec(s, r, sph_t2(s, r)))
    } else {
        None
    }
}

impl Sphere {
    pub fn new(cen: Point3, r: i64, m: usize) -> (s: Sphere)
        ensures
            s.center == cen,
            s.radius == r,
            s.mat_ptr == m,
    {
        Sphere { center: cen, radius: r, mat_ptr: m }
    }

    pub fn hit(&self, r: Ray, t_min: i64, t_max: i64, rec: &mut HitRecord) -> (res: bool)
        requires
            sphere_wf(*self),
            bounded(r.orig, 0x4000_0000),
            bounded(r.dir, 0x100_0000),
            -0x4800_0000 <= t_min <= 0x4800_0000,
            -0x4800_0000 <= t_max <= 0x4800_0000,
        ensures
            res == sphere_hit_spec(*self, r, t_min as int, t_max as int).is_some(),
            res ==> *final(rec) == sphere_hit_spec(*self, r, t_min as int, t_max as int).unwrap(),
            !res ==> *final(rec) == *old(rec),
            res ==> t_min < final(rec).t < t_max,
            res ==> bounded(final(rec).p, 0x80_0000_0000_0000),
            res ==> bounded(final(rec).normal, 0x1_0000),
    {
        let ocx: i64 = r.orig.x - self.center.x;
        let ocy: i64 = r.orig.y - self.center.y;
        let ocz: i64 = r.orig.z - self.center.z;
        let qa: i64 = Vec3::dot(r.dir, r.dir);
        if qa <= 0 {
            return false;
        }
        proof {
            lemma_sphere_fits(*self, r);
            crate::vec3::lemma_mul_fits(r.dir.x as int, ocx as int, 0x100_0000, 0x4100_0000);
            crate::vec3::lemma_mul_fits(r.dir.y as int, ocy as int, 0x100_0000, 0x4100_0000);
            crate::vec3::lemma_mul_fits(r.dir.z as int, ocz as int, 0x100_0000, 0x4100_0000);
            crate::vec3::lemma_mul_fits(ocx as int, ocx as int, 0x4100_0000, 0x4100_0000);
            crate::vec3::lemma_mul_fits(ocy as int, ocy as int, 0x4100_0000, 0x4100_0000);
            crate::vec3::lemma_mul_fits(ocz as int, ocz as int, 0x4100_0000, 0x4100_0000);
            crate::vec3::lemma_mul_fits(self.radius as int, self.radius as int, 0x100_0000, 0x100_0000);
        }
        let hb: i128 = (r.dir.x as i128) * (ocx as i128) + (r.dir.y as i128) * (ocy as i128) + (
        r.dir.z as i128) * (ocz as i128);
        let c0: i128 = (ocx as i128) * (ocx as i128) + (ocy as i128) * (ocy as i128) + (
        ocz as i128) * (ocz as i128) - (self.radius as i128) * (self.radius as i128);
        proof {
            assert(hb == sph_hb(*self, r));
            assert(c0 == sph_c0(*self, r));
            assert(qa == sph_qa(r));
            crate::vec3::lemma_mul_fits(
                hb as int,
                hb as int,
                0x800_0000_0000_0000,
                0x800_0000_0000_0000,
            );

        }
        let hh: i128 = hb * hb;
        let qaw: i128 = qa as i128;
        proof {
            crate::vec3::lemma_mul_fits(
                qaw as int,
                c0 as int,
                0x4_0000_0000_0000,
                0x4000_0000_0000_0000,
            );
            assert(0x4_0000_0000_0000 * 0x4000_0000_0000_0000
                == 0x1_0000_0000_0000_0000_0000_0000_0000) by (nonlinear_arith);
        }
        let qc: i128 = crate::num::mul_i128(qaw, c0);
        let disc: i128 = hh - qc;
        if disc <= 0 {
            return false;
        }
        let sf: u128 = isqrt_u128(disc as u128);
        proof {
            lemma_sqrt_floor(disc as int, sf as int);
        }
        let t1 = cdiv_i128(-hb - (sf as i128), qa as i128);
        let t2 = fdiv_i128((sf as i128) - hb, qa as i128);
        if t1 > t2 {
            return false;
        }
        proof {
            crate::num::lemma_cdiv_bound((-hb - sf) as int, qa as int);
        }
        if (t_min as i128) < t1 && t1 < (t_max as i128) {
            self.fill(r, t1 as i64, rec);
            return true;
        }
        if (t_min as i128) < t2 && t2 < (t_max as i128) {
            self.fill(r, t2 as i64, rec);
            return true;
        }
        false
    }

    /// Fill the record for an accepted parameter.
    fn fill(&self, r: Ray, t: i64, rec: &mut HitRecord)
        requires
            sphere_wf(*self),
            bounded(r.orig, 0x4000_0000),
            bounded(r.dir, 0x100_0000),
            -0x4800_0000 < t < 0x4800_0000,
        ensures
            *final(rec) == sph_rec(*self, r, t as int),
            bounded(final(rec).p, 0x80_0000_0000_0000),
            bounded(final(rec).normal, 0x1_0000),
    {
        let p = r.at(t);
        proof {
            crate::hittable::lemma_at_bound(r, t as int);
        }
        let ox = crate::vec3::unit_comp(
            crate::rtweekend::clamp(p.x - self.center.x, -self.radius, self.radius),
            self.radius,
        );
        let oy = crate::vec3::unit_comp(
            crate::rtweekend::clamp(p.y - self.center.y, -self.radius, self.radius),
            self.radius,
        );
        let oz = crate::vec3::unit_comp(
            crate::rtweekend::clamp(p.z - self.center.z, -self.radius, self.radius),
            self.radius,
        );
        let mut outward = Vec3 { x: ox, y: oy, z: oz };
        rec.t = t;
        rec.p = p;
        rec.u = 0;
        rec.v = 0;
        rec.mat_ptr = self.mat_ptr;
        rec.set_face_normal(&r, &mut outward);
    }
}

/// Bounds on the quadratic's coefficients, for overflow freedom.
proof fn lemma_sphere_fits(s: Sphere, r: Ray)
    requires
        sphere_wf(s),
        bounded(r.orig, 0x4000_0000),
        bounded(r.dir, 0x100_0000),
    ensures
        -0x800_0000_0000_0000 <= sph_hb(s, r) <= 0x800_0000_0000_0000,
        -0x4000_0000_0000_0000 <= sph_c0(s, r) <= 0x4000_0000_0000_0000,
        0 <= sph_qa(r) <= 0x4_0000_0000_0000,
        sph_disc(s, r) <= 0x8000_0000_0000_0000_0000_0000_0000_0000_0000,
        -0x8000_0000_0000_0000_0000_0000_0000_0000_0000 <= sph_disc(s, r),
{
    crate::vec3::lemma_mul_fits(r.dir.x as int, r.orig.x - s.center.x, 0x100_0000, 0x4100_0000);
    crate::vec3::lemma_mul_fits(r.dir.y as int, r.orig.y - s.center.y, 0x100_0000, 0x4100_0000);
    crate::vec3::lemma_mul_fits(r.dir.z as int, r.orig.z - s.center.z, 0x100_0000, 0x4100_0000);
    crate::vec3::lemma_mul_fits(
        r.orig.x - s.center.x,
        r.orig.x - s.center.x,
        0x4100_0000,
        0x4100_0000,
    );
    crate::vec3::lemma_mul_fits(
        r.orig.y - s.center.y,
        r.orig.y - s.center.y,
        0x4100_0000,
        0x4100_0000,
    );
    crate::vec3::lemma_mul_fits(
        r.orig.z - s.center.z,
        r.orig.z - s.center.z,
        0x4100_0000,
        0x4100_0000,
    );
    crate::vec3::lemma_mul_fits(r.dir.x as int, r.dir.x as int, 0x100_0000, 0x100_0000);
    crate::vec3::lemma_mul_fits(r.dir.y as int, r.dir.y as int, 0x100_0000, 0x100_0000);
    crate::vec3::lemma_mul_fits(r.dir.z as int, r.dir.z as int, 0x100_0000, 0x100_0000);
    crate::vec3::lemma_mul_fits(s.radius as int, s.radius as int, 0x100_0000, 0x100_0000);
    assert(-0x800_0000_0000_0000 <= sph_hb(s, r) <= 0x800_0000_0000_0000);
    assert(-0x4000_0000_0000_0000 <= sph_c0(s, r) <= 0x4000_0000_0000_0000);
    assert(0 <= sph_qa(r) <= 0x4_0000_0000_0000) by {
        crate::vec3::lemma_sq_len_nonneg(r.dir);
    }
    assert(sph_hb(s, r) * sph_hb(s, r) <= 0x4000_0000_0000_0000_0000_0000_0000_0000)
        by (nonlinear_arith)
        requires
            -0x800_0000_0000_0000 <= sph_hb(s, r) <= 0x800_0000_0000_0000,
    ;
    assert(-0x1_0000_0000_0000_0000_0000_0000_0000_0000 <= sph_qa(r) * sph_c0(s, r)
        <= 0x1_0000_0000_0000_0000_0000_0000_0000_0000) by (nonlinear_arith)
        requires
            0 <= sph_qa(r) <= 0x4_0000_0000_0000,
            -0x4000_0000_0000_0000 <= sph_c0(s, r) <= 0x4000_0000_0000_0000,
    ;
    assert(sph_hb(s, r) * sph_hb(s, r) >= 0) by (nonlinear_arith);
}

} // verus!
