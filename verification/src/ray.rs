//! Rays: an origin, a direction, and an emission time.
//!
//! The ray parameter `t` is a plain integer; the point the ray reaches at
//! `t` is `origin + direction * t`, evaluated exactly.

use vstd::prelude::*;
use crate::vec3::{bounded, Point3, Vec3};

verus! {

#[derive(Clone, Copy, Debug, PartialEq, Eq, Structural)]
pub struct Ray {
    pub orig: Point3,
    pub dir: Vec3,
    pub tm: i64,
}

/// The point `origin + direction * t`, one coordinate at a time.
pub open spec fn ray_at_x(r: Ray, t: int) -> int {
    r.orig.x + r.dir.x * t
}

pub open spec fn ray_at_y(r: Ray, t: int) -> int {
    r.orig.y + r.dir.y * t
}

pub open spec fn ray_at_z(r: Ray, t: int) -> int {
    r.orig.z + r.dir.z * t
}

impl Ray {
    pub fn new(origin: Point3, direction: Vec3, time: i64) -> (r: Ray)
        ensures
            r.orig == origin,
            r.dir == direction,
            r.tm == time,
    {
        Ray { orig: Point3::copy(origin), dir: Vec3::copy(direction), tm: time }
    }

    pub fn default_new() -> (r: Ray)
        ensures
            r.orig == (Vec3 { x: 0i64, y: 0i64, z: 0i64 }),
            r.dir == (Vec3 { x: 0i64, y: 0i64, z: 0i64 }),
            r.tm == 0,
    {
        Ray { orig: Point3::zero(), dir: Vec3::zero(), tm: 0 }
    }

    pub fn origin(&self) -> (r: Point3)
        ensures
            r == self.orig,
    {
        self.orig
    }

    pub fn direction(&self) -> (r: Vec3)
        ensures
            r == self.dir,
    {
        self.dir
    }

    pub fn at(&self, t: i64) -> (p: Point3)
        requires
            bounded(self.orig, 0x4000_0000),
            bounded(self.dir, 0x100_0000),
            -0x4800_0000 <= t <= 0x4800_0000,
        ensures
            p.x == ray_at_x(*self, t as int),
            p.y == ray_at_y(*self, t as int),
            p.z == ray_at_z(*self, t as int),
    {
        proof {
            lemma_at_fits(self.dir.x as int, t as int);
            lemma_at_fits(self.dir.y as int, t as int);
            lemma_at_fits(self.dir.z as int, t as int);
        }
        let x: i128 = (self.orig.x as i128) + (self.dir.x as i128) * (t as i128);
        let y: i128 = (self.orig.y as i128) + (self.dir.y as i128) * (t as i128);
        let z: i128 = (self.orig.z as i128) + (self.dir.z as i128) * (t as i128);
        Point3 { x: x as i64, y: y as i64, z: z as i64 }
    }

    pub fn time(&self) -> (r: i64)
        ensures
            r == self.tm,
    {
        self.tm
    }
}

proof fn lemma_at_fits(d: int, t: int)
    requires
        -0x100_0000 <= d <= 0x100_0000,
        -0x4800_0000 <= t <= 0x4800_0000,
    ensures
        -0x48_0000_0000_0000 <= d * t <= 0x48_0000_0000_0000,
{
    assert(-0x48_0000_0000_0000 <= d * t <= 0x48_0000_0000_0000) by (nonlinear_arith)
        requires
            -0x100_0000 <= d <= 0x100_0000,
            -0x4800_0000 <= t <= 0x4800_0000,
    ;
}

} // verus!
