//! The polymorphic geometry interface: anything a ray can be tested
//! against, as one closed sum type, plus the intersection record and the
//! translation / rotation wrappers.

use vstd::prelude::*;
use crate::aabb::AABB;
use crate::bvh::BvhNode;
use crate::constant_medium::ConstantMedium;
use crate::hittable_list::HittableList;
use crate::moving_sphere::MovingSphere;
use crate::arrect::{XYRect, XZRect, YZRect};
use crate::ray::{ray_at_x, ray_at_y, ray_at_z, Ray};
use crate::sphere::Sphere;
use crate::cuboid::_Box;
use crate::vec3::{bounded, dot_s, fxmul, Point3, Vec3};
use crate::UNIT;

verus! {

/// The result of a successful intersection. The material is an index into
/// the scene's materials table; many primitives may share one entry.
#[derive(Clone, Copy, Debug, PartialEq, Eq, Structural)]
pub struct HitRecord {
    pub p: Point3,
    pub normal: Vec3,
    pub front_face: bool,
    pub t: i64,
    pub mat_ptr: usize,
    pub u: i64,
    pub v: i64,
}

/// What `set_face_normal` stores: the outward normal if it opposes the ray
/// direction, else its negation.
pub open spec fn face_normal(dir: Vec3, outward: Vec3) -> (bool, Vec3) {
    let front = dot_s(dir, outward) < 0;
    let n = if front {
        outward
    } else {
        Vec3 { x: -outward.x as i64, y: -outward.y as i64, z: -outward.z as i64 }
    };
    (front, n)
}

impl HitRecord {
    pub fn new() -> (r: HitRecord)
        ensures
            r == (HitRecord {
                p: Vec3 { x: 0i64, y: 0i64, z: 0i64 },
                normal: Vec3 { x: 0i64, y: 0i64, z: 0i64 },
                front_face: false,
                t: 0i64,
                mat_ptr: 0usize,
                u: 0i64,
                v: 0i64,
            }),
    {
        HitRecord {
            p: Point3::zero(),
            normal: Vec3::zero(),
            front_face: false,
            t: 0,
            u: 0,
            v: 0,
            mat_ptr: 0,
        }
    }

    /// Orient the stored normal against the incoming ray.
    pub fn set_face_normal(&mut self, r: &Ray, outward_normal: &mut Vec3)
        requires
            bounded(*old(outward_normal), 0x400_0000_0000_0000),
            bounded(r.dir, 0x4000_0000),
        ensures
            final(self).front_face == face_normal(r.dir, *old(outward_normal)).0,
            final(self).normal == face_normal(r.dir, *old(outward_normal)).1,
            final(self).p == old(self).p,
            final(self).t == old(self).t,
            final(self).u == old(self).u,
            final(self).v == old(self).v,
            final(self).mat_ptr == old(self).mat_ptr,
            *final(outward_normal) == *old(outward_normal),
    {
        proof {
            lemma_face_dot_fits(r.dir, *outward_normal);
        }
        let d: i128 = (r.dir.x as i128) * (outward_normal.x as i128) + (r.dir.y as i128) * (
        outward_normal.y as i128) + (r.dir.z as i128) * (outward_normal.z as i128);
        self.front_face = d < 0;
        self.normal = if self.front_face {
            *outward_normal
        } else {
            Vec3 { x: -outward_normal.x, y: -outward_normal.y, z: -outward_normal.z }
        };
    }
}

proof fn lemma_face_dot_fits(d: Vec3, n: Vec3)
    requires
        bounded(d, 0x4000_0000),
        bounded(n, 0x400_0000_0000_0000),
    ensures
        -0x1000_0000_0000_0000_0000_0000 <= d.x * n.x <= 0x1000_0000_0000_0000_0000_0000,
        -0x1000_0000_0000_0000_0000_0000 <= d.y * n.y <= 0x1000_0000_0000_0000_0000_0000,
        -0x1000_0000_0000_0000_0000_0000 <= d.z * n.z <= 0x1000_0000_0000_0000_0000_0000,
{
    assert(-0x1000_0000_0000_0000_0000_0000 <= d.x * n.x <= 0x1000_0000_0000_0000_0000_0000)
        by (nonlinear_arith)
        requires
            -0x4000_0000 <= d.x <= 0x4000_0000,
            -0x400_0000_0000_0000 <= n.x <= 0x400_0000_0000_0000,
    ;
    assert(-0x1000_0000_0000_0000_0000_0000 <= d.y * n.y <= 0x1000_0000_0000_0000_0000_0000)
        by (nonlinear_arith)
        requires
            -0x4000_0000 <= d.y <= 0x4000_0000,
            -0x400_0000_0000_0000 <= n.y <= 0x400_0000_0000_0000,
    ;
    assert(-0x1000_0000_0000_0000_0000_0000 <= d.z * n.z <= 0x1000_0000_0000_0000_0000_0000)
        by (nonlinear_arith)
        requires
            -0x4000_0000 <= d.z <= 0x4000_0000,
            -0x400_0000_0000_0000 <= n.z <= 0x400_0000_0000_0000,
    ;
}

/// Every kind of geometry a ray can be tested against.
pub enum Hittable {
    Sphere(Sphere),
    Moving(MovingSphere),
    RectXY(XYRect),
    RectXZ(XZRect),
    RectYZ(YZRect),
    Cube(_Box),
    List(HittableList),
    Node(Box<BvhNode>),
    Shifted(Translate),
    Turned(RotateY),
    Medium(ConstantMedium),
}

/// Shifts the wrapped geometry by a fixed offset: the ray is moved by
/// `-offset` before delegating, the hit point by `+offset` after.
pub struct Translate {
    pub ptr: Box<Hittable>,
    pub offset: Vec3,
}

impl Translate {
    pub fn new(p: Box<Hittable>, displacement: Vec3) -> (r: Translate)
        ensures
            r.ptr == p,
            r.offset == displacement,
    {
        Translate { ptr: p, offset: displacement }
    }
}

/// Rotates the wrapped geometry about the y axis; `sin_theta` and
/// `cos_theta` are fixed-point values of the rotation angle supplied by the
/// caller.
pub struct RotateY {
    pub ptr: Box<Hittable>,
    pub sin_theta: i64,
    pub cos_theta: i64,
    pub hasbox: bool,
    pub bbox: AABB,
}

pub open spec fn imin(a: int, b: int) -> int {
    if a <= b {
        a
    } else {
        b
    }
}

pub open spec fn imax(a: int, b: int) -> int {
    if a >= b {
        a
    } else {
        b
    }
}

/// The axis-aligned envelope of the eight corners of `bb` rotated by the
/// angle whose fixed-point cosine and sine are `cs` and `sn`: a corner
/// `(x, y, z)` moves to `(cs x + sn z, y, cs z - sn x)`.
pub open spec fn rot_box(cs: int, sn: int, bb: AABB) -> AABB {
    let x0 = bb.minimum.x as int;
    let x1 = bb.maximum.x as int;
    let z0 = bb.minimum.z as int;
    let z1 = bb.maximum.z as int;
    let nx00 = fxmul(cs, x0) + fxmul(sn, z0);
    let nx01 = fxmul(cs, x0) + fxmul(sn, z1);
    let nx10 = fxmul(cs, x1) + fxmul(sn, z0);
    let nx11 = fxmul(cs, x1) + fxmul(sn, z1);
    let nz00 = fxmul(cs, z0) - fxmul(sn, x0);
    let nz01 = fxmul(cs, z1) - fxmul(sn, x0);
    let nz10 = fxmul(cs, z0) - fxmul(sn, x1);
    let nz11 = fxmul(cs, z1) - fxmul(sn, x1);
    AABB {
        minimum: Vec3 {
            x: imin(imin(nx00, nx01), imin(nx10, nx11)) as i64,
            y: imin(bb.minimum.y as int, bb.maximum.y as int) as i64,
            z: imin(imin(nz00, nz01), imin(nz10, nz11)) as i64,
        },
        maximum: Vec3 {
            x: imax(imax(nx00, nx01), imax(nx10, nx11)) as i64,
            y: imax(bb.minimum.y as int, bb.maximum.y as int) as i64,
            z: imax(imax(nz00, nz01), imax(nz10, nz11)) as i64,
        },
    }
}

impl RotateY {
    /// Precompute the rotated bounding box: the wrapped object's box is
    /// queried once and the envelope of its eight rotated corners cached.
    /// `sin_theta` and `cos_theta` are the fixed-point sine and cosine of
    /// the rotation angle.
    #[verifier::rlimit(100)]
    pub fn new(p: Box<Hittable>, sin_theta: i64, cos_theta: i64) -> (r: RotateY)
        requires
            wf(*p),
            -0x1_0000 <= sin_theta <= 0x1_0000,
            -0x1_0000 <= cos_theta <= 0x1_0000,
        ensures
            r.ptr == p,
            r.sin_theta == sin_theta,
            r.cos_theta == cos_theta,
            r.hasbox == has_box(*p),
            r.hasbox ==> r.bbox == rot_box(cos_theta as int, sin_theta as int, box_spec(*p, 0, 1)),
            bounded(r.bbox.minimum, 2 * bcap(*p)),
            bounded(r.bbox.maximum, 2 * bcap(*p)),
    {
        proof {
            lemma_caps_nonneg(*p);
        }
        let mut inner = AABB::default_new();
        let hasbox = p.bounding_box(0, 1, &mut inner);
        let mut bbox = AABB::default_new();
        if hasbox {
            let lo = inner.min();
            let hi = inner.max();
            let nx00 = rot_mul(cos_theta, lo.x) + rot_mul(sin_theta, lo.z);
            let nx01 = rot_mul(cos_theta, lo.x) + rot_mul(sin_theta, hi.z);
            let nx10 = rot_mul(cos_theta, hi.x) + rot_mul(sin_theta, lo.z);
            let nx11 = rot_mul(cos_theta, hi.x) + rot_mul(sin_theta, hi.z);
            let nz00 = rot_mul(cos_theta, lo.z) - rot_mul(sin_theta, lo.x);
            let nz01 = rot_mul(cos_theta, hi.z) - rot_mul(sin_theta, lo.x);
            let nz10 = rot_mul(cos_theta, lo.z) - rot_mul(sin_theta, hi.x);
            let nz11 = rot_mul(cos_theta, hi.z) - rot_mul(sin_theta, hi.x);
            let small = Vec3 {
                x: crate::rtweekend::fmin(
                    crate::rtweekend::fmin(nx00, nx01),
                    crate::rtweekend::fmin(nx10, nx11),
                ),
                y: crate::rtweekend::fmin(lo.y, hi.y),
                z: crate::rtweekend::fmin(
                    crate::rtweekend::fmin(nz00, nz01),
                    crate::rtweekend::fmin(nz10, nz11),
                ),
            };
            let big = Vec3 {
                x: crate::rtweekend::fmax(
                    crate::rtweekend::fmax(nx00, nx01),
                    crate::rtweekend::fmax(nx10, nx11),
                ),
                y: crate::rtweekend::fmax(lo.y, hi.y),
                z: crate::rtweekend::fmax(
                    crate::rtweekend::fmax(nz00, nz01),
                    crate::rtweekend::fmax(nz10, nz11),
                ),
            };
            bbox = AABB::new(small, big);
        }
        RotateY { ptr: p, sin_theta, cos_theta, hasbox, bbox }
    }
}

/// Maximum origin magnitude a ray may have when probing this object: the
/// translation wrappers spend part of the budget and the rotation wrappers
/// halve it.
pub open spec fn room(obj: Hittable) -> int
    decreases obj, 1int,
{
    match obj {
        Hittable::Sphere(_) => 0x4000_0000,
        Hittable::Moving(_) => 0x4000_0000,
        Hittable::RectXY(_) => 0x4000_0000,
        Hittable::RectXZ(_) => 0x4000_0000,
        Hittable::RectYZ(_) => 0x4000_0000,
        Hittable::Cube(bx) => room_seq(bx.sides.objects@),
        Hittable::List(l) => room_seq(l.objects@),
        Hittable::Node(n) => if room(*n.left) <= room(*n.right) {
            room(*n.left)
        } else {
            room(*n.right)
        },
        Hittable::Shifted(t) => room(*t.ptr) - 0x100_0000,
        Hittable::Turned(rt) => room(*rt.ptr) / 2,
        Hittable::Medium(m) => room(*m.boundary),
    }
}

pub open spec fn room_seq(objs: Seq<Hittable>) -> int
    decreases objs, 0int,
{
    if objs.len() == 0 {
        0x4000_0000
    } else {
        let rest = room_seq(objs.drop_last());
        let lastv = room(objs.last());
        if lastv <= rest {
            lastv
        } else {
            rest
        }
    }
}

/// Maximum direction magnitude, shrunk the same way by rotations.
pub open spec fn droom(obj: Hittable) -> int
    decreases obj, 1int,
{
    match obj {
        Hittable::Sphere(_) => 0x100_0000,
        Hittable::Moving(_) => 0x100_0000,
        Hittable::RectXY(_) => 0x100_0000,
        Hittable::RectXZ(_) => 0x100_0000,
        Hittable::RectYZ(_) => 0x100_0000,
        Hittable::Cube(bx) => droom_seq(bx.sides.objects@),
        Hittable::List(l) => droom_seq(l.objects@),
        Hittable::Node(n) => if droom(*n.left) <= droom(*n.right) {
            droom(*n.left)
        } else {
            droom(*n.right)
        },
        Hittable::Shifted(t) => droom(*t.ptr),
        Hittable::Turned(rt) => droom(*rt.ptr) / 2,
        Hittable::Medium(m) => droom(*m.boundary),
    }
}

pub open spec fn droom_seq(objs: Seq<Hittable>) -> int
    decreases objs, 0int,
{
    if objs.len() == 0 {
        0x100_0000
    } else {
        let rest = droom_seq(objs.drop_last());
        let lastv = droom(objs.last());
        if lastv <= rest {
            lastv
        } else {
            rest
        }
    }
}

/// Bound on the hit points an object can report.
pub open spec fn pcap(obj: Hittable) -> int
    decreases obj, 1int,
{
    match obj {
        Hittable::Sphere(_) => 0x80_0000_0000_0000,
        Hittable::Moving(_) => 0x80_0000_0000_0000,
        Hittable::RectXY(_) => 0x80_0000_0000_0000,
        Hittable::RectXZ(_) => 0x80_0000_0000_0000,
        Hittable::RectYZ(_) => 0x80_0000_0000_0000,
        Hittable::Cube(bx) => pcap_seq(bx.sides.objects@),
        Hittable::List(l) => pcap_seq(l.objects@),
        Hittable::Node(n) => if pcap(*n.left) >= pcap(*n.right) {
            pcap(*n.left)
        } else {
            pcap(*n.right)
        },
        Hittable::Shifted(t) => pcap(*t.ptr) + 0x100_0000,
        Hittable::Turned(rt) => 3 * pcap(*rt.ptr),
        Hittable::Medium(_) => 0x80_0000_0000_0000,
    }
}

pub open spec fn pcap_seq(objs: Seq<Hittable>) -> int
    decreases objs, 0int,
{
    if objs.len() == 0 {
        0x80_0000_0000_0000
    } else {
        let rest = pcap_seq(objs.drop_last());
        let lastv = pcap(objs.last());
        if lastv >= rest {
            lastv
        } else {
            rest
        }
    }
}

/// Bound on the normals an object can report.
pub open spec fn ncap(obj: Hittable) -> int
    decreases obj, 1int,
{
    match obj {
        Hittable::Sphere(_) => 0x1_0000,
        Hittable::Moving(_) => 0x1_0000,
        Hittable::RectXY(_) => 0x1_0000,
        Hittable::RectXZ(_) => 0x1_0000,
        Hittable::RectYZ(_) => 0x1_0000,
        Hittable::Cube(bx) => ncap_seq(bx.sides.objects@),
        Hittable::List(l) => ncap_seq(l.objects@),
        Hittable::Node(n) => if ncap(*n.left) >= ncap(*n.right) {
            ncap(*n.left)
        } else {
            ncap(*n.right)
        },
        Hittable::Shifted(t) => ncap(*t.ptr),
        Hittable::Turned(rt) => ncap(*rt.ptr) + 6 * pcap(*rt.ptr),
        Hittable::Medium(_) => 0x1_0000,
    }
}

pub open spec fn ncap_seq(objs: Seq<Hittable>) -> int
    decreases objs, 0int,
{
    if objs.len() == 0 {
        0x1_0000
    } else {
        let rest = ncap_seq(objs.drop_last());
        let lastv = ncap(objs.last());
        if lastv >= rest {
            lastv
        } else {
            rest
        }
    }
}

/// Bound on an object's bounding-box corners: translations widen it by
/// their offset, rotations at worst double it.
pub open spec fn bcap(obj: Hittable) -> int
    decreases obj, 1int,
{
    match obj {
        Hittable::Sphere(_) => 0x200_0000,
        Hittable::Moving(_) => 0x200_0000,
        Hittable::RectXY(_) => 0x200_0000,
        Hittable::RectXZ(_) => 0x200_0000,
        Hittable::RectYZ(_) => 0x200_0000,
        Hittable::Cube(_) => 0x200_0000,
        Hittable::List(l) => bcap_seq(l.objects@),
        Hittable::Node(n) => if bcap(*n.left) >= bcap(*n.right) {
            bcap(*n.left)
        } else {
            bcap(*n.right)
        },
        Hittable::Shifted(t) => bcap(*t.ptr) + 0x100_0000,
        Hittable::Turned(rt) => 2 * bcap(*rt.ptr),
        Hittable::Medium(m) => bcap(*m.boundary),
    }
}

pub open spec fn bcap_seq(objs: Seq<Hittable>) -> int
    decreases objs, 0int,
{
    if objs.len() == 0 {
        0x200_0000
    } else {
        let rest = bcap_seq(objs.drop_last());
        let lastv = bcap(objs.last());
        if lastv >= rest {
            lastv
        } else {
            rest
        }
    }
}

/// No participating medium anywhere inside: intersection is then a pure
/// function of the ray.
pub open spec fn det(obj: Hittable) -> bool
    decreases obj, 1int,
{
    match obj {
        Hittable::Sphere(_) => true,
        Hittable::Moving(_) => true,
        Hittable::RectXY(_) => true,
        Hittable::RectXZ(_) => true,
        Hittable::RectYZ(_) => true,
        Hittable::Cube(bx) => det_seq(bx.sides.objects@),
        Hittable::List(l) => det_seq(l.objects@),
        Hittable::Node(n) => det(*n.left) && det(*n.right),
        Hittable::Shifted(t) => det(*t.ptr),
        Hittable::Turned(rt) => det(*rt.ptr),
        Hittable::Medium(_) => false,
    }
}

pub open spec fn det_seq(objs: Seq<Hittable>) -> bool
    decreases objs, 0int,
{
    if objs.len() == 0 {
        true
    } else {
        det_seq(objs.drop_last()) && det(objs.last())
    }
}

/// The ray's emission time lies in every moving primitive's keyframe
/// window.
pub open spec fn time_ok(obj: Hittable, tm: int) -> bool
    decreases obj, 1int,
{
    match obj {
        Hittable::Sphere(_) => true,
        Hittable::Moving(s) => s.time0 <= tm <= s.time1,
        Hittable::RectXY(_) => true,
        Hittable::RectXZ(_) => true,
        Hittable::RectYZ(_) => true,
        Hittable::Cube(bx) => time_ok_seq(bx.sides.objects@, tm),
        Hittable::List(l) => time_ok_seq(l.objects@, tm),
        Hittable::Node(n) => time_ok(*n.left, tm) && time_ok(*n.right, tm),
        Hittable::Shifted(t) => time_ok(*t.ptr, tm),
        Hittable::Turned(rt) => time_ok(*rt.ptr, tm),
        Hittable::Medium(m) => time_ok(*m.boundary, tm),
    }
}

pub open spec fn time_ok_seq(objs: Seq<Hittable>, tm: int) -> bool
    decreases objs, 0int,
{
    if objs.len() == 0 {
        true
    } else {
        time_ok_seq(objs.drop_last(), tm) && time_ok(objs.last(), tm)
    }
}

/// Does the object have a bounding box at all? This is structural:
/// everything has one except an empty group, a group with a boxless
/// member, and a rotation built around a boxless object.
pub open spec fn has_box(obj: Hittable) -> bool
    decreases obj, 1int,
{
    match obj {
        Hittable::Sphere(_) => true,
        Hittable::Moving(_) => true,
        Hittable::RectXY(_) => true,
        Hittable::RectXZ(_) => true,
        Hittable::RectYZ(_) => true,
        Hittable::Cube(_) => true,
        Hittable::List(l) => l.objects@.len() > 0 && has_box_seq(l.objects@),
        Hittable::Node(_) => true,
        Hittable::Shifted(t) => has_box(*t.ptr),
        Hittable::Turned(rt) => rt.hasbox,
        Hittable::Medium(m) => has_box(*m.boundary),
    }
}

pub open spec fn has_box_seq(objs: Seq<Hittable>) -> bool
    decreases objs, 0int,
{
    if objs.len() == 0 {
        true
    } else {
        has_box_seq(objs.drop_last()) && has_box(objs.last())
    }
}

/// The closed ball's box: center plus or minus the radius on each axis.
pub open spec fn ball_box(c: Vec3, rad: i64) -> AABB {
    AABB {
        minimum: Vec3 { x: (c.x - rad) as i64, y: (c.y - rad) as i64, z: (c.z - rad) as i64 },
        maximum: Vec3 { x: (c.x + rad) as i64, y: (c.y + rad) as i64, z: (c.z + rad) as i64 },
    }
}

pub open spec fn clamp_s(x: int, lo: int, hi: int) -> int {
    if x < lo {
        lo
    } else if x > hi {
        hi
    } else {
        x
    }
}

/// The bounding box over the query time window (meaningful only when
/// `has_box` holds). A moving sphere clamps the query times into its own
/// keyframe window before interpolating.
pub open spec fn box_spec(obj: Hittable, t0: int, t1: int) -> AABB
    decreases obj, 1int,
{
    match obj {
        Hittable::Sphere(s) => ball_box(s.center, s.radius),
        Hittable::Moving(s) => {
            let ta = clamp_s(t0, s.time0 as int, s.time1 as int);
            let tb = clamp_s(t1, s.time0 as int, s.time1 as int);
            crate::aabb::box_union(
                ball_box(crate::moving_sphere::msph_center(s, ta), s.radius),
                ball_box(crate::moving_sphere::msph_center(s, tb), s.radius),
            )
        },
        Hittable::RectXY(rc) => AABB {
            minimum: Vec3 { x: rc.x0, y: rc.y0, z: (rc.k - 1) as i64 },
            maximum: Vec3 { x: rc.x1, y: rc.y1, z: (rc.k + 1) as i64 },
        },
        Hittable::RectXZ(rc) => AABB {
            minimum: Vec3 { x: rc.x0, y: (rc.k - 1) as i64, z: rc.z0 },
            maximum: Vec3 { x: rc.x1, y: (rc.k + 1) as i64, z: rc.z1 },
        },
        Hittable::RectYZ(rc) => AABB {
            minimum: Vec3 { x: (rc.k - 1) as i64, y: rc.y0, z: rc.z0 },
            maximum: Vec3 { x: (rc.k + 1) as i64, y: rc.y1, z: rc.z1 },
        },
        Hittable::Cube(bx) => AABB { minimum: bx.box_min, maximum: bx.box_max },
        Hittable::List(l) => box_seq(l.objects@, t0, t1),
        Hittable::Node(n) => n.bbox,
        Hittable::Shifted(t) => {
            let inner = box_spec(*t.ptr, t0, t1);
            AABB {
                minimum: Vec3 {
                    x: (inner.minimum.x + t.offset.x) as i64,
                    y: (inner.minimum.y + t.offset.y) as i64,
                    z: (inner.minimum.z + t.offset.z) as i64,
                },
                maximum: Vec3 {
                    x: (inner.maximum.x + t.offset.x) as i64,
                    y: (inner.maximum.y + t.offset.y) as i64,
                    z: (inner.maximum.z + t.offset.z) as i64,
                },
            }
        },
        Hittable::Turned(rt) => rt.bbox,
        Hittable::Medium(m) => box_spec(*m.boundary, t0, t1),
    }
}

pub open spec fn box_seq(objs: Seq<Hittable>, t0: int, t1: int) -> AABB
    decreases objs, 0int,
{
    if objs.len() == 0 {
        AABB {
            minimum: Vec3 { x: 0i64, y: 0i64, z: 0i64 },
            maximum: Vec3 { x: 0i64, y: 0i64, z: 0i64 },
        }
    } else if objs.len() == 1 {
        box_spec(objs.last(), t0, t1)
    } else {
        crate::aabb::box_union(box_seq(objs.drop_last(), t0, t1), box_spec(objs.last(), t0, t1))
    }
}

/// Everything `wf` demands of a bounding-volume node: sound children, and
/// a cached box that is exactly the union of theirs over the node's time
/// window (or the left child's alone, when the right is an empty group).
pub open spec fn node_wf(n: BvhNode) -> bool
    decreases n,
{
    &&& has_box(*n.left)
    &&& -0x100_0000 <= n.time0 <= n.time1 <= 0x100_0000
    &&& n.bbox == if has_box(*n.right) {
        crate::aabb::box_union(
            box_spec(*n.left, n.time0 as int, n.time1 as int),
            box_spec(*n.right, n.time0 as int, n.time1 as int),
        )
    } else {
        box_spec(*n.left, n.time0 as int, n.time1 as int)
    }
    &&& bounded(
        n.bbox.minimum,
        if bcap(*n.left) >= bcap(*n.right) {
            bcap(*n.left)
        } else {
            bcap(*n.right)
        },
    )
    &&& bounded(
        n.bbox.maximum,
        if bcap(*n.left) >= bcap(*n.right) {
            bcap(*n.left)
        } else {
            bcap(*n.right)
        },
    )
}

/// Well-formed geometry: coordinates on the scene grid, orderly bounds,
/// and enough room in every budget that no intersection step can overflow.
pub open spec fn wf(obj: Hittable) -> bool
    decreases obj, 3int,
{
    &&& pcap(obj) <= 0x400_0000_0000_0000
    &&& ncap(obj) <= 0x400_0000_0000_0000
    &&& bcap(obj) <= 0x1000_0000_0000
    &&& room(obj) >= 0x100_0000
    &&& droom(obj) >= 1
    &&& match obj {
        Hittable::Sphere(s) => crate::sphere::sphere_wf(s),
        Hittable::Moving(s) => crate::moving_sphere::msph_wf(s),
        Hittable::RectXY(rc) => crate::arrect::xy_wf(rc),
        Hittable::RectXZ(rc) => crate::arrect::xz_wf(rc),
        Hittable::RectYZ(rc) => crate::arrect::yz_wf(rc),
        Hittable::Cube(bx) => bounded(bx.box_min, 0x100_0000) && bounded(bx.box_max, 0x100_0000)
            && wf_seq(bx.sides.objects@),
        Hittable::List(l) => wf_seq(l.objects@),
        Hittable::Node(n) => wf(*n.left) && wf(*n.right) && node_wf(*n),
        Hittable::Shifted(t) => bounded(t.offset, 0x100_0000) && wf(*t.ptr),
        Hittable::Turned(rt) => {
            &&& -0x1_0000 <= rt.sin_theta <= 0x1_0000
            &&& -0x1_0000 <= rt.cos_theta <= 0x1_0000
            &&& wf(*rt.ptr)
            &&& bounded(rt.bbox.minimum, 2 * bcap(*rt.ptr))
            &&& bounded(rt.bbox.maximum, 2 * bcap(*rt.ptr))
        },
        Hittable::Medium(m) => 0 <= m.inv_density <= 0x1_0000_0000 && wf(*m.boundary),
    }
}

pub open spec fn wf_seq(objs: Seq<Hittable>) -> bool
    decreases objs, 2int,
{
    if objs.len() == 0 {
        true
    } else {
        wf_seq(objs.drop_last()) && wf(objs.last())
    }
}

/// The ray a translation wrapper hands to its inner object.
pub open spec fn shift_ray(r: Ray, offset: Vec3) -> Ray {
    Ray {
        orig: Vec3 {
            x: (r.orig.x - offset.x) as i64,
            y: (r.orig.y - offset.y) as i64,
            z: (r.orig.z - offset.z) as i64,
        },
        dir: r.dir,
        tm: r.tm,
    }
}

/// How a translation wrapper rewrites an inner hit: shift the point, then
/// re-orient the inner normal against the moved ray.
pub open spec fn shift_rec(h: HitRecord, moved: Ray, offset: Vec3) -> HitRecord {
    let p = Vec3 {
        x: (h.p.x + offset.x) as i64,
        y: (h.p.y + offset.y) as i64,
        z: (h.p.z + offset.z) as i64,
    };
    let fn_pair = face_normal(moved.dir, h.normal);
    HitRecord {
        p,
        normal: fn_pair.1,
        front_face: fn_pair.0,
        t: h.t,
        mat_ptr: h.mat_ptr,
        u: h.u,
        v: h.v,
    }
}

/// The ray a rotation wrapper hands to its inner object: both origin and
/// direction turned by `-angle` about the y axis.
pub open spec fn rot_ray(rt: RotateY, r: Ray) -> Ray {
    let cs = rt.cos_theta as int;
    let sn = rt.sin_theta as int;
    Ray {
        orig: Vec3 {
            x: (fxmul(cs, r.orig.x as int) - fxmul(sn, r.orig.z as int)) as i64,
            y: r.orig.y,
            z: (fxmul(sn, r.orig.x as int) + fxmul(cs, r.orig.z as int)) as i64,
        },
        dir: Vec3 {
            x: (fxmul(cs, r.dir.x as int) - fxmul(sn, r.dir.z as int)) as i64,
            y: r.dir.y,
            z: (fxmul(sn, r.dir.x as int) + fxmul(cs, r.dir.z as int)) as i64,
        },
        tm: r.tm,
    }
}

/// How the rotation wrapper rewrites an inner hit, statement for
/// statement as the implementation performs it (the updated `x` values
/// feed the `z` updates, and the sine also scales the point's old `z`).
pub open spec fn rot_rec(rt: RotateY, rr: Ray, h: HitRecord) -> HitRecord {
    let cs = rt.cos_theta as int;
    let sn = rt.sin_theta as int;
    let px = fxmul(cs, h.p.x as int) + fxmul(sn, h.p.z as int);
    let pz = -fxmul(sn, px) + fxmul(sn, h.p.z as int);
    let nx = fxmul(cs, h.normal.x as int) + fxmul(sn, pz);
    let nz = -fxmul(sn, nx) + fxmul(cs, pz);
    let p = Vec3 { x: px as i64, y: h.p.y, z: pz as i64 };
    let outward = Vec3 { x: nx as i64, y: h.normal.y, z: nz as i64 };
    let fn_pair = face_normal(rr.dir, outward);
    HitRecord {
        p,
        normal: fn_pair.1,
        front_face: fn_pair.0,
        t: h.t,
        mat_ptr: h.mat_ptr,
        u: h.u,
        v: h.v,
    }
}

/// The intersection each deterministic object reports, as a function of
/// the ray and the open query interval `(a, b)`.
pub open spec fn hit_spec(obj: Hittable, r: Ray, a: int, b: int) -> Option<HitRecord>
    decreases obj, 1int,
{
    match obj {
        Hittable::Sphere(s) => crate::sphere::sphere_hit_spec(s, r, a, b),
        Hittable::Moving(s) => crate::moving_sphere::msph_hit_spec(s, r, a, b),
        Hittable::RectXY(rc) => crate::arrect::xy_hit_spec(rc, r, a, b),
        Hittable::RectXZ(rc) => crate::arrect::xz_hit_spec(rc, r, a, b),
        Hittable::RectYZ(rc) => crate::arrect::yz_hit_spec(rc, r, a, b),
        Hittable::Cube(bx) => scan_spec(bx.sides.objects@, r, a, b),
        Hittable::List(l) => scan_spec(l.objects@, r, a, b),
        Hittable::Node(n) => {
            if !crate::aabb::slab_hit(n.bbox, r, a, b) {
                None
            } else {
                let lh = hit_spec(*n.left, r, a, b);
                let m = if lh is Some {
                    lh.unwrap().t as int
                } else {
                    b
                };
                let rh = hit_spec(*n.right, r, a, m);
                if rh is Some {
                    rh
                } else {
                    lh
                }
            }
        },
        Hittable::Shifted(t) => {
            let moved = shift_ray(r, t.offset);
            match hit_spec(*t.ptr, moved, a, b) {
                Option::None => Option::None,
                Option::Some(h) => Option::Some(shift_rec(h, moved, t.offset)),
            }
        },
        Hittable::Turned(rt) => {
            let rr = rot_ray(rt, r);
            match hit_spec(*rt.ptr, rr, a, b) {
                Option::None => Option::None,
                Option::Some(h) => Option::Some(rot_rec(rt, rr, h)),
            }
        },
        Hittable::Medium(_) => Option::None,
    }
}

/// What a successful scatter in a participating medium must look like,
/// when its boundary is deterministic: the two boundary probes succeed,
/// and some admissible draw of the free-flight sampler lands exactly on
/// the reported parameter; the record carries the phase material, the
/// fixed bookkeeping normal, and the point on the ray.
pub open spec fn medium_outcome(
    m: ConstantMedium,
    r: Ray,
    a: int,
    b: int,
    rec: HitRecord,
) -> bool {
    let h1 = hit_spec(*m.boundary, r, -0x4000_0000, 0x4000_0000);
    &&& h1 is Some
    &&& {
        let t1 = h1.unwrap().t as int;
        let h2 = hit_spec(*m.boundary, r, t1 + 1, 0x4000_0000);
        &&& h2 is Some
        &&& {
            let t2 = h2.unwrap().t as int;
            let len = crate::vec3::sqrt_floor(crate::vec3::sq_len_s(r.dir));
            &&& exists|u: int|
                1 <= u <= 0x1_0000 && crate::constant_medium::medium_decide(
                    t1,
                    t2,
                    a,
                    b,
                    m.inv_density as int,
                    len,
                    u,
                ) == Some(rec.t as int)
            &&& rec.p.x == ray_at_x(r, rec.t as int)
            &&& rec.p.y == ray_at_y(r, rec.t as int)
            &&& rec.p.z == ray_at_z(r, rec.t as int)
            &&& rec.normal == (Vec3 { x: UNIT, y: 0i64, z: 0i64 })
            &&& rec.front_face == true
            &&& rec.mat_ptr == m.phase_function
        }
    }
}

/// What a linear scan reports: each object is probed against an upper
/// bound already shrunk to the best hit so far, so the survivor is the
/// nearest.
pub open spec fn scan_spec(objs: Seq<Hittable>, r: Ray, a: int, b: int) -> Option<HitRecord>
    decreases objs, 0int,
{
    if objs.len() == 0 {
        Option::None
    } else {
        let prev = scan_spec(objs.drop_last(), r, a, b);
        let cur_max = if prev is Some {
            prev.unwrap().t as int
        } else {
            b
        };
        match hit_spec(objs.last(), r, a, cur_max) {
            Option::Some(h) => Option::Some(h),
            Option::None => prev,
        }
    }
}

impl Hittable {
    /// Intersect the ray with this object over the open interval
    /// `(t_min, t_max)`. On a hit the record is filled in and the result
    /// is true; on a miss the record is left untouched. For geometry
    /// without a participating medium the outcome is exactly `hit_spec`.
    #[verifier::rlimit(100)]
    pub fn hit(&self, r: Ray, t_min: i64, t_max: i64, rec: &mut HitRecord) -> (res: bool)
        requires
            wf(*self),
            bounded(r.orig, room(*self)),
            bounded(r.dir, droom(*self)),
            time_ok(*self, r.tm as int),
            -0x4800_0000 <= t_min <= 0x4800_0000,
            -0x4800_0000 <= t_max <= 0x4800_0000,
        ensures
            det(*self) ==> res == hit_spec(*self, r, t_min as int, t_max as int).is_some(),
            det(*self) && res ==> *final(rec) == hit_spec(
                *self,
                r,
                t_min as int,
                t_max as int,
            ).unwrap(),
            !res ==> *final(rec) == *old(rec),
            res ==> t_min <= final(rec).t <= t_max,
            res ==> bounded(final(rec).p, pcap(*self)),
            res ==> bounded(final(rec).normal, ncap(*self)),
            self matches Hittable::Medium(m) ==> (det(*m.boundary) && hit_spec(
                *m.boundary,
                r,
                -0x4000_0000,
                0x4000_0000,
            ) is None ==> !res),
            self matches Hittable::Medium(m) ==> (det(*m.boundary) && res ==> medium_outcome(
                *m,
                r,
                t_min as int,
                t_max as int,
                *final(rec),
            )),
        decreases *self, 1int,
    {
        match self {
            Hittable::Sphere(s) => {
                let res = s.hit(r, t_min, t_max, rec);
                proof {
                    if res {
                        lemma_at_bound(r, final(rec).t as int);
                    }
                }
                res
            },
            Hittable::Moving(s) => {
                let res = s.hit(r, t_min, t_max, rec);
                proof {
                    if res {
                        lemma_at_bound(r, final(rec).t as int);
                    }
                }
                res
            },
            Hittable::RectXY(rc) => {
                let res = rc.hit(r, t_min, t_max, rec);
                proof {
                    if res {
                        lemma_at_bound(r, final(rec).t as int);
                    }
                }
                res
            },
            Hittable::RectXZ(rc) => {
                let res = rc.hit(r, t_min, t_max, rec);
                proof {
                    if res {
                        lemma_at_bound(r, final(rec).t as int);
                    }
                }
                res
            },
            Hittable::RectYZ(rc) => {
                let res = rc.hit(r, t_min, t_max, rec);
                proof {
                    if res {
                        lemma_at_bound(r, final(rec).t as int);
                    }
                }
                res
            },
            Hittable::Cube(bx) => hit_objects(&bx.sides.objects, r, t_min, t_max, rec),
            Hittable::List(l) => hit_objects(&l.objects, r, t_min, t_max, rec),
            Hittable::Node(n) => {
                proof {
                    lemma_room_range(*self);
                }
                if !n.bbox.hit(r, t_min, t_max) {
                    return false;
                }
                let hit_left = n.left.hit(r, t_min, t_max, rec);
                let maxi: i64 = if hit_left {
                    rec.t
                } else {
                    t_max
                };
                let hit_right = n.right.hit(r, t_min, maxi, rec);
                hit_left || hit_right
            },
            Hittable::Shifted(_) => self.hit_shifted(r, t_min, t_max, rec),
            Hittable::Turned(_) => self.hit_turned(r, t_min, t_max, rec),
            Hittable::Medium(_) => self.hit_medium(r, t_min, t_max, rec),
        }
    }

    /// One wrapper variant of `hit`, split out to keep each proof small.
    #[verifier::rlimit(100)]
    fn hit_shifted(&self, r: Ray, t_min: i64, t_max: i64, rec: &mut HitRecord) -> (res: bool)
        requires
            self is Shifted,
            wf(*self),
            bounded(r.orig, room(*self)),
            bounded(r.dir, droom(*self)),
            time_ok(*self, r.tm as int),
            -0x4800_0000 <= t_min <= 0x4800_0000,
            -0x4800_0000 <= t_max <= 0x4800_0000,
        ensures
            det(*self) ==> res == hit_spec(*self, r, t_min as int, t_max as int).is_some(),
            det(*self) && res ==> *final(rec) == hit_spec(
                *self,
                r,
                t_min as int,
                t_max as int,
            ).unwrap(),
            !res ==> *final(rec) == *old(rec),
            res ==> t_min <= final(rec).t <= t_max,
            res ==> bounded(final(rec).p, pcap(*self)),
            res ==> bounded(final(rec).normal, ncap(*self)),
            self matches Hittable::Medium(m) ==> (det(*m.boundary) && hit_spec(
                *m.boundary,
                r,
                -0x4000_0000,
                0x4000_0000,
            ) is None ==> !res),
            self matches Hittable::Medium(m) ==> (det(*m.boundary) && res ==> medium_outcome(
                *m,
                r,
                t_min as int,
                t_max as int,
                *final(rec),
            )),
        decreases *self, 0int,
    {
        match self {
            Hittable::Shifted(tr) => {
                proof {
                    lemma_room_range(*self);
                }
                let moved_r = Ray::new(r.origin().sub(tr.offset), r.direction(), r.time());
                if !tr.ptr.hit(moved_r, t_min, t_max, rec) {
                    return false;
                }
                rec.p = rec.p.add(tr.offset);
                let mut outward = rec.normal;
                rec.set_face_normal(&moved_r, &mut outward);
                true
            },
            _ => {
                proof {
                    assert(false);
                }
                false
            },
        }
    }

    /// One wrapper variant of `hit`, split out to keep each proof small.
    #[verifier::rlimit(100)]
    fn hit_turned(&self, r: Ray, t_min: i64, t_max: i64, rec: &mut HitRecord) -> (res: bool)
        requires
            self is Turned,
            wf(*self),
            bounded(r.orig, room(*self)),
            bounded(r.dir, droom(*self)),
            time_ok(*self, r.tm as int),
            -0x4800_0000 <= t_min <= 0x4800_0000,
            -0x4800_0000 <= t_max <= 0x4800_0000,
        ensures
            det(*self) ==> res == hit_spec(*self, r, t_min as int, t_max as int).is_some(),
            det(*self) && res ==> *final(rec) == hit_spec(
                *self,
                r,
                t_min as int,
                t_max as int,
            ).unwrap(),
            !res ==> *final(rec) == *old(rec),
            res ==> t_min <= final(rec).t <= t_max,
            res ==> bounded(final(rec).p, pcap(*self)),
            res ==> bounded(final(rec).normal, ncap(*self)),
            self matches Hittable::Medium(m) ==> (det(*m.boundary) && hit_spec(
                *m.boundary,
                r,
                -0x4000_0000,
                0x4000_0000,
            ) is None ==> !res),
            self matches Hittable::Medium(m) ==> (det(*m.boundary) && res ==> medium_outcome(
                *m,
                r,
                t_min as int,
                t_max as int,
                *final(rec),
            )),
        decreases *self, 0int,
    {
        match self {
            Hittable::Turned(rt) => {
                proof {
                    lemma_room_range(*self);
                    vstd::arithmetic::div_mod::lemma_fundamental_div_mod(room(*rt.ptr), 2);
                    vstd::arithmetic::div_mod::lemma_mod_division_less_than_divisor(
                        room(*rt.ptr),
                        2,
                    );
                    vstd::arithmetic::div_mod::lemma_fundamental_div_mod(droom(*rt.ptr), 2);
                    vstd::arithmetic::div_mod::lemma_mod_division_less_than_divisor(
                        droom(*rt.ptr),
                        2,
                    );
                }
                let rr = Ray {
                    orig: Vec3 {
                        x: rot_mul(rt.cos_theta, r.orig.x) - rot_mul(rt.sin_theta, r.orig.z),
                        y: r.orig.y,
                        z: rot_mul(rt.sin_theta, r.orig.x) + rot_mul(rt.cos_theta, r.orig.z),
                    },
                    dir: Vec3 {
                        x: rot_mul(rt.cos_theta, r.dir.x) - rot_mul(rt.sin_theta, r.dir.z),
                        y: r.dir.y,
                        z: rot_mul(rt.sin_theta, r.dir.x) + rot_mul(rt.cos_theta, r.dir.z),
                    },
                    tm: r.tm,
                };
                assert(rr == rot_ray(*rt, r));
                assert(bounded(rr.orig, room(*rt.ptr)));
                assert(bounded(rr.dir, droom(*rt.ptr)));
                if !rt.ptr.hit(rr, t_min, t_max, rec) {
                    return false;
                }
                assert(bounded(rec.p, pcap(*rt.ptr)));
                assert(bounded(rec.normal, ncap(*rt.ptr)));
                let ghost pc = pcap(*rt.ptr);
                let ghost nc = ncap(*rt.ptr);
                proof {
                    assert(3 * pc <= 0x400_0000_0000_0000 && pc >= 0 && nc >= 0 && nc + 6 * pc
                        <= 0x400_0000_0000_0000) by {
                        lemma_caps_nonneg(*rt.ptr);
                        assert(pcap(*self) == 3 * pc);
                        assert(ncap(*self) == nc + 6 * pc);
                    }
                }
                let ghost h = *rec;
                let px = rot_mul(rt.cos_theta, rec.p.x) + rot_mul(rt.sin_theta, rec.p.z);
                assert(-2 * pc <= px <= 2 * pc);
                let pz = -rot_mul(rt.sin_theta, px) + rot_mul(rt.sin_theta, rec.p.z);
                assert(-3 * pc <= pz <= 3 * pc);
                let nx = rot_mul(rt.cos_theta, rec.normal.x) + rot_mul(rt.sin_theta, pz);
                assert(-(nc + 3 * pc) <= nx <= nc + 3 * pc);
                let nz = -rot_mul(rt.sin_theta, nx) + rot_mul(rt.cos_theta, pz);
                assert(-(nc + 6 * pc) <= nz <= nc + 6 * pc);
                assert(px == fxmul(rt.cos_theta as int, h.p.x as int) + fxmul(
                    rt.sin_theta as int,
                    h.p.z as int,
                ));
                rec.p = Vec3 { x: px, y: rec.p.y, z: pz };
                let mut outward = Vec3 { x: nx, y: rec.normal.y, z: nz };
                rec.set_face_normal(&rr, &mut outward);
                proof {
                    if det(*self) {
                        assert(*rec == rot_rec(*rt, rr, h));
                    }
                }
                true
            },
            _ => {
                proof {
                    assert(false);
                }
                false
            },
        }
    }

    /// One wrapper variant of `hit`, split out to keep each proof small.
    #[verifier::rlimit(100)]
    fn hit_medium(&self, r: Ray, t_min: i64, t_max: i64, rec: &mut HitRecord) -> (res: bool)
        requires
            self is Medium,
            wf(*self),
            bounded(r.orig, room(*self)),
            bounded(r.dir, droom(*self)),
            time_ok(*self, r.tm as int),
            -0x4800_0000 <= t_min <= 0x4800_0000,
            -0x4800_0000 <= t_max <= 0x4800_0000,
        ensures
            det(*self) ==> res == hit_spec(*self, r, t_min as int, t_max as int).is_some(),
            det(*self) && res ==> *final(rec) == hit_spec(
                *self,
                r,
                t_min as int,
                t_max as int,
            ).unwrap(),
            !res ==> *final(rec) == *old(rec),
            res ==> t_min <= final(rec).t <= t_max,
            res ==> bounded(final(rec).p, pcap(*self)),
            res ==> bounded(final(rec).normal, ncap(*self)),
            self matches Hittable::Medium(m) ==> (det(*m.boundary) && hit_spec(
                *m.boundary,
                r,
                -0x4000_0000,
                0x4000_0000,
            ) is None ==> !res),
            self matches Hittable::Medium(m) ==> (det(*m.boundary) && res ==> medium_outcome(
                *m,
                r,
                t_min as int,
                t_max as int,
                *final(rec),
            )),
        decreases *self, 0int,
    {
        match self {
            Hittable::Medium(m) => {
                let mut rec1 = HitRecord::new();
                let mut rec2 = HitRecord::new();
                if !m.boundary.hit(r, -0x4000_0000, 0x4000_0000, &mut rec1) {
                    return false;
                }
                if !m.boundary.hit(r, rec1.t + 1, 0x4000_0000, &mut rec2) {
                    return false;
                }
                let dv = r.direction();
                if dv.x == 0 && dv.y == 0 && dv.z == 0 {
                    return false;
                }
                proof {
                    lemma_room_range(*self);
                    crate::vec3::lemma_sq_len_bound(dv, 0x100_0000);
                }
                let ray_len = dv.length();
                proof {
                    crate::vec3::lemma_len_pos(dv);
                    crate::vec3::lemma_isqrt_le(
                        crate::vec3::sq_len_s(dv),
                        ray_len as int,
                        0x1000_0000,
                    );
                }
                let u = crate::rtweekend::random_double(1, 65537);
                match crate::constant_medium::medium_decide_exec(
                    rec1.t,
                    rec2.t,
                    t_min,
                    t_max,
                    m.inv_density,
                    ray_len,
                    u,
                ) {
                    Option::None => false,
                    Option::Some(t) => {
                        rec.t = t;
                        rec.p = r.at(t);
                        proof {
                            lemma_at_bound(r, t as int);
                            if det(*m.boundary) {
                                let h1 = hit_spec(*m.boundary, r, -0x4000_0000, 0x4000_0000);
                                assert(h1 is Some && rec1 == h1.unwrap());
                                let h2 = hit_spec(
                                    *m.boundary,
                                    r,
                                    h1.unwrap().t as int + 1,
                                    0x4000_0000,
                                );
                                assert(h2 is Some && rec2 == h2.unwrap());
                                assert(ray_len == crate::vec3::sqrt_floor(
                                    crate::vec3::sq_len_s(r.dir),
                                ));
                                assert(1 <= u as int <= 0x1_0000
                                    && crate::constant_medium::medium_decide(
                                    h1.unwrap().t as int,
                                    h2.unwrap().t as int,
                                    t_min as int,
                                    t_max as int,
                                    m.inv_density as int,
                                    ray_len as int,
                                    u as int,
                                ) == Some(t as int));
                            }
                        }
                        rec.normal = Vec3 { x: crate::UNIT, y: 0, z: 0 };
                        rec.front_face = true;
                        rec.mat_ptr = m.phase_function;
                        true
                    },
                }
            },
            _ => {
                proof {
                    assert(false);
                }
                false
            },
        }
    }

    /// The object's bounding box over `[time0, time1]`, when it has one.
    #[verifier::rlimit(100)]
    pub fn bounding_box(&self, time0: i64, time1: i64, output_box: &mut AABB) -> (res: bool)
        requires
            wf(*self),
            -0x100_0000 <= time0 <= 0x100_0000,
            -0x100_0000 <= time1 <= 0x100_0000,
        ensures
            res == has_box(*self),
            res ==> *final(output_box) == box_spec(*self, time0 as int, time1 as int),
            res ==> bounded(final(output_box).minimum, bcap(*self)),
            res ==> bounded(final(output_box).maximum, bcap(*self)),
        decreases *self,
    {
        match self {
            Hittable::Sphere(s) => {
                let rad = Vec3 { x: s.radius, y: s.radius, z: s.radius };
                *output_box = AABB::new(s.center.sub(rad), s.center.add(rad));
                true
            },
            Hittable::Moving(s) => {
                let ta = crate::rtweekend::clamp(time0, s.time0, s.time1);
                let tb = crate::rtweekend::clamp(time1, s.time0, s.time1);
                let ca = s.center(ta);
                let cb = s.center(tb);
                let rad = Vec3 { x: s.radius, y: s.radius, z: s.radius };
                let box0 = AABB::new(ca.sub(rad), ca.add(rad));
                let box1 = AABB::new(cb.sub(rad), cb.add(rad));
                *output_box = AABB::surrounding_box(box0, box1);
                true
            },
            Hittable::RectXY(rc) => {
                *output_box = AABB::new(
                    Vec3 { x: rc.x0, y: rc.y0, z: rc.k - 1 },
                    Vec3 { x: rc.x1, y: rc.y1, z: rc.k + 1 },
                );
                true
            },
            Hittable::RectXZ(rc) => {
                *output_box = AABB::new(
                    Vec3 { x: rc.x0, y: rc.k - 1, z: rc.z0 },
                    Vec3 { x: rc.x1, y: rc.k + 1, z: rc.z1 },
                );
                true
            },
            Hittable::RectYZ(rc) => {
                *output_box = AABB::new(
                    Vec3 { x: rc.k - 1, y: rc.y0, z: rc.z0 },
                    Vec3 { x: rc.k + 1, y: rc.y1, z: rc.z1 },
                );
                true
            },
            Hittable::Cube(bx) => {
                *output_box = AABB::new(bx.box_min, bx.box_max);
                true
            },
            Hittable::List(l) => box_objects(&l.objects, time0, time1, output_box),
            Hittable::Node(n) => {
                *output_box = n.bbox;
                proof {
                    lemma_room_range(*self);
                }
                true
            },
            Hittable::Shifted(t) => {
                if !t.ptr.bounding_box(time0, time1, output_box) {
                    return false;
                }
                *output_box = AABB::new(
                    output_box.min().add(t.offset),
                    output_box.max().add(t.offset),
                );
                true
            },
            Hittable::Turned(rt) => {
                *output_box = rt.bbox;
                proof {
                    lemma_room_range(*self);
                }
                rt.hasbox
            },
            Hittable::Medium(m) => m.boundary.bounding_box(time0, time1, output_box),
        }
    }
}

/// Linear scan over a group, shrinking the upper bound to the best hit so
/// far.
fn hit_objects(objects: &Vec<Hittable>, r: Ray, t_min: i64, t_max: i64, rec: &mut HitRecord) -> (res:
    bool)
    requires
        wf_seq(objects@),
        bounded(r.orig, room_seq(objects@)),
        bounded(r.dir, droom_seq(objects@)),
        time_ok_seq(objects@, r.tm as int),
        -0x4800_0000 <= t_min <= 0x4800_0000,
        -0x4800_0000 <= t_max <= 0x4800_0000,
    ensures
        det_seq(objects@) ==> res == scan_spec(objects@, r, t_min as int, t_max as int).is_some(),
        det_seq(objects@) && res ==> *final(rec) == scan_spec(
            objects@,
            r,
            t_min as int,
            t_max as int,
        ).unwrap(),
        !res ==> *final(rec) == *old(rec),
        res ==> t_min <= final(rec).t <= t_max,
        res ==> bounded(final(rec).p, pcap_seq(objects@)),
        res ==> bounded(final(rec).normal, ncap_seq(objects@)),
    decreases objects@,
{
    let ghost objs = objects@;
    let mut hit_anything = false;
    let mut closest_so_far: i64 = t_max;
    let n = objects.len();
    let mut i: usize = 0;
    while i < n
        invariant
            objs == objects@,
            n == objs.len(),
            0 <= i <= n,
            wf_seq(objs),
            bounded(r.orig, room_seq(objs)),
            bounded(r.dir, droom_seq(objs)),
            time_ok_seq(objs, r.tm as int),
            -0x4800_0000 <= t_min <= 0x4800_0000,
            -0x4800_0000 <= t_max <= 0x4800_0000,
            -0x4800_0000 <= closest_so_far <= 0x4800_0000,
            !hit_anything ==> closest_so_far == t_max && *rec == *old(rec),
            hit_anything ==> closest_so_far == rec.t && t_min <= rec.t <= t_max,
            hit_anything ==> bounded(rec.p, pcap_seq(objs)) && bounded(rec.normal, ncap_seq(objs)),
            det_seq(objs) ==> (match scan_spec(objs.subrange(0, i as int), r, t_min as int,
                t_max as int) {
                Option::Some(h) => hit_anything && *rec == h,
                Option::None => !hit_anything,
            }),
        decreases n - i,
    {
        proof {
            lemma_seq_member(objs, i as int, r.tm as int);
            if det_seq(objs) {
                lemma_det_seq_prefix(objs, i as int);
            }
        }
        let member_hit = objects[i].hit(r, t_min, closest_so_far, rec);
        proof {
            assert(objs.subrange(0, i + 1).drop_last() =~= objs.subrange(0, i as int));
            assert(objs.subrange(0, i + 1).last() == objs[i as int]);
        }
        if member_hit {
            hit_anything = true;
            closest_so_far = rec.t;
            proof {
                lemma_pcap_seq_member(objs, i as int);
            }
        }
        i = i + 1;
    }
    proof {
        assert(objs.subrange(0, n as int) =~= objs);
    }
    hit_anything
}

/// Union of the members' boxes, or failure when the group is empty or a
/// member has no box.
fn box_objects(objects: &Vec<Hittable>, time0: i64, time1: i64, output_box: &mut AABB) -> (res: bool)
    requires
        wf_seq(objects@),
        -0x100_0000 <= time0 <= 0x100_0000,
        -0x100_0000 <= time1 <= 0x100_0000,
    ensures
        res == (objects@.len() > 0 && has_box_seq(objects@)),
        res ==> *final(output_box) == box_seq(objects@, time0 as int, time1 as int),
        res ==> bounded(final(output_box).minimum, bcap_seq(objects@)),
        res ==> bounded(final(output_box).maximum, bcap_seq(objects@)),
    decreases objects@,
{
    let ghost objs = objects@;
    let n = objects.len();
    if n == 0 {
        return false;
    }
    let mut temp_box = AABB::default_new();
    let mut i: usize = 0;
    while i < n
        invariant
            objs == objects@,
            n == objs.len(),
            n > 0,
            0 <= i <= n,
            wf_seq(objs),
            -0x100_0000 <= time0 <= 0x100_0000,
            -0x100_0000 <= time1 <= 0x100_0000,
            has_box_seq(objs.subrange(0, i as int)),
            i > 0 ==> *output_box == box_seq(objs.subrange(0, i as int), time0 as int,
                time1 as int),
            i > 0 ==> bounded(output_box.minimum, bcap_seq(objs)),
            i > 0 ==> bounded(output_box.maximum, bcap_seq(objs)),
        decreases n - i,
    {
        proof {
            lemma_seq_member(objs, i as int, 0);
        }
        if !objects[i].bounding_box(time0, time1, &mut temp_box) {
            proof {
                lemma_has_box_seq_member(objs, i as int);
            }
            return false;
        }
        proof {
            assert(objs.subrange(0, i + 1).drop_last() =~= objs.subrange(0, i as int));
            assert(objs.subrange(0, i + 1).last() == objs[i as int]);
        }
        if i == 0 {
            *output_box = temp_box;
        } else {
            *output_box = AABB::surrounding_box(*output_box, temp_box);
        }
        i = i + 1;
    }
    proof {
        assert(objs.subrange(0, n as int) =~= objs);
    }
    true
}

/// A sequence with one boxless member fails the whole-group box test.
proof fn lemma_has_box_seq_member(objs: Seq<Hittable>, i: int)
    requires
        0 <= i < objs.len(),
        !has_box(objs[i]),
    ensures
        !has_box_seq(objs),
    decreases objs.len(),
{
    if objs.len() > 0 {
        if i == objs.len() - 1 {
        } else {
            lemma_has_box_seq_member(objs.drop_last(), i);
            assert(objs.drop_last()[i] == objs[i]);
        }
    }
}

/// Determinism of a prefix follows from determinism of the whole.
proof fn lemma_det_seq_prefix(objs: Seq<Hittable>, i: int)
    requires
        0 <= i <= objs.len(),
        det_seq(objs),
    ensures
        det_seq(objs.subrange(0, i)),
    decreases objs.len() - i,
{
    if i == objs.len() {
        assert(objs.subrange(0, i) =~= objs);
    } else {
        lemma_det_seq_prefix(objs.drop_last(), i);
        assert(objs.drop_last().subrange(0, i) =~= objs.subrange(0, i));
    }
}

proof fn lemma_pcap_seq_member(objs: Seq<Hittable>, i: int)
    requires
        0 <= i < objs.len(),
    ensures
        pcap_seq(objs) >= pcap(objs[i]),
        ncap_seq(objs) >= ncap(objs[i]),
    decreases objs.len(),
{
    lemma_seq_member(objs, i, 0);
}

/// Every cap is nonnegative.
pub proof fn lemma_caps_nonneg(obj: Hittable)
    ensures
        pcap(obj) >= 0,
        ncap(obj) >= 0,
        bcap(obj) >= 0,
    decreases obj, 1int,
{
    match obj {
        Hittable::Cube(bx) => {
            lemma_caps_seq_nonneg(bx.sides.objects@);
        },
        Hittable::List(l) => {
            lemma_caps_seq_nonneg(l.objects@);
        },
        Hittable::Node(n) => {
            lemma_caps_nonneg(*n.left);
            lemma_caps_nonneg(*n.right);
        },
        Hittable::Shifted(t) => {
            lemma_caps_nonneg(*t.ptr);
        },
        Hittable::Turned(rt) => {
            lemma_caps_nonneg(*rt.ptr);
        },
        Hittable::Medium(m) => {
            lemma_caps_nonneg(*m.boundary);
        },
        _ => {},
    }
}

proof fn lemma_caps_seq_nonneg(objs: Seq<Hittable>)
    ensures
        pcap_seq(objs) >= 0,
        ncap_seq(objs) >= 0,
        bcap_seq(objs) >= 0,
    decreases objs, 0int,
{
    if objs.len() > 0 {
        lemma_caps_seq_nonneg(objs.drop_last());
        lemma_caps_nonneg(objs.last());
    }
}

/// The room and direction budgets never leave sane global ranges.
pub proof fn lemma_room_range(obj: Hittable)
    ensures
        room(obj) <= 0x4000_0000,
        droom(obj) <= 0x100_0000,
    decreases obj, 1int,
{
    match obj {
        Hittable::Cube(bx) => {
            lemma_room_seq_range(bx.sides.objects@);
        },
        Hittable::List(l) => {
            lemma_room_seq_range(l.objects@);
        },
        Hittable::Node(n) => {
            lemma_room_range(*n.left);
            lemma_room_range(*n.right);
        },
        Hittable::Shifted(t) => {
            lemma_room_range(*t.ptr);
        },
        Hittable::Turned(rt) => {
            lemma_room_range(*rt.ptr);
        },
        Hittable::Medium(m) => {
            lemma_room_range(*m.boundary);
        },
        _ => {},
    }
}

proof fn lemma_room_seq_range(objs: Seq<Hittable>)
    ensures
        room_seq(objs) <= 0x4000_0000,
        droom_seq(objs) <= 0x100_0000,
    decreases objs, 0int,
{
    if objs.len() > 0 {
        lemma_room_seq_range(objs.drop_last());
        lemma_room_range(objs.last());
    }
}

/// A point the ray reaches inside the parameter range stays on the grid.
pub proof fn lemma_at_bound(r: Ray, t: int)
    requires
        bounded(r.orig, 0x4000_0000),
        bounded(r.dir, 0x100_0000),
        -0x4800_0000 <= t <= 0x4800_0000,
    ensures
        -0x80_0000_0000_0000 <= ray_at_x(r, t) <= 0x80_0000_0000_0000,
        -0x80_0000_0000_0000 <= ray_at_y(r, t) <= 0x80_0000_0000_0000,
        -0x80_0000_0000_0000 <= ray_at_z(r, t) <= 0x80_0000_0000_0000,
{
    assert(-0x48_0000_0000_0000 <= r.dir.x * t <= 0x48_0000_0000_0000) by (nonlinear_arith)
        requires
            -0x100_0000 <= r.dir.x <= 0x100_0000,
            -0x4800_0000 <= t <= 0x4800_0000,
    ;
    assert(-0x48_0000_0000_0000 <= r.dir.y * t <= 0x48_0000_0000_0000) by (nonlinear_arith)
        requires
            -0x100_0000 <= r.dir.y <= 0x100_0000,
            -0x4800_0000 <= t <= 0x4800_0000,
    ;
    assert(-0x48_0000_0000_0000 <= r.dir.z * t <= 0x48_0000_0000_0000) by (nonlinear_arith)
        requires
            -0x100_0000 <= r.dir.z <= 0x100_0000,
            -0x4800_0000 <= t <= 0x4800_0000,
    ;
}

/// Scale a coordinate by a fixed-point sine or cosine; the magnitude can
/// only shrink.
fn rot_mul(s: i64, a: i64) -> (r: i64)
    requires
        -0x1_0000 <= s <= 0x1_0000,
        -0x400_0000_0000_0000 <= a <= 0x400_0000_0000_0000,
    ensures
        r == fxmul(s as int, a as int),
        a >= 0 ==> -a <= r <= a,
        a < 0 ==> a <= r <= -a,
{
    proof {
        assert(-0x4_0000_0000_0000_0000_0000 <= (s as int) * (a as int)
            <= 0x4_0000_0000_0000_0000_0000) by (nonlinear_arith)
            requires
                -0x1_0000 <= s <= 0x1_0000,
                -0x400_0000_0000_0000 <= a <= 0x400_0000_0000_0000,
        ;
        let m = if a >= 0 {
            a as int
        } else {
            -(a as int)
        };
        assert(-(m * 0x1_0000) <= (s as int) * (a as int) <= m * 0x1_0000) by (nonlinear_arith)
            requires
                -0x1_0000 <= s <= 0x1_0000,
                m >= 0,
                -m <= a <= m,
        ;
        crate::num::lemma_tdiv_ordered((s as int) * (a as int), m * 0x1_0000, crate::UNIT as int);
        crate::num::lemma_tdiv_ordered(-(m * 0x1_0000), (s as int) * (a as int), crate::UNIT as int);
        vstd::arithmetic::div_mod::lemma_div_multiples_vanish(m, crate::UNIT as int);
        assert(crate::num::tdiv(m * 0x1_0000, crate::UNIT as int) == m);
        assert(crate::num::tdiv(-(m * 0x1_0000), crate::UNIT as int) == -m);
    }
    let p: i128 = (s as i128) * (a as i128);
    let q = crate::num::div_i128(p, crate::UNIT as i128);
    q as i64
}

/// Facts about one member of a group, pulled out of the sequence folds.
pub proof fn lemma_seq_member(objs: Seq<Hittable>, i: int, tm: int)
    requires
        0 <= i < objs.len(),
    ensures
        room_seq(objs) <= room(objs[i]),
        droom_seq(objs) <= droom(objs[i]),
        pcap_seq(objs) >= pcap(objs[i]),
        ncap_seq(objs) >= ncap(objs[i]),
        bcap_seq(objs) >= bcap(objs[i]),
        wf_seq(objs) ==> wf(objs[i]),
        det_seq(objs) ==> det(objs[i]),
        time_ok_seq(objs, tm) ==> time_ok(objs[i], tm),
        has_box_seq(objs) ==> has_box(objs[i]),
    decreases objs.len(),
{
    if i == objs.len() - 1 {
        assert(objs.last() == objs[i]);
    } else {
        lemma_seq_member(objs.drop_last(), i, tm);
        assert(objs.drop_last()[i] == objs[i]);
    }
}

} // verus!
