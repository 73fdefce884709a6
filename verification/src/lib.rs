//! A ray-tracing core verified with Verus.
//!
//! Geometry lives on an integer grid: positions, ray directions and the ray
//! parameter `t` are 64-bit integers, and quantities that stand for real
//! numbers in `[0, 1]` (colors, texture coordinates, unit vectors) are
//! fixed-point values scaled by `UNIT`. Every intersection routine is exact
//! integer arithmetic, so its contract pins the result down completely.

pub mod aabb;
pub mod arrect;
pub mod bvh;
pub mod color;
pub mod constant_medium;
pub mod cuboid;
pub mod hittable;
pub mod hittable_list;
pub mod moving_sphere;
pub mod sphere;
pub mod material;
pub mod num;
pub mod perlin;
pub mod ray;
pub mod texture;
pub mod rtweekend;
pub mod vec3;

use vstd::prelude::*;

verus! {

/// Fixed-point scale: this many grid units stand for the real number one.
pub const UNIT: i64 = 65536;

/// What a material contributes by emission alone: lights answer their
/// texture, every other material black.
pub open spec fn emit_val(
    m: crate::material::Material,
    u: int,
    v: int,
    p: crate::vec3::Vec3,
) -> crate::vec3::Color {
    match m {
        crate::material::Material::Light(dl) => crate::texture::texture_value(dl.emit, u, v, p),
        _ => crate::vec3::Vec3 { x: 0i64, y: 0i64, z: 0i64 },
    }
}

/// What a scattering material multiplies the bounced light by: its
/// texture sample, its fixed albedo, or white for a dielectric.
pub open spec fn atten_val(
    m: crate::material::Material,
    u: int,
    v: int,
    p: crate::vec3::Vec3,
) -> crate::vec3::Color {
    match m {
        crate::material::Material::Lamb(l) => crate::texture::texture_value(l.albedo, u, v, p),
        crate::material::Material::Met(mt) => mt.albedo,
        crate::material::Material::Diel(_) => crate::vec3::Vec3 { x: UNIT, y: UNIT, z: UNIT },
        crate::material::Material::Iso(i) => crate::texture::texture_value(i.albedo, u, v, p),
        crate::material::Material::Light(_) => crate::vec3::Vec3 { x: 0i64, y: 0i64, z: 0i64 },
    }
}

/// One channel clamped onto the linear-light accumulator's safe range.
pub open spec fn clamp_channel(x: int) -> int {
    if x < -0x40_0000_0000 {
        -0x40_0000_0000
    } else if x > 0x40_0000_0000 {
        0x40_0000_0000
    } else {
        x
    }
}

/// The estimator's combination step: `emitted + attenuation * bounce`,
/// componentwise in fixed point, every input clamped first.
pub open spec fn combine_spec(
    e: crate::vec3::Color,
    a: crate::vec3::Color,
    b: crate::vec3::Color,
) -> crate::vec3::Color {
    crate::vec3::Vec3 {
        x: (clamp_channel(e.x as int) + crate::vec3::fxmul(
            clamp_channel(a.x as int),
            clamp_channel(b.x as int),
        )) as i64,
        y: (clamp_channel(e.y as int) + crate::vec3::fxmul(
            clamp_channel(a.y as int),
            clamp_channel(b.y as int),
        )) as i64,
        z: (clamp_channel(e.z as int) + crate::vec3::fxmul(
            clamp_channel(a.z as int),
            clamp_channel(b.z as int),
        )) as i64,
    }
}

/// The recursive light-transport estimator. The scene is queried just
/// above the surface (`t > 0` on the grid plays the shadow-acne epsilon's
/// role); a miss answers the fixed background, an absorbed ray its
/// emission alone, and a scattered ray recurses with one bounce fewer.
pub fn ray_color(
    r: crate::ray::Ray,
    background: crate::vec3::Color,
    world: &crate::hittable::Hittable,
    materials: &Vec<crate::material::Material>,
    depth: i32,
) -> (c: crate::vec3::Color)
    requires
        crate::hittable::wf(*world),
        crate::vec3::bounded(r.orig, crate::hittable::room(*world)),
        crate::vec3::bounded(r.dir, crate::hittable::droom(*world)),
        crate::hittable::time_ok(*world, r.tm as int),
        crate::hittable::droom(*world) >= 0x10_0000,
        forall|i: int|
            0 <= i < materials@.len() ==> crate::material::mat_wf(#[trigger] materials@[i]),
    ensures
        depth <= 0 ==> c == (crate::vec3::Vec3 { x: 0i64, y: 0i64, z: 0i64 }),
        depth > 0 && crate::hittable::det(*world) && crate::hittable::hit_spec(
            *world,
            r,
            0,
            0x4000_0000,
        ) is None ==> c == background,
        depth > 0 && crate::hittable::det(*world) ==> (crate::hittable::hit_spec(
            *world,
            r,
            0,
            0x4000_0000,
        ) matches Some(hr) ==> hr.mat_ptr < materials@.len() ==> c == emit_val(
            materials@[hr.mat_ptr as int],
            hr.u as int,
            hr.v as int,
            hr.p,
        ) || (exists|bo: crate::vec3::Color|
            c == combine_spec(
                emit_val(materials@[hr.mat_ptr as int], hr.u as int, hr.v as int, hr.p),
                atten_val(materials@[hr.mat_ptr as int], hr.u as int, hr.v as int, hr.p),
                bo,
            ))),
        depth > 0 && crate::hittable::det(*world) ==> (crate::hittable::hit_spec(
            *world,
            r,
            0,
            0x4000_0000,
        ) matches Some(hr) ==> hr.mat_ptr < materials@.len() && materials@[hr.mat_ptr as int]
            is Light ==> c == emit_val(
            materials@[hr.mat_ptr as int],
            hr.u as int,
            hr.v as int,
            hr.p,
        )),
        depth == 1 && crate::hittable::det(*world) ==> (crate::hittable::hit_spec(
            *world,
            r,
            0,
            0x4000_0000,
        ) matches Some(hr) ==> hr.mat_ptr < materials@.len() && materials@[hr.mat_ptr as int]
            is Lamb ==> c == (crate::vec3::Vec3 { x: 0i64, y: 0i64, z: 0i64 })),
    decreases depth,
{
    if depth <= 0 {
        return crate::vec3::Vec3::zero();
    }
    let mut rec = crate::hittable::HitRecord::new();
    if !world.hit(r, 0, 0x4000_0000, &mut rec) {
        return background;
    }
    if rec.mat_ptr >= materials.len() {
        return crate::vec3::Vec3::zero();
    }
    let mat = &materials[rec.mat_ptr];
    let emitted = mat.emitted(rec.u, rec.v, &rec.p);
    proof {
        assert(emitted == emit_val(materials@[rec.mat_ptr as int], rec.u as int, rec.v as int,
            rec.p));
    }
    let nv = rec.normal;
    if nv.x < -0x2_0000 || nv.x > 0x2_0000 || nv.y < -0x2_0000 || nv.y > 0x2_0000 || nv.z
        < -0x2_0000 || nv.z > 0x2_0000 {
        return emitted;
    }
    proof {
        crate::hittable::lemma_room_range(*world);
    }
    let mut attenuation = crate::vec3::Color::zero();
    let mut scattered = crate::ray::Ray::default_new();
    if !mat.scatter(r, &rec, &mut attenuation, &mut scattered) {
        return emitted;
    }
    let o = scattered.orig;
    let d = scattered.dir;
    if o.x < -0x100_0000 || o.x > 0x100_0000 || o.y < -0x100_0000 || o.y > 0x100_0000 || o.z
        < -0x100_0000 || o.z > 0x100_0000 || d.x < -0x10_0000 || d.x > 0x10_0000 || d.y
        < -0x10_0000 || d.y > 0x10_0000 || d.z < -0x10_0000 || d.z > 0x10_0000 {
        return emitted;
    }
    let deeper = ray_color(scattered, background, world, materials, depth - 1);
    proof {
        assert(attenuation == atten_val(
            materials@[rec.mat_ptr as int],
            rec.u as int,
            rec.v as int,
            rec.p,
        ));
    }
    let out = combine_light(emitted, attenuation, deeper);
    proof {
        if depth == 1 && (materials@[rec.mat_ptr as int] is Lamb) {
            vstd::arithmetic::div_mod::lemma_div_of0(0x1_0000);
            assert((attenuation.x as int) * 0 == 0 && (attenuation.y as int) * 0 == 0 && (
            attenuation.z as int) * 0 == 0) by (nonlinear_arith);
            assert(clamp_channel(attenuation.x as int) * 0 == 0 && clamp_channel(
                attenuation.y as int,
            ) * 0 == 0 && clamp_channel(attenuation.z as int) * 0 == 0) by (nonlinear_arith);
            assert(out == (crate::vec3::Vec3 { x: 0i64, y: 0i64, z: 0i64 }));
        }
    }
    out
}

/// `emitted + attenuation * bounce`, componentwise in fixed point, with
/// every input clamped onto the accumulator's range first.
fn combine_light(
    emitted: crate::vec3::Color,
    attenuation: crate::vec3::Color,
    bounce: crate::vec3::Color,
) -> (c: crate::vec3::Color)
    ensures
        c == combine_spec(emitted, attenuation, bounce),
{
    let e = clamp_color(emitted);
    let a = clamp_color(attenuation);
    let b = clamp_color(bounce);
    let m = crate::vec3::Vec3 {
        x: crate::vec3::fxmul_exec(a.x, b.x),
        y: crate::vec3::fxmul_exec(a.y, b.y),
        z: crate::vec3::fxmul_exec(a.z, b.z),
    };
    e.add(m)
}

/// Clamp every channel onto the linear-light accumulator's safe range.
fn clamp_color(c: crate::vec3::Color) -> (r: crate::vec3::Color)
    ensures
        crate::vec3::bounded(r, 0x40_0000_0000),
        r.x == clamp_channel(c.x as int),
        r.y == clamp_channel(c.y as int),
        r.z == clamp_channel(c.z as int),
{
    crate::vec3::Vec3 {
        x: crate::rtweekend::clamp(c.x, -0x40_0000_0000, 0x40_0000_0000),
        y: crate::rtweekend::clamp(c.y, -0x40_0000_0000, 0x40_0000_0000),
        z: crate::rtweekend::clamp(c.z, -0x40_0000_0000, 0x40_0000_0000),
    }
}

} // verus!
