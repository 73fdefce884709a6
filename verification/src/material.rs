//! Materials: how a surface scatters or emits light.

use vstd::prelude::*;
use crate::hittable::HitRecord;
use crate::num::tdiv;
use crate::ray::Ray;
use crate::texture::{texture_value, texture_wf, SolidColor, Texture};
use crate::vec3::{bounded, dot_s, fxmul, sqrt_floor, Color, Vec3};
use crate::UNIT;

verus! {

pub struct Lambertian {
    pub albedo: Texture,
}

pub struct Metal {
    pub albedo: Color,
    pub fuzz: i64,
}

pub struct Dielectric {
    pub ir: i64,
}

pub struct DiffuseLight {
    pub emit: Texture,
}

pub struct Isotropic {
    pub albedo: Texture,
}

/// Every kind of material.
pub enum Material {
    Lamb(Lambertian),
    Met(Metal),
    Diel(Dielectric),
    Light(DiffuseLight),
    Iso(Isotropic),
}

pub open spec fn mat_wf(m: Material) -> bool {
    match m {
        Material::Lamb(l) => texture_wf(l.albedo),
        Material::Met(mt) => 0 <= mt.fuzz <= UNIT && bounded(mt.albedo, UNIT as int),
        Material::Diel(d) => 1 <= d.ir <= 0x10_0000,
        Material::Light(dl) => texture_wf(dl.emit),
        Material::Iso(i) => texture_wf(i.albedo),
    }
}

/// The mirror direction: `reflect` of the unit incoming direction about
/// the stored normal.
pub open spec fn mirror_dir(din: Vec3, n: Vec3) -> Vec3 {
    let u = crate::vec3::unit_spec(din);
    Vec3 {
        x: (u.x - fxmul(n.x as int, 2 * tdiv(dot_s(u, n), UNIT as int))) as i64,
        y: (u.y - fxmul(n.y as int, 2 * tdiv(dot_s(u, n), UNIT as int))) as i64,
        z: (u.z - fxmul(n.z as int, 2 * tdiv(dot_s(u, n), UNIT as int))) as i64,
    }
}

/// The index ratio a dielectric presents to a front- or back-face hit,
/// clamped onto the fixed-point range the refraction math accepts.
pub open spec fn diel_ratio(d: Dielectric, front: bool) -> int {
    let rr0 = if front {
        tdiv(0x1_0000_0000, d.ir as int)
    } else {
        d.ir as int
    };
    if rr0 > 0x10_0000 {
        0x10_0000
    } else if rr0 < 1 {
        1
    } else {
        rr0
    }
}

/// The clamped cosine between the unit incoming direction and the normal.
pub open spec fn diel_cos(din: Vec3, n: Vec3) -> int {
    let c = crate::vec3::cos_theta_s(crate::vec3::unit_spec(din), n);
    if c < 0 {
        0
    } else {
        c
    }
}

/// Snell's criterion: refraction is geometrically impossible when the
/// index ratio times the sine exceeds one.
pub open spec fn diel_cannot_refract(din: Vec3, n: Vec3, eta: int) -> bool {
    let c1 = diel_cos(din, n);
    let cc = fxmul(c1, c1);
    let s2 = if 0x1_0000_0000 - cc > 0 {
        0x1_0000_0000 - cc
    } else {
        0
    };
    fxmul(eta, sqrt_floor(s2)) > UNIT
}

/// Schlick's approximation to the Fresnel reflectance, as the
/// implementation computes it in fixed point: the normal-incidence
/// reflectance, clamped onto `[0, 1]`, blended toward one by the fifth
/// power of one minus the cosine.
pub open spec fn schlick_fx(cosine: int, ref_idx: int) -> int {
    let r0a = tdiv(((UNIT as int) - ref_idx) * (UNIT as int), (UNIT as int) + ref_idx);
    let r0 = fxmul(r0a, r0a);
    let omc = (UNIT as int) - cosine;
    let p5 = fxmul(fxmul(fxmul(omc, omc), fxmul(omc, omc)), omc);
    let r0c = if r0 < 0 {
        0
    } else if r0 > UNIT as int {
        UNIT as int
    } else {
        r0
    };
    r0c + fxmul((UNIT as int) - r0c, p5)
}

/// The refraction of the unit incoming direction at the stored normal.
pub open spec fn refract_dir(din: Vec3, n: Vec3, eta: int) -> Vec3 {
    let u = crate::vec3::unit_spec(din);
    Vec3 {
        x: crate::vec3::refract_x(u, n, eta) as i64,
        y: crate::vec3::refract_y(u, n, eta) as i64,
        z: crate::vec3::refract_z(u, n, eta) as i64,
    }
}

impl Lambertian {
    pub fn new(a: Color) -> (r: Lambertian)
        ensures
            r.albedo == Texture::Solid(SolidColor { color_value: a }),
    {
        Lambertian { albedo: Texture::Solid(SolidColor { color_value: a }) }
    }

    pub fn new_by_pointer(a: Texture) -> (r: Lambertian)
        ensures
            r.albedo == a,
    {
        Lambertian { albedo: a }
    }
}

impl Metal {
    /// Fuzz is clamped onto `[0, 1]`.
    pub fn new(a: Color, f: i64) -> (r: Metal)
        ensures
            r.albedo == a,
            r.fuzz == if f > UNIT {
                UNIT as int
            } else if f < 0 {
                0int
            } else {
                f as int
            },
    {
        let f1 = if f > UNIT {
            UNIT
        } else if f < 0 {
            0
        } else {
            f
        };
        Metal { albedo: a, fuzz: f1 }
    }
}

impl Dielectric {
    pub fn new(i: i64) -> (r: Dielectric)
        ensures
            r.ir == i,
    {
        Dielectric { ir: i }
    }
}

impl DiffuseLight {
    pub fn new_by_color(c: Color) -> (r: DiffuseLight)
        ensures
            r.emit == Texture::Solid(SolidColor { color_value: c }),
    {
        DiffuseLight { emit: Texture::Solid(SolidColor { color_value: c }) }
    }
}

impl Isotropic {
    pub fn new_by_color(c: Color) -> (r: Isotropic)
        ensures
            r.albedo == Texture::Solid(SolidColor { color_value: c }),
    {
        Isotropic { albedo: Texture::Solid(SolidColor { color_value: c }) }
    }
}

impl Material {
    /// Decide whether and how the incoming ray continues. Random draws
    /// steer the diffuse, fuzzed and refractive cases, so the contract
    /// pins what holds of every outcome — and the fuzz-free metal's
    /// direction exactly.
    pub fn scatter(
        &self,
        r_in: Ray,
        rec: &HitRecord,
        attenuation: &mut Color,
        scattered: &mut Ray,
    ) -> (res: bool)
        requires
            mat_wf(*self),
            bounded(rec.normal, 0x2_0000),
            bounded(rec.p, 0x400_0000_0000_0000),
            bounded(r_in.dir, 0x100_0000),
        ensures
            self is Light ==> !res,
            self is Light ==> *final(attenuation) == *old(attenuation),
            self is Light ==> *final(scattered) == *old(scattered),
            self is Lamb ==> res,
            self is Lamb ==> final(scattered).orig == rec.p && final(scattered).tm == r_in.tm,
            self is Lamb ==> exists|s: Vec3|
                crate::vec3::is_unit_sample(s) && ((Vec3 {
                    x: (rec.normal.x + s.x) as i64,
                    y: (rec.normal.y + s.y) as i64,
                    z: (rec.normal.z + s.z) as i64,
                }) != (Vec3 { x: 0i64, y: 0i64, z: 0i64 }) && final(scattered).dir == (Vec3 {
                    x: (rec.normal.x + s.x) as i64,
                    y: (rec.normal.y + s.y) as i64,
                    z: (rec.normal.z + s.z) as i64,
                }) || (Vec3 {
                    x: (rec.normal.x + s.x) as i64,
                    y: (rec.normal.y + s.y) as i64,
                    z: (rec.normal.z + s.z) as i64,
                }) == (Vec3 { x: 0i64, y: 0i64, z: 0i64 }) && final(scattered).dir == rec.normal),
            self matches Material::Lamb(l) ==> *final(attenuation) == texture_value(
                l.albedo,
                rec.u as int,
                rec.v as int,
                rec.p,
            ),
            self matches Material::Met(mt) ==> *final(attenuation) == mt.albedo,
            self is Met ==> final(scattered).orig == rec.p && final(scattered).tm == r_in.tm,
            self is Met ==> res == (dot_s(final(scattered).dir, rec.normal) > 0),
            self matches Material::Met(mt) && mt.fuzz == 0 && r_in.dir != (Vec3 {
                x: 0i64,
                y: 0i64,
                z: 0i64,
            }) ==> final(scattered).dir == mirror_dir(r_in.dir, rec.normal),
            self matches Material::Met(mt) ==> (r_in.dir != (Vec3 { x: 0i64, y: 0i64, z: 0i64 })
                ==> exists|s: Vec3|
                bounded(s, UNIT as int) && crate::vec3::sq_len_s(s) <= 0x1_0000_0000
                    && final(scattered).dir == (Vec3 {
                    x: (mirror_dir(r_in.dir, rec.normal).x + fxmul(s.x as int, mt.fuzz as int)) as i64,
                    y: (mirror_dir(r_in.dir, rec.normal).y + fxmul(s.y as int, mt.fuzz as int)) as i64,
                    z: (mirror_dir(r_in.dir, rec.normal).z + fxmul(s.z as int, mt.fuzz as int)) as i64,
                })),
            self is Diel ==> res,
            self is Diel ==> *final(attenuation) == (Vec3 { x: UNIT, y: UNIT, z: UNIT }),
            self is Diel ==> final(scattered).orig == rec.p && final(scattered).tm == r_in.tm,
            self matches Material::Diel(d) ==> (r_in.dir != (Vec3 { x: 0i64, y: 0i64, z: 0i64 })
                ==> final(scattered).dir == mirror_dir(r_in.dir, rec.normal)
                    || final(scattered).dir == refract_dir(
                    r_in.dir,
                    rec.normal,
                    diel_ratio(*d, rec.front_face),
                )),
            self matches Material::Diel(d) ==> (r_in.dir != (Vec3 { x: 0i64, y: 0i64, z: 0i64 })
                && diel_cannot_refract(r_in.dir, rec.normal, diel_ratio(*d, rec.front_face))
                ==> final(scattered).dir == mirror_dir(r_in.dir, rec.normal)),
            self matches Material::Diel(d) ==> (r_in.dir != (Vec3 { x: 0i64, y: 0i64, z: 0i64 })
                && !diel_cannot_refract(r_in.dir, rec.normal, diel_ratio(*d, rec.front_face))
                && schlick_fx(
                diel_cos(r_in.dir, rec.normal),
                diel_ratio(*d, rec.front_face),
            ) == 0 ==> final(scattered).dir == refract_dir(
                r_in.dir,
                rec.normal,
                diel_ratio(*d, rec.front_face),
            )),
            self is Iso ==> res,
            self is Iso ==> final(scattered).orig == rec.p && final(scattered).tm == r_in.tm,
            self is Iso ==> crate::vec3::sq_len_s(final(scattered).dir) <= 0x1_0000_0000
                && bounded(final(scattered).dir, UNIT as int),
            self matches Material::Iso(i) ==> *final(attenuation) == texture_value(
                i.albedo,
                rec.u as int,
                rec.v as int,
                rec.p,
            ),
            res ==> bounded(final(scattered).dir, 0x400_0000),
    {
        match self {
            Material::Lamb(l) => {
                let rnd = Vec3::random_unit_vector();
                let mut scatter_direction = rec.normal.add(rnd);
                if scatter_direction.near_zero() {
                    scatter_direction = rec.normal;
                }
                *scattered = Ray::new(rec.p, scatter_direction, r_in.time());
                *attenuation = l.albedo.value(rec.u, rec.v, rec.p);
                true
            },
            Material::Met(mt) => {
                let din = r_in.direction();
                let u = if din.x == 0 && din.y == 0 && din.z == 0 {
                    Vec3 { x: 0, y: 0, z: 0 }
                } else {
                    din.unit()
                };
                let reflected = Vec3::reflect(u, rec.normal);
                let rv = Vec3::random_in_unit_sphere();
                let fz = rv.scale_fx(mt.fuzz);
                proof {
                    crate::vec3::lemma_fxmul_bound(rv.x as int, mt.fuzz as int, 0x1_0000, 0x1_0000);
                    crate::vec3::lemma_fxmul_bound(rv.y as int, mt.fuzz as int, 0x1_0000, 0x1_0000);
                    crate::vec3::lemma_fxmul_bound(rv.z as int, mt.fuzz as int, 0x1_0000, 0x1_0000);
                    vstd::arithmetic::div_mod::lemma_div_multiples_vanish(0x1_0000, 0x1_0000);
                    assert(tdiv(0x1_0000_0000, 0x1_0000) == 0x1_0000);
                }
                proof {
                    if mt.fuzz == 0 {
                        vstd::arithmetic::div_mod::lemma_div_of0(0x1_0000);
                        assert(rv.x * 0 == 0 && rv.y * 0 == 0 && rv.z * 0 == 0)
                            by (nonlinear_arith);
                        assert(fz.x == 0 && fz.y == 0 && fz.z == 0);
                    }
                }
                let dir = reflected.add(fz);
                *scattered = Ray::new(rec.p, dir, r_in.time());
                *attenuation = mt.albedo;
                Vec3::dot(scattered.direction(), rec.normal) > 0
            },
            Material::Diel(d) => {
                *attenuation = Vec3::ones();
                let rr0: i64 = if rec.front_face {
                    crate::num::div_i64(UNIT * UNIT, d.ir)
                } else {
                    d.ir
                };
                proof {
                    crate::num::lemma_tdiv_bound(0x1_0000_0000, d.ir as int);
                }
                let refraction_ratio: i64 = if rr0 > 0x10_0000 {
                    0x10_0000
                } else if rr0 < 1 {
                    1
                } else {
                    rr0
                };
                let din = r_in.direction();
                let unit_direction = if din.x == 0 && din.y == 0 && din.z == 0 {
                    Vec3 { x: 0, y: 0, z: 0 }
                } else {
                    din.unit()
                };
                let cos_theta = Vec3::cos_theta(unit_direction, rec.normal);
                let c1 = if cos_theta < 0 {
                    0
                } else {
                    cos_theta
                };
                proof {
                    crate::vec3::lemma_fxmul_bound(c1 as int, c1 as int, 0x1_0000, 0x1_0000);
                    vstd::arithmetic::div_mod::lemma_div_multiples_vanish(0x1_0000, 0x1_0000);
                    assert(tdiv(0x1_0000_0000, 0x1_0000) == 0x1_0000);
                    crate::num::lemma_tdiv_bound((c1 as int) * (c1 as int), UNIT as int);
                    assert((c1 as int) * (c1 as int) >= 0) by (nonlinear_arith);
                }
                let cc = crate::vec3::fxmul_exec(c1, c1);
                let sin2 = UNIT * UNIT - cc;
                let sin2c: u128 = if sin2 > 0 {
                    sin2 as u128
                } else {
                    0
                };
                let sroot = crate::num::isqrt_u128(sin2c);
                proof {
                    assert(0x1_0000 * 0x1_0000 == 0x1_0000_0000) by (nonlinear_arith);
                    crate::vec3::lemma_isqrt_le(sin2c as int, sroot as int, 0x1_0000);
                }
                let sin_theta = sroot as i64;
                let cannot_refract = crate::vec3::fxmul_exec(refraction_ratio, sin_theta) > UNIT;
                proof {
                    if din != (Vec3 { x: 0i64, y: 0i64, z: 0i64 }) {
                        assert(unit_direction == crate::vec3::unit_spec(din));
                        assert(refraction_ratio == diel_ratio(*d, rec.front_face));
                        assert(c1 == diel_cos(din, rec.normal));
                        crate::vec3::lemma_sqrt_floor(sin2c as int, sroot as int);
                        assert(cannot_refract == diel_cannot_refract(
                            din,
                            rec.normal,
                            diel_ratio(*d, rec.front_face),
                        ));
                    }
                }
                let refl = Dielectric::reflectance(c1, refraction_ratio);
                let coin = crate::rtweekend::random_double(0, UNIT);
                let direction = if cannot_refract || refl > coin {
                    Vec3::reflect(unit_direction, rec.normal)
                } else {
                    Vec3::refract(unit_direction, rec.normal, refraction_ratio)
                };
                *scattered = Ray::new(rec.p, direction, r_in.time());
                true
            },
            Material::Light(_) => false,
            Material::Iso(i) => {
                let dir = Vec3::random_in_unit_sphere();
                *scattered = Ray::new(rec.p, dir, r_in.time());
                *attenuation = i.albedo.value(rec.u, rec.v, rec.p);
                true
            },
        }
    }

    /// Light sources answer their texture; every other material emits
    /// black.
    pub fn emitted(&self, u_: i64, v_: i64, p_: &Vec3) -> (c: Color)
        requires
            mat_wf(*self),
            bounded(*p_, 0x400_0000_0000_0000),
        ensures
            self matches Material::Light(dl) ==> c == texture_value(
                dl.emit,
                u_ as int,
                v_ as int,
                *p_,
            ),
            !(self is Light) ==> c == (Vec3 { x: 0i64, y: 0i64, z: 0i64 }),
    {
        match self {
            Material::Light(dl) => dl.emit.value(u_, v_, *p_),
            _ => Vec3::zero(),
        }
    }
}

impl Dielectric {
    /// Schlick's approximation to the Fresnel reflectance, in fixed point.
    pub fn reflectance(cosine: i64, ref_idx: i64) -> (r: i64)
        requires
            0 <= cosine <= UNIT,
            1 <= ref_idx <= 0x10_0000,
        ensures
            r == schlick_fx(cosine as int, ref_idx as int),
            0 <= r,
    {
        let r0n = UNIT - ref_idx;
        let r0d = UNIT + ref_idx;
        proof {
            crate::num::lemma_tdiv_bound((r0n as int) * (UNIT as int), r0d as int);
        }
        let r0a = crate::num::div_i64(r0n * UNIT, r0d);
        let r0 = crate::vec3::fxmul_exec(r0a, r0a);
        let omc = UNIT - cosine;
        proof {
            crate::vec3::lemma_fxmul_bound(omc as int, omc as int, 0x1_0000, 0x1_0000);
            vstd::arithmetic::div_mod::lemma_div_multiples_vanish(0x1_0000, 0x1_0000);
            assert(tdiv(0x1_0000_0000, 0x1_0000) == 0x1_0000);
        }
        let p2 = crate::vec3::fxmul_exec(omc, omc);
        proof {
            crate::vec3::lemma_fxmul_bound(p2 as int, p2 as int, 0x1_0000, 0x1_0000);
            crate::num::lemma_tdiv_bound((p2 as int) * (p2 as int), UNIT as int);
            assert((p2 as int) * (p2 as int) >= 0 && (omc as int) * (omc as int) >= 0)
                by (nonlinear_arith);
            crate::num::lemma_tdiv_bound((omc as int) * (omc as int), UNIT as int);
        }
        let p4 = crate::vec3::fxmul_exec(p2, p2);
        proof {
            crate::vec3::lemma_fxmul_bound(p4 as int, omc as int, 0x1_0000, 0x1_0000);
            assert((p4 as int) * (omc as int) >= 0) by (nonlinear_arith)
                requires
                    p4 >= 0,
                    omc >= 0,
            ;
            crate::num::lemma_tdiv_bound((p4 as int) * (omc as int), UNIT as int);
        }
        let p5 = crate::vec3::fxmul_exec(p4, omc);
        let r0c = if r0 < 0 {
            0
        } else if r0 > UNIT {
            UNIT
        } else {
            r0
        };
        proof {
            crate::num::lemma_tdiv_bound(((UNIT - r0c) * p5) as int, UNIT as int);
            assert((UNIT - r0c) * p5 >= 0) by (nonlinear_arith)
                requires
                    r0c <= UNIT,
                    p5 >= 0,
            ;
        }
        r0c + crate::vec3::fxmul_exec(UNIT - r0c, p5)
    }
}

} // verus!
