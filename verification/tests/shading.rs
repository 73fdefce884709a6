use raytracer::constant_medium::medium_decide_exec;
use raytracer::hittable::{HitRecord, Hittable};
use raytracer::material::{Dielectric, DiffuseLight, Lambertian, Material, Metal};
use raytracer::ray::Ray;
use raytracer::sphere::Sphere;
use raytracer::texture::{SolidColor, Texture};
use raytracer::vec3::{Color, Vec3};
use raytracer::{ray_color, UNIT};

fn v(x: i64, y: i64, z: i64) -> Vec3 {
    Vec3 { x, y, z }
}

fn head_on_record() -> HitRecord {
    HitRecord {
        p: v(0, 0, UNIT),
        normal: v(0, 0, UNIT),
        front_face: true,
        t: 4,
        mat_ptr: 0,
        u: 0,
        v: 0,
    }
}

#[test]
fn metal_with_zero_fuzz_mirrors_exactly() {
    let m = Material::Met(Metal::new(v(UNIT, UNIT, UNIT), 0));
    let rec = head_on_record();
    let r_in = Ray::new(v(0, 0, 5 * UNIT), v(0, 0, -UNIT), 0);
    let mut att = Color { x: 0, y: 0, z: 0 };
    let mut sc = Ray::default_new();
    let res = m.scatter(r_in, &rec, &mut att, &mut sc);
    assert!(res);
    assert_eq!(sc.dir, v(0, 0, UNIT));
    assert_eq!(att, v(UNIT, UNIT, UNIT));
}

#[test]
fn metal_absorbs_grazing_reflection() {
    let m = Material::Met(Metal::new(v(UNIT, UNIT, UNIT), 0));
    let mut rec = head_on_record();
    rec.normal = v(0, 0, -UNIT);
    let r_in = Ray::new(v(0, 0, 5 * UNIT), v(0, 0, -UNIT), 0);
    let mut att = Color { x: 0, y: 0, z: 0 };
    let mut sc = Ray::default_new();
    let res = m.scatter(r_in, &rec, &mut att, &mut sc);
    assert!(!res);
}

#[test]
fn dielectric_with_unit_index_transmits_head_on_undeviated() {
    let m = Material::Diel(Dielectric::new(UNIT));
    let rec = head_on_record();
    let r_in = Ray::new(v(0, 0, 5 * UNIT), v(0, 0, -UNIT), 0);
    let mut att = Color { x: 0, y: 0, z: 0 };
    let mut sc = Ray::default_new();
    let res = m.scatter(r_in, &rec, &mut att, &mut sc);
    assert!(res);
    assert_eq!(att, v(UNIT, UNIT, UNIT));
    assert_eq!(sc.dir, v(0, 0, -UNIT));
}

#[test]
fn diffuse_light_never_scatters_and_emits_its_color() {
    let m = Material::Light(DiffuseLight::new_by_color(v(4 * UNIT, 4 * UNIT, 4 * UNIT)));
    let rec = head_on_record();
    let r_in = Ray::new(v(0, 0, 5 * UNIT), v(0, 0, -UNIT), 0);
    let mut att = Color { x: 7, y: 7, z: 7 };
    let mut sc = Ray::default_new();
    assert!(!m.scatter(r_in, &rec, &mut att, &mut sc));
    assert_eq!(att, v(7, 7, 7));
    let e = m.emitted(0, 0, &v(0, 0, 0));
    assert_eq!(e, v(4 * UNIT, 4 * UNIT, 4 * UNIT));
}

#[test]
fn lambertian_emits_black() {
    let m = Material::Lamb(Lambertian::new(v(UNIT / 2, UNIT / 2, UNIT / 2)));
    assert_eq!(m.emitted(0, 0, &v(0, 0, 0)), v(0, 0, 0));
}

#[test]
fn medium_maximal_draw_scatters_at_the_clamped_entry() {
    // Density so thick the reciprocal is zero: the flight distance is
    // zero and scattering happens right at the chord's entry.
    let r = medium_decide_exec(10, 100, 0, 0x4000_0000, 0, 1000, 1);
    assert_eq!(r, Some(10));
}

#[test]
fn medium_long_flight_passes_through() {
    // A thin medium and an unlucky draw: the flight distance outruns the
    // chord and the ray passes through unscattered.
    let r = medium_decide_exec(10, 12, 0, 0x4000_0000, 0x1_0000_0000, 1000, 1);
    assert_eq!(r, None);
}

#[test]
fn medium_empty_chord_never_scatters() {
    let r = medium_decide_exec(50, 40, 0, 0x4000_0000, 0, 1000, 1);
    assert_eq!(r, None);
}

#[test]
fn background_returned_for_misses_and_black_for_single_bounce_hits() {
    // A single diffuse sphere lit by a white background with depth 1: a
    // miss answers exactly the background, a hit exactly black.
    let world = Hittable::Sphere(Sphere::new(v(0, 0, 0), UNIT, 0));
    let materials = vec![Material::Lamb(Lambertian::new(v(UNIT / 2, UNIT / 2, UNIT / 2)))];
    let white = v(UNIT, UNIT, UNIT);
    let miss = Ray::new(v(5 * UNIT, 0, 5 * UNIT), v(0, 0, -UNIT), 0);
    assert_eq!(ray_color(miss, white, &world, &materials, 1), white);
    let hit = Ray::new(v(0, 0, 5 * UNIT), v(0, 0, -UNIT), 0);
    assert_eq!(ray_color(hit, white, &world, &materials, 1), v(0, 0, 0));
    // Depth zero is black everywhere.
    assert_eq!(ray_color(miss, white, &world, &materials, 0), v(0, 0, 0));
}

#[test]
fn solid_and_checker_textures_answer_exactly() {
    let red = v(UNIT, 0, 0);
    let blue = v(0, 0, UNIT);
    let solid = Texture::Solid(SolidColor::new(red));
    assert_eq!(solid.value(0, 0, v(0, 0, 0)), red);
    let checker = Texture::Checker(raytracer::texture::CheckerTexture::new_by_color(red, blue));
    // The origin sits in an even cell; one half-period along x flips it.
    let a = checker.value(0, 0, v(0, 0, 0));
    let b = checker.value(0, 0, v(raytracer::texture::CHECKER_CELL, 0, 0));
    assert_eq!(a, red);
    assert_eq!(b, blue);
    // An interior point with all three scaled sines positive samples the
    // even texture, as the reference pattern does.
    let inner = checker.value(0, 0, v(13107, 13107, 13107));
    assert_eq!(inner, red);
    // One coordinate into the next cell makes the sum odd.
    let shifted = checker.value(
        0,
        0,
        v(13107 + raytracer::texture::CHECKER_CELL, 13107, 13107),
    );
    assert_eq!(shifted, blue);
}

#[test]
fn image_texture_samples_the_right_pixel() {
    // A 2x1 image: left pixel pure red, right pixel pure green.
    let data = vec![255, 0, 0, 0, 255, 0];
    let img = Texture::Image(raytracer::texture::ImageTexture::new(data, 2, 1));
    let left = img.value(0, 0, v(0, 0, 0));
    let right = img.value(UNIT, 0, v(0, 0, 0));
    assert_eq!(left.x, UNIT);
    assert_eq!(left.y, 0);
    assert_eq!(right.x, 0);
    assert_eq!(right.y, UNIT);
}

#[test]
fn metal_fuzz_is_clamped_onto_the_unit_range() {
    let a = v(UNIT, UNIT, UNIT);
    assert_eq!(Metal::new(a, -5 * UNIT).fuzz, 0);
    assert_eq!(Metal::new(a, 3 * UNIT).fuzz, UNIT);
    assert_eq!(Metal::new(a, UNIT / 2).fuzz, UNIT / 2);
}

#[test]
fn marble_texture_is_mid_gray_at_the_origin() {
    // At the origin the turbulence and the scaled depth are both zero, so
    // the marble formula answers exactly half intensity.
    let nt = raytracer::texture::NoiseTexture::new(4 * UNIT);
    let tex = Texture::Noise(nt);
    let c = tex.value(0, 0, v(0, 0, 0));
    assert_eq!(c, v(UNIT / 2, UNIT / 2, UNIT / 2));
    // Elsewhere the channel stays inside the displayable range.
    let c2 = tex.value(0, 0, v(12345, -54321, 98765));
    assert!(c2.x >= 0 && c2.x <= UNIT);
    assert_eq!(c2.x, c2.y);
    assert_eq!(c2.y, c2.z);
}

#[test]
fn marble_peaks_a_quarter_period_into_the_pattern() {
    // At a lattice point the turbulence is zero, so the sine's argument
    // is exactly the scaled depth; a quarter period in, the channel
    // reaches its crest of one (minus one grid step of rounding).
    let nt = raytracer::texture::NoiseTexture::new(102943);
    let tex = Texture::Noise(nt);
    let c = tex.value(0, 0, v(0, 0, UNIT));
    assert_eq!(c.x, 65535);
}
