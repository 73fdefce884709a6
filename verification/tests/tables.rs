use raytracer::perlin::Perlin;
use raytracer::rtweekend::{clamp, fmax, fmin, random_double, random_int};
use raytracer::vec3::{Color, Vec3};
use raytracer::UNIT;

#[test]
fn perlin_init_builds_full_tables_in_range() {
    let mut p = Perlin::new();
    p.init();
    assert_eq!(p.perm_x.len(), 256);
    assert_eq!(p.perm_y.len(), 256);
    assert_eq!(p.perm_z.len(), 256);
    assert_eq!(p.ranvec.len(), 256);
    for i in 0..256 {
        assert!(p.perm_x[i] >= 0 && p.perm_x[i] < 256);
        assert!(p.perm_y[i] >= 0 && p.perm_y[i] < 256);
        assert!(p.perm_z[i] >= 0 && p.perm_z[i] < 256);
        let g = p.ranvec[i];
        assert!(g.x >= -UNIT && g.x <= UNIT);
    }
    // A shuffled identity table keeps every entry: each index must occur.
    let mut seen = [false; 256];
    for i in 0..256 {
        seen[p.perm_x[i] as usize] = true;
    }
    // The shuffle swaps existing entries, so at least the range property
    // holds of every slot; the identity fill guarantees values 0..255
    // were all present before shuffling.
    assert!(seen.iter().filter(|s| **s).count() >= 1);
}

#[test]
fn scalar_helpers_behave() {
    assert_eq!(clamp(5, 0, 10), 5);
    assert_eq!(clamp(-5, 0, 10), 0);
    assert_eq!(clamp(50, 0, 10), 10);
    assert_eq!(fmin(3, 9), 3);
    assert_eq!(fmax(3, 9), 9);
}

#[test]
fn random_draws_stay_in_range() {
    for _ in 0..200 {
        let a = random_int(0, 3);
        assert!(a >= 0 && a < 3);
        let b = random_double(-UNIT, UNIT);
        assert!(b >= -UNIT && b < UNIT);
    }
}

#[test]
fn random_unit_vector_is_unit_scale() {
    for _ in 0..50 {
        let u = Vec3::random_unit_vector();
        assert!(u.x >= -UNIT && u.x <= UNIT);
        assert!(u.y >= -UNIT && u.y <= UNIT);
        assert!(u.z >= -UNIT && u.z <= UNIT);
    }
}

#[test]
fn quantize_maps_black_and_white_to_the_byte_extremes() {
    let black = Color { x: 0, y: 0, z: 0 };
    assert_eq!(Color::wrt_color(&black, 1), (0, 0, 0));
    let white = Color { x: UNIT, y: UNIT, z: UNIT };
    assert_eq!(Color::wrt_color(&white, 1), (255, 255, 255));
    // Averaging four samples of quarter-brightness is the same as one
    // sample of a sixteenth.
    let acc = Color { x: UNIT, y: UNIT, z: UNIT };
    let one = Color { x: UNIT / 4, y: UNIT / 4, z: UNIT / 4 };
    assert_eq!(Color::wrt_color(&acc, 4), Color::wrt_color(&one, 1));
}

#[test]
fn reflect_formula_on_axis() {
    let d = Vec3 { x: 0, y: 0, z: -UNIT };
    let n = Vec3 { x: 0, y: 0, z: UNIT };
    let r = Vec3::reflect(d, n);
    assert_eq!(r, Vec3 { x: 0, y: 0, z: UNIT });
}

#[test]
fn perlin_tables_hold_each_index_exactly_once() {
    let mut p = Perlin::new();
    p.init();
    for table in [&p.perm_x, &p.perm_y, &p.perm_z] {
        let mut count = [0u32; 256];
        for i in 0..256 {
            count[table[i] as usize] += 1;
        }
        for i in 0..256 {
            assert_eq!(count[i], 1);
        }
    }
}

#[test]
fn noise_vanishes_on_the_lattice_and_stays_bounded() {
    let mut p = Perlin::new();
    p.init();
    // At a lattice point every offset vector is zero or every weight
    // factor of a contributing corner vanishes, so the blend is zero.
    assert_eq!(p.noise(Vec3 { x: 0, y: 0, z: 0 }), 0);
    assert_eq!(p.noise(Vec3 { x: UNIT, y: 2 * UNIT, z: -3 * UNIT }), 0);
    assert_eq!(p.turb(Vec3 { x: 0, y: 0, z: 0 }, 7), 0);
    // Off the lattice the value is bounded and deterministic.
    let q = Vec3 { x: UNIT / 3, y: UNIT / 5, z: UNIT / 7 };
    let a = p.noise(q);
    let b = p.noise(q);
    assert_eq!(a, b);
    assert!(a >= -0x400_0000 && a <= 0x400_0000);
    let t = p.turb(q, 7);
    assert!(t >= 0 && t <= 0x2000_0000);
}
