use raytracer::aabb::AABB;
use raytracer::hittable::{HitRecord, Hittable};
use raytracer::ray::Ray;
use raytracer::sphere::Sphere;
use raytracer::vec3::Vec3;
use raytracer::UNIT;

fn v(x: i64, y: i64, z: i64) -> Vec3 {
    Vec3 { x, y, z }
}

#[test]
fn sphere_head_on_hit_reports_t_four_and_outward_normal() {
    // A unit sphere at the origin, a ray from (0,0,5) toward (0,0,-1).
    let s = Sphere::new(v(0, 0, 0), UNIT, 0);
    let mut rec = HitRecord::new();
    let r = Ray::new(v(0, 0, 5 * UNIT), v(0, 0, -UNIT), 0);
    let hit = s.hit(r, 0, 0x4000_0000, &mut rec);
    assert!(hit);
    assert_eq!(rec.t, 4);
    assert!(rec.front_face);
    assert_eq!(rec.normal, v(0, 0, UNIT));
    assert_eq!(rec.p, v(0, 0, UNIT));
}

#[test]
fn sphere_miss_reports_nothing() {
    let s = Sphere::new(v(0, 0, 0), UNIT, 0);
    let mut rec = HitRecord::new();
    let r = Ray::new(v(5 * UNIT, 0, 5 * UNIT), v(0, 0, -UNIT), 0);
    assert!(!s.hit(r, 0, 0x4000_0000, &mut rec));
}

#[test]
fn sphere_inside_interval_only() {
    let s = Sphere::new(v(0, 0, 0), UNIT, 0);
    let mut rec = HitRecord::new();
    let r = Ray::new(v(0, 0, 5 * UNIT), v(0, 0, -UNIT), 0);
    // The near crossing is at t = 4, the far one at t = 6; excluding both
    // leaves nothing.
    assert!(!s.hit(r, 7, 0x4000_0000, &mut rec));
    // Excluding only the near one finds the far one.
    assert!(s.hit(r, 5, 0x4000_0000, &mut rec));
    assert_eq!(rec.t, 6);
    assert!(!rec.front_face);
}

#[test]
fn aabb_hit_agrees_with_interval_reasoning() {
    let bx = AABB::new(v(-UNIT, -UNIT, -UNIT), v(UNIT, UNIT, UNIT));
    let toward = Ray::new(v(0, 0, 5 * UNIT), v(0, 0, -UNIT), 0);
    assert!(bx.hit(toward, 0, 0x4000_0000));
    let away = Ray::new(v(0, 0, 5 * UNIT), v(0, 0, UNIT), 0);
    assert!(!away_hits(&bx, away));
    // A negative-direction ray entering through the +x face.
    let neg = Ray::new(v(5 * UNIT, 0, 0), v(-UNIT, 0, 0), 0);
    assert!(bx.hit(neg, 0, 0x4000_0000));
    // Axis-aligned ray whose origin is outside the y slab never hits.
    let off = Ray::new(v(0, 3 * UNIT, 5 * UNIT), v(0, 0, -UNIT), 0);
    assert!(!bx.hit(off, 0, 0x4000_0000));
    // Zero direction with origin inside: every parameter works.
    let still = Ray::new(v(0, 0, 0), v(0, 0, 0), 0);
    assert!(bx.hit(still, 0, 0x4000_0000));
}

fn away_hits(bx: &AABB, r: Ray) -> bool {
    bx.hit(r, 0, 0x4000_0000)
}

#[test]
fn surrounding_box_takes_componentwise_extremes() {
    let a = AABB::new(v(-1, -2, -3), v(1, 2, 3));
    let b = AABB::new(v(-5, 0, 0), v(0, 7, 1));
    let u = AABB::surrounding_box(a, b);
    assert_eq!(u.min(), v(-5, -2, -3));
    assert_eq!(u.max(), v(1, 7, 3));
}

#[test]
fn list_scan_returns_closest_hit() {
    let near = Hittable::Sphere(Sphere::new(v(0, 0, 0), UNIT, 1));
    let far = Hittable::Sphere(Sphere::new(v(0, 0, -10 * UNIT), UNIT, 2));
    let mut list = raytracer::hittable_list::HittableList::new_default();
    list.add(far);
    list.add(near);
    let world = Hittable::List(list);
    let mut rec = HitRecord::new();
    let r = Ray::new(v(0, 0, 5 * UNIT), v(0, 0, -UNIT), 0);
    assert!(world.hit(r, 0, 0x4000_0000, &mut rec));
    assert_eq!(rec.t, 4);
    assert_eq!(rec.mat_ptr, 1);
}

#[test]
fn translate_shifts_world_hit_point_by_offset() {
    // The round trip: a hit against the shifted sphere lands exactly at
    // the unshifted hit point plus the offset.
    let plain = Sphere::new(v(0, 0, 0), UNIT, 0);
    let mut base = HitRecord::new();
    let r0 = Ray::new(v(0, 0, 5 * UNIT), v(0, 0, -UNIT), 0);
    assert!(plain.hit(r0, 0, 0x4000_0000, &mut base));

    let offset = v(3 * UNIT, UNIT, 0);
    let shifted = Hittable::Shifted(raytracer::hittable::Translate::new(
        Box::new(Hittable::Sphere(Sphere::new(v(0, 0, 0), UNIT, 0))),
        offset,
    ));
    let mut rec = HitRecord::new();
    let r1 = Ray::new(v(3 * UNIT, UNIT, 5 * UNIT), v(0, 0, -UNIT), 0);
    assert!(shifted.hit(r1, 0, 0x4000_0000, &mut rec));
    assert_eq!(rec.t, base.t);
    assert_eq!(rec.p, v(base.p.x + offset.x, base.p.y + offset.y, base.p.z + offset.z));
}

#[test]
fn moving_sphere_center_interpolates() {
    let ms = raytracer::moving_sphere::MovingSphere::new(
        v(0, 0, 0),
        v(100, 0, 0),
        0,
        10,
        UNIT,
        0,
    );
    assert_eq!(ms.center(0), v(0, 0, 0));
    assert_eq!(ms.center(10), v(100, 0, 0));
    assert_eq!(ms.center(5), v(50, 0, 0));
}

#[test]
fn bvh_agrees_with_linear_scan_on_random_spheres() {
    // The tree is an optimization, not a behavior change: on scenes of
    // random spheres it reports the same hit as a linear scan.
    for round in 0..40 {
        let count = 1 + (round * 5) % 37;
        let mut objects = Vec::new();
        for k in 0..count {
            let cx = ((k * 7919 + round * 104729) % 41) as i64 - 20;
            let cy = ((k * 7907 + round * 130073) % 41) as i64 - 20;
            let cz = ((k * 7901 + round * 15485863) % 41) as i64 - 20;
            objects.push(Hittable::Sphere(Sphere::new(
                v(cx * UNIT / 4, cy * UNIT / 4, cz * UNIT / 4),
                UNIT / 2,
                k,
            )));
        }
        let mut list = raytracer::hittable_list::HittableList::new_default();
        for o in &objects {
            if let Hittable::Sphere(s) = o {
                list.add(Hittable::Sphere(Sphere::new(s.center, s.radius, s.mat_ptr)));
            }
        }
        let scan_world = Hittable::List(list);
        let tree = raytracer::bvh::BvhNode::new(objects, 0, 1);
        let tree_world = Hittable::Node(Box::new(tree));

        let r = Ray::new(v(0, 0, 12 * UNIT), v(0, 0, -UNIT), 0);
        let mut rec_scan = HitRecord::new();
        let mut rec_tree = HitRecord::new();
        let hit_scan = scan_world.hit(r, 0, 0x4000_0000, &mut rec_scan);
        let hit_tree = tree_world.hit(r, 0, 0x4000_0000, &mut rec_tree);
        assert_eq!(hit_scan, hit_tree);
        if hit_scan {
            assert_eq!(rec_scan.t, rec_tree.t);
            assert_eq!(rec_scan.p, rec_tree.p);
            assert_eq!(rec_scan.mat_ptr, rec_tree.mat_ptr);
        }
    }
}

#[test]
fn rotate_y_caches_the_rotated_envelope() {
    // A quarter turn (sin 1, cos 0) sends a corner (x, y, z) to (z, y, -x);
    // the cached box must be the envelope of the rotated corners.
    let rc = raytracer::arrect::XZRect::new(UNIT, 3 * UNIT, -2 * UNIT, 5 * UNIT, 0, 0);
    let rt = raytracer::hittable::RotateY::new(
        Box::new(Hittable::RectXZ(rc)),
        UNIT,
        0,
    );
    assert!(rt.hasbox);
    assert_eq!(rt.bbox.min(), v(-2 * UNIT, -1, -3 * UNIT));
    assert_eq!(rt.bbox.max(), v(5 * UNIT, 1, -UNIT));
}

#[test]
fn rect_accepts_the_closed_interval_ends() {
    // The plane crossing sits exactly at t = 5; an interval closing there
    // still accepts it, one excluding it does not.
    let rc = raytracer::arrect::XYRect::new(-UNIT, UNIT, -UNIT, UNIT, 0, 0);
    let r = Ray::new(v(0, 0, 5 * UNIT), v(0, 0, -UNIT), 0);
    let mut rec = HitRecord::new();
    assert!(rc.hit(r, 5, 0x4000_0000, &mut rec));
    assert_eq!(rec.t, 5);
    assert!(rc.hit(r, 0, 5, &mut rec));
    assert!(!rc.hit(r, 6, 0x4000_0000, &mut rec));
}
