//! An axis-aligned box, assembled from its six rectangular faces.

use vstd::prelude::*;
use crate::arrect::{XYRect, XZRect, YZRect};
use crate::hittable::Hittable;
use crate::hittable_list::HittableList;
use crate::vec3::{bounded, Point3};

verus! {

pub struct _Box {
    pub box_min: Point3,
    pub box_max: Point3,
    pub sides: HittableList,
}

/// The six faces the constructor builds, in construction order.
pub open spec fn box_sides(p0: Point3, p1: Point3, mat: usize) -> Seq<Hittable> {
    seq![
        Hittable::RectXY(XYRect { mp: mat, x0: p0.x, x1: p1.x, y0: p0.y, y1: p1.y, k: p1.z }),
        Hittable::RectXY(XYRect { mp: mat, x0: p0.x, x1: p1.x, y0: p0.y, y1: p1.y, k: p0.z }),
        Hittable::RectXZ(XZRect { mp: mat, x0: p0.x, x1: p1.x, z0: p0.z, z1: p1.z, k: p1.y }),
        Hittable::RectXZ(XZRect { mp: mat, x0: p0.x, x1: p1.x, z0: p0.z, z1: p1.z, k: p0.y }),
        Hittable::RectYZ(YZRect { mp: mat, y0: p0.y, y1: p1.y, z0: p0.z, z1: p1.z, k: p1.x }),
        Hittable::RectYZ(YZRect { mp: mat, y0: p0.y, y1: p1.y, z0: p0.z, z1: p1.z, k: p0.x }),
    ]
}

impl _Box {
    pub fn new(p0: Point3, p1: Point3, ptr: usize) -> (r: _Box)
        ensures
            r.box_min == p0,
            r.box_max == p1,
            r.sides.objects@ == box_sides(p0, p1, ptr),
    {
        let mut sides = HittableList::new_default();
        sides.add(Hittable::RectXY(XYRect::new(p0.x, p1.x, p0.y, p1.y, p1.z, ptr)));
        sides.add(Hittable::RectXY(XYRect::new(p0.x, p1.x, p0.y, p1.y, p0.z, ptr)));
        sides.add(Hittable::RectXZ(XZRect::new(p0.x, p1.x, p0.z, p1.z, p1.y, ptr)));
        sides.add(Hittable::RectXZ(XZRect::new(p0.x, p1.x, p0.z, p1.z, p0.y, ptr)));
        sides.add(Hittable::RectYZ(YZRect::new(p0.y, p1.y, p0.z, p1.z, p1.x, ptr)));
        sides.add(Hittable::RectYZ(YZRect::new(p0.y, p1.y, p0.z, p1.z, p0.x, ptr)));
        proof {
            assert(sides.objects@ =~= box_sides(p0, p1, ptr));
        }
        _Box { box_min: p0, box_max: p1, sides }
    }
}

} // verus!
