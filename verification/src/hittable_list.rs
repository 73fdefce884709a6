//! An unordered group of geometry, queried by linear scan.

use vstd::prelude::*;
use crate::hittable::Hittable;

verus! {

pub struct HittableList {
    pub objects: Vec<Hittable>,
}

impl HittableList {
    pub fn add(&mut self, object: Hittable)
        ensures
            final(self).objects@ == old(self).objects@.push(object),
    {
        self.objects.push(object);
    }

    pub fn new(object: Hittable) -> (r: HittableList)
        ensures
            r.objects@ == seq![object],
    {
        let mut objects_tmp: Vec<Hittable> = Vec::new();
        objects_tmp.push(object);
        proof {
            assert(objects_tmp@ =~= seq![object]);
        }
        HittableList { objects: objects_tmp }
    }

    pub fn new_default() -> (r: HittableList)
        ensures
            r.objects@ == Seq::<Hittable>::empty(),
    {
        let objects_tmp: Vec<Hittable> = Vec::new();
        proof {
            assert(objects_tmp@ =~= Seq::<Hittable>::empty());
        }
        HittableList { objects: objects_tmp }
    }

    pub fn clear(&mut self)
        ensures
            final(self).objects@ == Seq::<Hittable>::empty(),
    {
        self.objects.clear();
        proof {
            assert(self.objects@ =~= Seq::<Hittable>::empty());
        }
    }
}

} // verus!
