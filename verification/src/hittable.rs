//! Anything a ray can hit, and a plain list of such things that is searched from end
//! to end.
use vstd::prelude::*;
use crate::bvh::Nearest;
use crate::hit_record::HitRecord;
use crate::ray::Ray;
use crate::scalar::Fixed;

verus! {

/// A surface with an intersection test of its own.
pub trait Hittable {
    /// What the test finds for a ray and a range of parameters.
    spec fn outcome(&self, r: Ray, ray_tmin: Fixed, ray_tmax: Fixed) -> Option<HitRecord>;

    /// Tests the ray against the surface. On a hit the record is written to `rec`.
    fn hit(&self, r: &Ray, ray_tmin: Fixed, ray_tmax: Fixed, rec: &mut HitRecord) -> (found: bool)
        ensures
            found == self.outcome(*r, ray_tmin, ray_tmax).is_some(),
            found ==> Some(*final(rec)) == self.outcome(*r, ray_tmin, ray_tmax),
    ;
}

/// A list of surfaces.
pub struct HittableList<T: Hittable> {
    pub objects: Vec<T>,
}

/// The state of a search through the first `count` surfaces, in order: each is tested
/// against the range that ends at the nearest hit found so far, and a hit takes that
/// place.
pub open spec fn spec_scan<T: Hittable>(
    objects: Seq<T>,
    count: int,
    r: Ray,
    ray_tmin: Fixed,
    ray_tmax: Fixed,
) -> Nearest
    decreases count,
{
    if count <= 0 || count > objects.len() {
        Nearest { closest: ray_tmax, record: None }
    } else {
        let before = spec_scan(objects, count - 1, r, ray_tmin, ray_tmax);
        match objects[count - 1].outcome(r, ray_tmin, before.closest) {
            Some(h) => Nearest { closest: h.t, record: Some(h) },
            None => before,
        }
    }
}

impl<T: Hittable> HittableList<T> {
    /// Removes every surface.
    pub fn clear(&mut self)
        ensures
            final(self).objects@ == Seq::<T>::empty(),
    {
        self.objects.clear();
    }

    /// Appends a surface.
    pub fn add(&mut self, object: T)
        ensures
            final(self).objects@ == old(self).objects@.push(object),
    {
        self.objects.push(object)
    }

    /// Tests the ray against every surface in turn and keeps the nearest hit. On a hit
    /// the record is written to `rec`; otherwise `rec` is left as it was.
    pub fn hit(&self, r: &Ray, ray_tmin: Fixed, ray_tmax: Fixed, rec: &mut HitRecord) -> (found:
        bool)
        ensures
            found == spec_scan(
                self.objects@,
                self.objects.len() as int,
                *r,
                ray_tmin,
                ray_tmax,
            ).record.is_some(),
            found ==> Some(*final(rec)) == spec_scan(
                self.objects@,
                self.objects.len() as int,
                *r,
                ray_tmin,
                ray_tmax,
            ).record,
            !found ==> *final(rec) == *old(rec),
    {
        let mut temp_rec: HitRecord = *rec;
        let mut hit_anything = false;
        let mut closest_so_far = ray_tmax;
        let mut i: usize = 0;
        while i < self.objects.len()
            invariant
                i <= self.objects.len(),
                spec_scan(self.objects@, i as int, *r, ray_tmin, ray_tmax) == (Nearest {
                    closest: closest_so_far,
                    record: if hit_anything {
                        Some(*rec)
                    } else {
                        None
                    },
                }),
                !hit_anything ==> *rec == *old(rec),
            decreases self.objects.len() - i,
        {
            if self.objects[i].hit(r, ray_tmin, closest_so_far, &mut temp_rec) {
                hit_anything = true;
                closest_so_far = temp_rec.t;
                *rec = temp_rec;
            }
            i += 1;
        }
        hit_anything
    }
}

} // verus!
