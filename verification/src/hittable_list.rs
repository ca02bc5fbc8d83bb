//! The scene: an owned, ordered collection of spheres with closest-hit
//! resolution.

use vstd::prelude::*;

use crate::hittable::{HitRecord, rec_wf};
use crate::interval::Interval;
use crate::num::{COORD_MAX, T_MAX};
use crate::ray::Ray;
use crate::sphere::{
    Sphere, shits, shit_t, srec_matches, lemma_hit_narrow, lemma_hit_widen, lemma_hit_inside,
};
use crate::vec3::{bounded, is_zero, lemma_nonzero_dot};

verus! {

pub struct HittableList {
    pub objects: Vec<Sphere>,
}

impl HittableList {
    pub open spec fn wf(&self) -> bool {
        forall|i: int|
            0 <= i < self.objects@.len() ==> (#[trigger] self.objects@[i]).wf()
    }

    pub fn new() -> (r: HittableList)
        ensures
            r.objects@.len() == 0,
            r.wf(),
    {
        HittableList { objects: Vec::new() }
    }

    /// Whether every object is within the tracer's bounds; callers
    /// outside the proof world test this before tracing.
    pub fn trace_ready(&self) -> (b: bool)
        ensures
            b == self.wf(),
    {
        let n = self.objects.len();
        let mut i: usize = 0;
        while i < n
            invariant
                n == self.objects@.len(),
                0 <= i <= n,
                forall|k: int| 0 <= k < i ==> (#[trigger] self.objects@[k]).wf(),
            decreases n - i,
        {
            if !self.objects[i].trace_ready() {
                return false;
            }
            i = i + 1;
        }
        true
    }

    /// Append an object; the scene keeps insertion order.
    pub fn add(&mut self, object: Sphere)
        ensures
            final(self).objects@ == old(self).objects@.push(object),
    {
        self.objects.push(object);
    }

    /// Linear scan for the globally nearest hit: the search interval's
    /// upper bound shrinks to the closest parameter found so far, so the
    /// record handed back belongs to the nearest intersection along the
    /// ray, not merely the first object that hits.
    pub fn hit(&self, r: &Ray, interval: Interval, rec: &mut HitRecord) -> (b: bool)
        requires
            self.wf(),
            bounded(r.origin, COORD_MAX as int),
            bounded(r.direction, COORD_MAX as int),
            !is_zero(r.direction),
            0 <= interval.lo,
            interval.hi <= T_MAX,
        ensures
            b == exists|i: int|
                0 <= i < self.objects@.len() && shits(#[trigger] self.objects@[i], *r, interval),
            b ==> exists|i: int|
                0 <= i < self.objects@.len() && shits(#[trigger] self.objects@[i], *r, interval)
                    && final(rec).t == shit_t(self.objects@[i], *r, interval) && srec_matches(
                    self.objects@[i],
                    *r,
                    final(rec).t as int,
                    *final(rec),
                ),
            b ==> forall|i: int|
                0 <= i < self.objects@.len() && shits(#[trigger] self.objects@[i], *r, interval)
                    ==> final(rec).t <= shit_t(self.objects@[i], *r, interval),
            b ==> rec_wf(*final(rec)),
            b ==> interval.spec_surrounds(final(rec).t as int),
            !b ==> *final(rec) == *old(rec),
    {
        let mut hit_anything = false;
        let mut closest_so_far = interval.max();
        let mut temp_rec = HitRecord::default();
        let mut best = HitRecord::default();
        let n = self.objects.len();
        proof {
            lemma_nonzero_dot(r.direction);
        }
        let mut i: usize = 0;
        while i < n
            invariant
                n == self.objects@.len(),
                0 <= i <= n,
                self.wf(),
                bounded(r.origin, COORD_MAX as int),
                bounded(r.direction, COORD_MAX as int),
                !is_zero(r.direction),
                crate::vec3::svdot(r.direction, r.direction) >= 1,
                0 <= interval.lo,
                interval.hi <= T_MAX,
                !hit_anything ==> closest_so_far == interval.hi,
                !hit_anything ==> forall|j: int|
                    0 <= j < i ==> !shits(#[trigger] self.objects@[j], *r, interval),
                hit_anything ==> interval.lo < closest_so_far < interval.hi,
                hit_anything ==> best.t == closest_so_far,
                hit_anything ==> exists|j: int|
                    0 <= j < i && shits(#[trigger] self.objects@[j], *r, interval) && best.t
                        == shit_t(self.objects@[j], *r, interval) && srec_matches(
                        self.objects@[j],
                        *r,
                        best.t as int,
                        best,
                    ),
                hit_anything ==> forall|j: int|
                    0 <= j < i && shits(#[trigger] self.objects@[j], *r, interval)
                        ==> closest_so_far <= shit_t(self.objects@[j], *r, interval),
                hit_anything ==> rec_wf(best),
            decreases n - i,
        {
            let obj = self.objects[i];
            let sub = Interval::new(interval.min(), closest_so_far);
            if obj.hit(r, sub, &mut temp_rec) {
                proof {
                    lemma_hit_widen(obj, *r, sub, interval);
                }
                hit_anything = true;
                closest_so_far = temp_rec.t;
                best = temp_rec;
            } else {
                proof {
                    if shits(obj, *r, interval) {
                        lemma_hit_inside(obj, *r, interval);
                        if shit_t(obj, *r, interval) < closest_so_far {
                            lemma_hit_narrow(obj, *r, interval, sub);
                        }
                    }
                }
            }
            i = i + 1;
        }
        if hit_anything {
            *rec = best;
            true
        } else {
            false
        }
    }
}

} // verus!
