//! The transient result of an intersection test.

use vstd::prelude::*;

use crate::num::{COORD_MAX, NORMAL_MAX};
use crate::material::MaterialEnum;
use crate::ray::Point3;
use crate::vec3::{Vec3, bounded, is_zero};

verus! {

/// A hit: the struck point, the normal oriented against the incoming ray,
/// the ray parameter, the side that was struck, and the surface material
/// (copied by value).  Stack-allocated and overwritten per test.
#[derive(Clone, Copy)]
pub struct HitRecord {
    pub p: Point3,
    pub normal: Vec3,
    pub t: i64,
    pub front_face: bool,
    pub material: MaterialEnum,
}

/// What the tracer relies on in every record a hit test hands out.
pub open spec fn rec_wf(rec: HitRecord) -> bool {
    bounded(rec.p, COORD_MAX as int) && bounded(rec.normal, NORMAL_MAX as int) && !is_zero(
        rec.normal,
    )
}

impl Default for HitRecord {
    fn default() -> (r: HitRecord)
        ensures
            is_zero(r.p),
            is_zero(r.normal),
            r.t == 0,
            !r.front_face,
            r.material is Default,
    {
        HitRecord {
            p: Vec3 { x: 0, y: 0, z: 0 },
            normal: Vec3 { x: 0, y: 0, z: 0 },
            t: 0,
            front_face: false,
            material: MaterialEnum::Default(crate::material::DefaultMaterial),
        }
    }
}

} // verus!
