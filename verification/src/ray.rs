//! A ray: origin plus direction, with fixed-point point evaluation.

use vstd::prelude::*;

use crate::colour::{Colour, valid_colour};
use crate::hittable::HitRecord;
use crate::hittable_list::HittableList;
use crate::interval::Interval;
use crate::material::{DefaultMaterial, MaterialEnum};
use crate::num::{
    SCALE, COORD_MAX, T_MAX, tdiv, div_trunc, lemma_tdiv_bound, lemma_tdiv_shrinks,
    lemma_unit_times,
};
use crate::sphere::{Sphere, sdisc, sroot1, shits, shit_t, srec_matches};
use crate::vec3::{Vec3, sv, is_zero, bounded, tunit, lemma_mul_bound, lemma_nonzero_dot};

verus! {

pub type Point3 = Vec3;

#[derive(Clone, Copy, PartialEq, Eq, Structural, Debug)]
pub struct Ray {
    pub origin: Point3,
    pub direction: Vec3,
}

/// The point the ray reaches at parameter `t`:
/// `p_i = origin_i + tdiv(t * direction_i, SCALE)`.
pub open spec fn ray_at(r: Ray, t: int) -> (int, int, int) {
    (
        r.origin.x + tdiv(t * r.direction.x, SCALE as int),
        r.origin.y + tdiv(t * r.direction.y, SCALE as int),
        r.origin.z + tdiv(t * r.direction.z, SCALE as int),
    )
}

impl Ray {
    pub fn new(origin: Point3, direction: Vec3) -> (r: Ray)
        ensures
            r.origin == origin,
            r.direction == direction,
    {
        Ray { origin, direction }
    }

    pub fn origin(&self) -> (r: Point3)
        ensures
            r == self.origin,
    {
        self.origin
    }

    pub fn direction(&self) -> (r: Vec3)
        ensures
            r == self.direction,
    {
        self.direction
    }

    /// Evaluate the ray at parameter `t` (fixed-point).
    pub fn at(&self, t: i64) -> (p: Point3)
        requires
            i64::MIN <= self.origin.x + tdiv(t * self.direction.x, SCALE as int) <= i64::MAX,
            i64::MIN <= self.origin.y + tdiv(t * self.direction.y, SCALE as int) <= i64::MAX,
            i64::MIN <= self.origin.z + tdiv(t * self.direction.z, SCALE as int) <= i64::MAX,
        ensures
            sv(p) == ray_at(*self, t as int),
    {
        let px = (self.origin.x as i128) + div_trunc(
            (t as i128) * (self.direction.x as i128),
            SCALE as i128,
        );
        let py = (self.origin.y as i128) + div_trunc(
            (t as i128) * (self.direction.y as i128),
            SCALE as i128,
        );
        let pz = (self.origin.z as i128) + div_trunc(
            (t as i128) * (self.direction.z as i128),
            SCALE as i128,
        );
        Vec3 { x: px as i64, y: py as i64, z: pz as i64 }
    }
}

/// The sky: a vertical lerp from white at the horizon to sky blue,
/// driven by the unit direction's `y` component.
pub open spec fn sbackground(r: Ray) -> (int, int, int) {
    let u = tunit(sv(r.direction));
    let aa = tdiv(u.1 + SCALE, 2);
    (
        tdiv(SCALE as int * (SCALE - aa), SCALE as int) + tdiv(500 * aa, SCALE as int),
        tdiv(SCALE as int * (SCALE - aa), SCALE as int) + tdiv(700 * aa, SCALE as int),
        tdiv(SCALE as int * (SCALE - aa), SCALE as int) + tdiv(1000 * aa, SCALE as int),
    )
}

/// The interval the radiance loop searches: the lower bound skips one
/// fixed-point step to avoid re-hitting the struck surface.
pub open spec fn strace_interval() -> Interval {
    Interval { lo: 1, hi: T_MAX }
}

/// Whether any scene object stands in the ray's way.
pub open spec fn sany_hit(world: HittableList, r: Ray) -> bool {
    exists|i: int|
        0 <= i < world.objects@.len() && shits(
            #[trigger] world.objects@[i],
            r,
            strace_interval(),
        )
}

/// Whether object `i`'s hit along `r` is nearest among all hits.
pub open spec fn is_nearest_hit(world: HittableList, r: Ray, i: int) -> bool {
    &&& 0 <= i < world.objects@.len()
    &&& shits(world.objects@[i], r, strace_interval())
    &&& forall|j: int|
        0 <= j < world.objects@.len() && shits(#[trigger] world.objects@[j], r, strace_interval())
            ==> shit_t(world.objects@[i], r, strace_interval()) <= shit_t(
            world.objects@[j],
            r,
            strace_interval(),
        )
}

/// Every object whose hit along `r` is nearest absorbs the ray.
pub open spec fn nearest_hit_absorbs(world: HittableList, r: Ray) -> bool {
    forall|i: int|
        #[trigger] is_nearest_hit(world, r, i) ==> world.objects@[i].material is Default
}

/// A component-wise cap on the attenuation any scatter of `m` writes.
pub open spec fn mat_attenuation_below(m: MaterialEnum, bnd: Vec3) -> bool {
    match m {
        MaterialEnum::Default(_) => true,
        MaterialEnum::Lambertian(l) => l.albedo.x <= bnd.x && l.albedo.y <= bnd.y && l.albedo.z
            <= bnd.z,
        MaterialEnum::Metal(mt) => mt.albedo.x <= bnd.x && mt.albedo.y <= bnd.y && mt.albedo.z
            <= bnd.z,
        MaterialEnum::Dielectric(_) => SCALE <= bnd.x && SCALE <= bnd.y && SCALE <= bnd.z,
    }
}

/// Every object whose hit along `r` is nearest scatters with an
/// attenuation within `bnd`.
pub open spec fn nearest_hit_attenuation_below(world: HittableList, r: Ray, bnd: Vec3) -> bool {
    forall|i: int|
        #[trigger] is_nearest_hit(world, r, i) ==> mat_attenuation_below(
            world.objects@[i].material,
            bnd,
        )
}

impl Ray {
    /// The background gradient this ray sees.
    fn background(&self) -> (c: Colour)
        requires
            bounded(self.direction, COORD_MAX as int),
            !is_zero(self.direction),
        ensures
            sv(c) == sbackground(*self),
            valid_colour(c),
    {
        proof {
            lemma_nonzero_dot(self.direction);
        }
        let u = self.direction.unit_vector();
        let aa = div_trunc((u.y + SCALE) as i128, 2) as i64;
        proof {
            lemma_tdiv_bound((u.y + SCALE) as int, 2, SCALE as int);
            lemma_tdiv_shrinks((u.y + SCALE) as int, 2);
            lemma_unit_times(SCALE as int, (SCALE - aa) as int);
            lemma_unit_times(500, aa as int);
            lemma_unit_times(700, aa as int);
            lemma_unit_times(1000, aa as int);
        }
        let wx = div_trunc((SCALE as i128) * ((SCALE - aa) as i128), SCALE as i128) as i64;
        let bx = div_trunc(500 * (aa as i128), SCALE as i128) as i64;
        let by = div_trunc(700 * (aa as i128), SCALE as i128) as i64;
        let bz = div_trunc(1000 * (aa as i128), SCALE as i128) as i64;
        Vec3 { x: wx + bx, y: wx + by, z: wx + bz }
    }

    /// The `t` at which this ray first meets the given sphere: `-1`
    /// (fixed-point) when the discriminant is negative, else the nearer
    /// root of the quadratic — also when that root is negative or zero.
    pub fn hit_sphere(&self, center: Point3, radius: i64) -> (t: i64)
        requires
            bounded(self.origin, COORD_MAX as int),
            bounded(self.direction, COORD_MAX as int),
            !is_zero(self.direction),
            bounded(center, COORD_MAX as int),
            1 <= radius <= COORD_MAX,
        ensures
            ({
                let s = Sphere {
                    center,
                    radius,
                    material: MaterialEnum::Default(DefaultMaterial),
                };
                t == if sdisc(s, *self) < 0 {
                    -SCALE as int
                } else {
                    sroot1(s, *self)
                }
            }),
    {
        let oc = center.minus(self.origin);
        proof {
            lemma_nonzero_dot(self.direction);
            crate::vec3::lemma_dot_bound(self.direction, self.direction, COORD_MAX as int, COORD_MAX as int);
            crate::vec3::lemma_dot_bound(self.direction, oc, COORD_MAX as int, 2 * COORD_MAX as int);
            crate::vec3::lemma_dot_bound(oc, oc, 2 * COORD_MAX as int, 2 * COORD_MAX as int);
            lemma_mul_bound(radius as int, radius as int, COORD_MAX as int, COORD_MAX as int);
        }
        let a = Vec3::dot(self.direction, self.direction);
        let h = Vec3::dot(self.direction, oc);
        let c2 = Vec3::dot(oc, oc) - radius * radius;
        proof {
            lemma_mul_bound(h as int, h as int, 600_000_000_000_000, 600_000_000_000_000);
            lemma_mul_bound(a as int, c2 as int, 300_000_000_000_000, 1_300_000_000_000_000);
        }
        let disc = (h as i128) * (h as i128) - (a as i128) * (c2 as i128);
        if disc < 0 {
            return -SCALE;
        }
        let sd = crate::num::isqrt(disc as u128);
        proof {
            assert(sd <= 900_000_000_000_000) by (nonlinear_arith)
                requires
                    sd * sd <= disc as int
                        && disc <= 800_000_000_000_000_000_000_000_000_000
                        && sd >= 0,
            ;
            lemma_mul_bound((h as int) - (sd as int), SCALE as int, 1_500_000_000_000_000, SCALE as int);
        }
        let num1 = ((h as i128) - (sd as i128)) * (SCALE as i128);
        let root1_w = div_trunc(num1, a as i128);
        proof {
            lemma_tdiv_shrinks(num1 as int, a as int);
        }
        root1_w as i64
    }

    /// Radiance along the ray: the iterative light-transport loop with an
    /// accumulated attenuation product.  At depth zero the energy budget
    /// is exhausted and the result is black; a ray that nothing in the
    /// scene blocks sees the background gradient.
    pub fn colour(&self, world: &HittableList, depth: i64) -> (c: Colour)
        requires
            world.wf(),
            bounded(self.origin, COORD_MAX as int),
            bounded(self.direction, COORD_MAX as int),
            !is_zero(self.direction),
            0 <= depth,
        ensures
            valid_colour(c),
            depth == 0 ==> is_zero(c),
            depth > 0 && !sany_hit(*world, *self) ==> sv(c) == sbackground(*self),
            depth > 0 && sany_hit(*world, *self) && nearest_hit_absorbs(*world, *self) ==> is_zero(
                c,
            ),
            forall|bnd: Vec3|
                depth > 0 && sany_hit(*world, *self) && 0 <= bnd.x && 0 <= bnd.y && 0 <= bnd.z
                    && #[trigger] nearest_hit_attenuation_below(*world, *self, bnd) ==> c.x
                    <= bnd.x && c.y <= bnd.y && c.z <= bnd.z,
    {
        let mut acc = Vec3::new(SCALE, SCALE, SCALE);
        let mut ray = *self;
        let mut remaining = depth;
        let mut first = true;
        while remaining > 0
            invariant
                world.wf(),
                valid_colour(acc),
                bounded(ray.origin, COORD_MAX as int),
                bounded(ray.direction, COORD_MAX as int),
                !is_zero(ray.direction),
                0 <= remaining <= depth,
                first ==> ray == *self && acc.x == SCALE && acc.y == SCALE && acc.z == SCALE
                    && remaining == depth,
                !first ==> sany_hit(*world, *self),
                !first ==> !nearest_hit_absorbs(*world, *self),
                !first ==> forall|bnd: Vec3|
                    0 <= bnd.x && 0 <= bnd.y && 0 <= bnd.z && #[trigger] nearest_hit_attenuation_below(
                        *world,
                        *self,
                        bnd,
                    ) ==> acc.x <= bnd.x && acc.y <= bnd.y && acc.z <= bnd.z,
            decreases remaining,
        {
            let mut rec = HitRecord::default();
            let itv = Interval::new(1, T_MAX);
            if world.hit(&ray, itv, &mut rec) {
                proof {
                    if first {
                        assert(itv == strace_interval());
                        assert(sany_hit(*world, *self));
                        let i0 = choose|i: int|
                            0 <= i < world.objects@.len() && shits(
                                #[trigger] world.objects@[i],
                                ray,
                                itv,
                            ) && rec.t == shit_t(world.objects@[i], ray, itv) && srec_matches(
                                world.objects@[i],
                                ray,
                                rec.t as int,
                                rec,
                            );
                        assert(is_nearest_hit(*world, *self, i0));
                        assert(rec.material == world.objects@[i0].material);
                        if nearest_hit_absorbs(*world, *self) {
                            assert(world.objects@[i0].material is Default);
                        }
                    }
                }
                let mut attenuation = Vec3::new(0, 0, 0);
                let mut scattered = Ray::default();
                if rec.material.scatter(&ray, &rec, &mut attenuation, &mut scattered) {
                    proof {
                        if first {
                            assert(!nearest_hit_absorbs(*world, *self));
                        }
                        lemma_unit_times(acc.x as int, attenuation.x as int);
                        lemma_unit_times(acc.y as int, attenuation.y as int);
                        lemma_unit_times(acc.z as int, attenuation.z as int);
                    }
                    let ghost acc0 = acc;
                    let ghost was_first = first;
                    acc = acc.times(attenuation);
                    proof {
                        if was_first {
                            assert(acc == attenuation);
                            assert forall|bnd: Vec3|
                                0 <= bnd.x && 0 <= bnd.y && 0 <= bnd.z
                                    && #[trigger] nearest_hit_attenuation_below(
                                    *world,
                                    *self,
                                    bnd,
                                ) implies acc.x <= bnd.x && acc.y <= bnd.y && acc.z <= bnd.z by {
                                let i0 = choose|i: int|
                                    0 <= i < world.objects@.len() && shits(
                                        #[trigger] world.objects@[i],
                                        ray,
                                        itv,
                                    ) && rec.t == shit_t(world.objects@[i], ray, itv)
                                        && srec_matches(
                                        world.objects@[i],
                                        ray,
                                        rec.t as int,
                                        rec,
                                    );
                                assert(is_nearest_hit(*world, *self, i0));
                                assert(mat_attenuation_below(rec.material, bnd));
                            }
                        } else {
                            assert forall|bnd: Vec3|
                                0 <= bnd.x && 0 <= bnd.y && 0 <= bnd.z
                                    && #[trigger] nearest_hit_attenuation_below(
                                    *world,
                                    *self,
                                    bnd,
                                ) implies acc.x <= bnd.x && acc.y <= bnd.y && acc.z <= bnd.z by {
                                assert(acc0.x <= bnd.x && acc0.y <= bnd.y && acc0.z <= bnd.z);
                            }
                        }
                    }
                    first = false;
                    if scattered.direction.near_zero() {
                        return Vec3::new(0, 0, 0);
                    }
                    ray = scattered;
                    remaining = remaining - 1;
                } else {
                    return Vec3::new(0, 0, 0);
                }
            } else {
                let bg = ray.background();
                proof {
                    lemma_unit_times(acc.x as int, bg.x as int);
                    lemma_unit_times(acc.y as int, bg.y as int);
                    lemma_unit_times(acc.z as int, bg.z as int);
                }
                let out = acc.times(bg);
                proof {
                    if !first {
                        assert forall|bnd: Vec3|
                            0 <= bnd.x && 0 <= bnd.y && 0 <= bnd.z
                                && #[trigger] nearest_hit_attenuation_below(
                                *world,
                                *self,
                                bnd,
                            ) implies out.x <= bnd.x && out.y <= bnd.y && out.z <= bnd.z by {
                            assert(acc.x <= bnd.x && acc.y <= bnd.y && acc.z <= bnd.z);
                        }
                    }
                }
                return out;
            }
        }
        Vec3::new(0, 0, 0)
    }
}

impl Default for Ray {
    fn default() -> (r: Ray)
        ensures
            is_zero(r.origin),
            is_zero(r.direction),
    {
        Ray {
            origin: Vec3 { x: 0, y: 0, z: 0 },
            direction: Vec3 { x: 0, y: 0, z: 0 },
        }
    }
}

} // verus!
