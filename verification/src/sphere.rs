//! Spheres, and the exact fixed-point ray-sphere intersection test.

use vstd::prelude::*;

use crate::hittable::{HitRecord, rec_wf};
use crate::interval::Interval;
use crate::material::{MaterialEnum, mat_wf};
use crate::num::{
    SCALE, COORD_MAX, NORMAL_MAX, T_MAX, tdiv, sqrt_floor, isqrt, div_trunc, lemma_sqrt_floor,
    lemma_sqrt_floor_props, lemma_tdiv_bound, lemma_tdiv_shrinks, lemma_tdiv_mono,
};
use crate::ray::{Point3, Ray, ray_at};
use crate::vec3::{
    Vec3, sv, sdot3, svdot, bounded, is_zero, lemma_dot_bound, lemma_mul_bound, lemma_nonzero_dot,
};

verus! {

#[derive(Clone, Copy)]
pub struct Sphere {
    pub center: Point3,
    pub radius: i64,
    pub material: MaterialEnum,
}

/// `center - origin`, as unbounded integers.
pub open spec fn soc(s: Sphere, r: Ray) -> (int, int, int) {
    (
        s.center.x - r.origin.x,
        s.center.y - r.origin.y,
        s.center.z - r.origin.z,
    )
}

/// The quadratic `|at(t) - center|^2 = radius^2` in half-angle form:
/// `a t^2 - 2 h t + c = 0` (up to scale).
pub open spec fn squad_a(r: Ray) -> int {
    svdot(r.direction, r.direction)
}

pub open spec fn squad_h(s: Sphere, r: Ray) -> int {
    sdot3(sv(r.direction), soc(s, r))
}

pub open spec fn squad_c(s: Sphere, r: Ray) -> int {
    sdot3(soc(s, r), soc(s, r)) - s.radius * s.radius
}

pub open spec fn sdisc(s: Sphere, r: Ray) -> int {
    squad_h(s, r) * squad_h(s, r) - squad_a(r) * squad_c(s, r)
}

/// The nearer intersection parameter (fixed-point, rounded toward zero).
pub open spec fn sroot1(s: Sphere, r: Ray) -> int {
    tdiv((squad_h(s, r) - sqrt_floor(sdisc(s, r))) * SCALE, squad_a(r))
}

/// The farther intersection parameter.
pub open spec fn sroot2(s: Sphere, r: Ray) -> int {
    tdiv((squad_h(s, r) + sqrt_floor(sdisc(s, r))) * SCALE, squad_a(r))
}

/// The root the test prefers: the nearer one when it lies strictly
/// inside the interval, else the farther one.
pub open spec fn spick(s: Sphere, r: Ray, itv: Interval) -> int {
    if itv.spec_surrounds(sroot1(s, r)) {
        sroot1(s, r)
    } else {
        sroot2(s, r)
    }
}

/// The outward normal at point `p`: `(p - center) / radius`, at `SCALE`
/// resolution.
pub open spec fn souter_normal(s: Sphere, p: (int, int, int)) -> (int, int, int) {
    (
        tdiv((p.0 - s.center.x) * SCALE, s.radius as int),
        tdiv((p.1 - s.center.y) * SCALE, s.radius as int),
        tdiv((p.2 - s.center.z) * SCALE, s.radius as int),
    )
}

/// The record the test would build at parameter `t` stays within the
/// tracer's coordinate and normal bounds, with a usable normal.
pub open spec fn srec_ok(s: Sphere, r: Ray, t: int) -> bool {
    let p = ray_at(r, t);
    let n = souter_normal(s, p);
    &&& -COORD_MAX <= p.0 <= COORD_MAX
    &&& -COORD_MAX <= p.1 <= COORD_MAX
    &&& -COORD_MAX <= p.2 <= COORD_MAX
    &&& -NORMAL_MAX <= n.0 <= NORMAL_MAX
    &&& -NORMAL_MAX <= n.1 <= NORMAL_MAX
    &&& -NORMAL_MAX <= n.2 <= NORMAL_MAX
    &&& !(n.0 == 0 && n.1 == 0 && n.2 == 0)
}

/// Whether the ray strikes the sphere strictly inside the interval.
pub open spec fn shits(s: Sphere, r: Ray, itv: Interval) -> bool {
    &&& sdisc(s, r) >= 0
    &&& (itv.spec_surrounds(sroot1(s, r)) || itv.spec_surrounds(sroot2(s, r)))
    &&& srec_ok(s, r, spick(s, r, itv))
}

/// The parameter of the accepted intersection.
pub open spec fn shit_t(s: Sphere, r: Ray, itv: Interval) -> int {
    spick(s, r, itv)
}

/// The record a hit at parameter `t` carries: the struck point, the
/// outward normal flipped to oppose the ray, the side flag, and the
/// sphere's material.
pub open spec fn srec_matches(s: Sphere, r: Ray, t: int, rec: HitRecord) -> bool {
    let p = ray_at(r, t);
    let n = souter_normal(s, p);
    let front = sdot3(sv(r.direction), n) < 0;
    &&& sv(rec.p) == p
    &&& rec.t == t
    &&& rec.front_face == front
    &&& sv(rec.normal) == if front {
        n
    } else {
        (-n.0, -n.1, -n.2)
    }
    &&& rec.material == s.material
}

/// Law: a ray whose unit direction passes straight through a sphere's
/// center meets it at exactly `t = distance - radius` and
/// `t = distance + radius` — the two real roots of the quadratic, with
/// no rounding error, since every intermediate value is exactly
/// representable.  Stated along the `z` axis, where the hypothesis is
/// exact in fixed point.
pub proof fn lemma_hit_through_center(origin: Point3, m: i64, radius: i64, material: MaterialEnum)
    requires
        0 < radius < m <= COORD_MAX,
        bounded(origin, COORD_MAX as int),
        origin.z > i64::MIN + m,
    ensures
        ({
            let s = Sphere {
                center: Vec3 { x: origin.x, y: origin.y, z: (origin.z - m) as i64 },
                radius,
                material,
            };
            let r = Ray { origin, direction: Vec3 { x: 0, y: 0, z: (-1000) as i64 } };
            &&& sdisc(s, r) >= 0
            &&& sroot1(s, r) == m - radius
            &&& sroot2(s, r) == m + radius
        }),
{
    let s = Sphere {
        center: Vec3 { x: origin.x, y: origin.y, z: (origin.z - m) as i64 },
        radius,
        material,
    };
    let r = Ray { origin, direction: Vec3 { x: 0, y: 0, z: (-1000) as i64 } };
    let a = squad_a(r);
    let h = squad_h(s, r);
    let c = squad_c(s, r);
    assert(a == 1_000_000);
    assert(h == 1000 * (m as int)) by (nonlinear_arith)
        requires
            h == 0 * 0 + 0 * 0 + (-1000) * ((s.center.z - r.origin.z) as int)
                && s.center.z - r.origin.z == -(m as int),
    ;
    assert(c == m * m - radius * radius) by (nonlinear_arith)
        requires
            c == 0 * 0 + 0 * 0 + (-(m as int)) * (-(m as int)) - (radius as int) * (radius as int),
    ;
    assert(sdisc(s, r) == 1_000_000 * ((radius as int) * (radius as int))) by (nonlinear_arith)
        requires
            sdisc(s, r) == (1000 * (m as int)) * (1000 * (m as int)) - 1_000_000 * ((m as int) * (
            m as int) - (radius as int) * (radius as int)),
    ;
    assert(sdisc(s, r) >= 0) by (nonlinear_arith)
        requires
            sdisc(s, r) == 1_000_000 * ((radius as int) * (radius as int)),
    ;
    let sd = 1000 * (radius as int);
    assert(sd * sd <= sdisc(s, r) < (sd + 1) * (sd + 1)) by (nonlinear_arith)
        requires
            sdisc(s, r) == 1_000_000 * ((radius as int) * (radius as int)) && sd == 1000 * (
            radius as int) && radius >= 1,
    ;
    lemma_sqrt_floor(sdisc(s, r), sd);
    assert((h - sd) * (SCALE as int) == 1_000_000 * ((m - radius) as int)) by (nonlinear_arith)
        requires
            h == 1000 * (m as int) && sd == 1000 * (radius as int),
    ;
    assert((h + sd) * (SCALE as int) == 1_000_000 * ((m + radius) as int)) by (nonlinear_arith)
        requires
            h == 1000 * (m as int) && sd == 1000 * (radius as int),
    ;
    vstd::arithmetic::div_mod::lemma_div_multiples_vanish((m - radius) as int, 1_000_000);
    vstd::arithmetic::div_mod::lemma_div_multiples_vanish((m + radius) as int, 1_000_000);
}

/// Law: the intersection is translation consistent — moving the sphere
/// and the ray by the same offset changes neither the discriminant nor
/// the two roots, exactly.
pub proof fn lemma_hit_translation_invariant(s: Sphere, r: Ray, d: Vec3)
    requires
        i64::MIN <= s.center.x + d.x <= i64::MAX,
        i64::MIN <= s.center.y + d.y <= i64::MAX,
        i64::MIN <= s.center.z + d.z <= i64::MAX,
        i64::MIN <= r.origin.x + d.x <= i64::MAX,
        i64::MIN <= r.origin.y + d.y <= i64::MAX,
        i64::MIN <= r.origin.z + d.z <= i64::MAX,
    ensures
        ({
            let s2 = Sphere {
                center: Vec3 {
                    x: (s.center.x + d.x) as i64,
                    y: (s.center.y + d.y) as i64,
                    z: (s.center.z + d.z) as i64,
                },
                radius: s.radius,
                material: s.material,
            };
            let r2 = Ray {
                origin: Vec3 {
                    x: (r.origin.x + d.x) as i64,
                    y: (r.origin.y + d.y) as i64,
                    z: (r.origin.z + d.z) as i64,
                },
                direction: r.direction,
            };
            &&& sdisc(s2, r2) == sdisc(s, r)
            &&& sroot1(s2, r2) == sroot1(s, r)
            &&& sroot2(s2, r2) == sroot2(s, r)
        }),
{
    let s2 = Sphere {
        center: Vec3 {
            x: (s.center.x + d.x) as i64,
            y: (s.center.y + d.y) as i64,
            z: (s.center.z + d.z) as i64,
        },
        radius: s.radius,
        material: s.material,
    };
    let r2 = Ray {
        origin: Vec3 {
            x: (r.origin.x + d.x) as i64,
            y: (r.origin.y + d.y) as i64,
            z: (r.origin.z + d.z) as i64,
        },
        direction: r.direction,
    };
    assert(soc(s2, r2) == soc(s, r));
}

/// The nearer root never exceeds the farther one.
pub proof fn lemma_roots_ordered(s: Sphere, r: Ray)
    requires
        sdisc(s, r) >= 0,
        squad_a(r) >= 1,
    ensures
        sroot1(s, r) <= sroot2(s, r),
{
    let h = squad_h(s, r);
    let sd = sqrt_floor(sdisc(s, r));
    lemma_sqrt_floor_props(sdisc(s, r));
    assert((h - sd) * SCALE <= (h + sd) * SCALE) by (nonlinear_arith)
        requires
            sd >= 0,
    ;
    lemma_tdiv_mono((h - sd) * SCALE, (h + sd) * SCALE, squad_a(r));
}

/// A hit whose parameter clears a tightened upper bound is still a hit
/// under the tightened interval, at the same parameter.
pub proof fn lemma_hit_narrow(s: Sphere, r: Ray, itv: Interval, itv2: Interval)
    requires
        itv2.lo == itv.lo,
        itv2.hi <= itv.hi,
        shits(s, r, itv),
        shit_t(s, r, itv) < itv2.hi,
    ensures
        shits(s, r, itv2),
        shit_t(s, r, itv2) == shit_t(s, r, itv),
{
}

/// A hit under a tightened interval is a hit under the wider one, at the
/// same parameter.
pub proof fn lemma_hit_widen(s: Sphere, r: Ray, itv2: Interval, itv: Interval)
    requires
        itv2.lo == itv.lo,
        itv2.hi <= itv.hi,
        squad_a(r) >= 1,
        shits(s, r, itv2),
    ensures
        shits(s, r, itv),
        shit_t(s, r, itv) == shit_t(s, r, itv2),
{
    lemma_roots_ordered(s, r);
}

/// A hit's parameter always lies strictly inside the interval.
pub proof fn lemma_hit_inside(s: Sphere, r: Ray, itv: Interval)
    requires
        shits(s, r, itv),
    ensures
        itv.spec_surrounds(shit_t(s, r, itv)),
{
}

impl Sphere {
    pub open spec fn wf(&self) -> bool {
        bounded(self.center, COORD_MAX as int) && 1 <= self.radius <= COORD_MAX && mat_wf(
            self.material,
        )
    }

    /// Whether this sphere is within the tracer's bounds; callers
    /// outside the proof world test this before tracing.
    pub fn trace_ready(&self) -> (b: bool)
        ensures
            b == self.wf(),
    {
        -COORD_MAX <= self.center.x && self.center.x <= COORD_MAX && -COORD_MAX <= self.center.y
            && self.center.y <= COORD_MAX && -COORD_MAX <= self.center.z && self.center.z
            <= COORD_MAX && 1 <= self.radius && self.radius <= COORD_MAX
            && self.material.well_formed()
    }

    pub fn new(center: Point3, radius: i64, material: MaterialEnum) -> (s: Sphere)
        ensures
            s.center == center,
            s.radius == radius,
            s.material == material,
    {
        Sphere { center, radius, material }
    }

    /// Solve the quadratic, prefer the nearer root inside `interval`,
    /// and fill `rec` from the accepted root.  The result is exactly
    /// `shits`; on a miss `rec` is untouched.
    pub fn hit(&self, r: &Ray, interval: Interval, rec: &mut HitRecord) -> (b: bool)
        requires
            self.wf(),
            bounded(r.origin, COORD_MAX as int),
            bounded(r.direction, COORD_MAX as int),
            !is_zero(r.direction),
            0 <= interval.lo,
            interval.hi <= T_MAX,
        ensures
            b == shits(*self, *r, interval),
            b ==> srec_matches(*self, *r, shit_t(*self, *r, interval), *final(rec)),
            b ==> rec_wf(*final(rec)),
            b ==> interval.spec_surrounds(final(rec).t as int),
            !b ==> *final(rec) == *old(rec),
    {
        let oc = self.center.minus(r.origin);
        proof {
            lemma_nonzero_dot(r.direction);
            lemma_dot_bound(r.direction, r.direction, COORD_MAX as int, COORD_MAX as int);
            lemma_dot_bound(r.direction, oc, COORD_MAX as int, 2 * COORD_MAX as int);
            lemma_dot_bound(oc, oc, 2 * COORD_MAX as int, 2 * COORD_MAX as int);
            lemma_mul_bound(self.radius as int, self.radius as int, COORD_MAX as int, COORD_MAX as int);
            assert(self.radius * self.radius >= 0) by (nonlinear_arith)
                requires
                    self.radius >= 1,
            ;
        }
        let a = Vec3::dot(r.direction, r.direction);
        let h = Vec3::dot(r.direction, oc);
        let c2 = Vec3::dot(oc, oc) - self.radius * self.radius;
        proof {
            lemma_mul_bound(h as int, h as int, 600_000_000_000_000, 600_000_000_000_000);
            lemma_mul_bound(a as int, c2 as int, 300_000_000_000_000, 1_300_000_000_000_000);
        }
        let disc = (h as i128) * (h as i128) - (a as i128) * (c2 as i128);
        if disc < 0 {
            return false;
        }
        let sd = isqrt(disc as u128);
        proof {
            assert(sd <= 900_000_000_000_000) by (nonlinear_arith)
                requires
                    sd * sd <= disc as int
                        && disc <= 800_000_000_000_000_000_000_000_000_000
                        && sd >= 0,
            ;
            assert(sd as int == sqrt_floor(sdisc(*self, *r)));
            lemma_mul_bound((h as int) - (sd as int), SCALE as int, 1_500_000_000_000_000, SCALE as int);
            lemma_mul_bound((h as int) + (sd as int), SCALE as int, 1_500_000_000_000_000, SCALE as int);
        }
        let num1 = ((h as i128) - (sd as i128)) * (SCALE as i128);
        let num2 = ((h as i128) + (sd as i128)) * (SCALE as i128);
        let root1_w = div_trunc(num1, a as i128);
        let root2_w = div_trunc(num2, a as i128);
        proof {
            lemma_tdiv_shrinks(num1 as int, a as int);
            lemma_tdiv_shrinks(num2 as int, a as int);
        }
        let root1 = root1_w as i64;
        let root2 = root2_w as i64;
        proof {
            assert(root1 as int == sroot1(*self, *r));
            assert(root2 as int == sroot2(*self, *r));
        }
        let root: i64;
        if interval.surrounds(root1) {
            root = root1;
        } else if interval.surrounds(root2) {
            root = root2;
        } else {
            return false;
        }
        proof {
            assert(root as int == spick(*self, *r, interval));
            lemma_mul_bound(root as int, r.direction.x as int, T_MAX as int, COORD_MAX as int);
            lemma_mul_bound(root as int, r.direction.y as int, T_MAX as int, COORD_MAX as int);
            lemma_mul_bound(root as int, r.direction.z as int, T_MAX as int, COORD_MAX as int);
            lemma_tdiv_bound(root * r.direction.x, SCALE as int, 100_000_000_000_000);
            lemma_tdiv_bound(root * r.direction.y, SCALE as int, 100_000_000_000_000);
            lemma_tdiv_bound(root * r.direction.z, SCALE as int, 100_000_000_000_000);
        }
        let p = r.at(root);
        if p.x > COORD_MAX || p.x < -COORD_MAX || p.y > COORD_MAX || p.y < -COORD_MAX || p.z
            > COORD_MAX || p.z < -COORD_MAX {
            return false;
        }
        let on = p.minus(self.center);
        proof {
            lemma_mul_bound(on.x as int, SCALE as int, 2 * COORD_MAX as int, SCALE as int);
            lemma_mul_bound(on.y as int, SCALE as int, 2 * COORD_MAX as int, SCALE as int);
            lemma_mul_bound(on.z as int, SCALE as int, 2 * COORD_MAX as int, SCALE as int);
            lemma_tdiv_shrinks(on.x * SCALE, self.radius as int);
            lemma_tdiv_shrinks(on.y * SCALE, self.radius as int);
            lemma_tdiv_shrinks(on.z * SCALE, self.radius as int);
        }
        let nx = div_trunc((on.x as i128) * (SCALE as i128), self.radius as i128) as i64;
        let ny = div_trunc((on.y as i128) * (SCALE as i128), self.radius as i128) as i64;
        let nz = div_trunc((on.z as i128) * (SCALE as i128), self.radius as i128) as i64;
        if nx > NORMAL_MAX || nx < -NORMAL_MAX || ny > NORMAL_MAX || ny < -NORMAL_MAX || nz
            > NORMAL_MAX || nz < -NORMAL_MAX {
            return false;
        }
        if nx == 0 && ny == 0 && nz == 0 {
            return false;
        }
        let outward = Vec3::new(nx, ny, nz);
        let front_face = Vec3::dot(r.direction, outward) < 0;
        let normal = if front_face {
            outward
        } else {
            outward.negate()
        };
        *rec = HitRecord {
            p,
            normal,
            t: root,
            front_face,
            material: self.material,
        };
        true
    }
}

} // verus!
