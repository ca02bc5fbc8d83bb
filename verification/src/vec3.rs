//! 3D vectors over fixed-point scalars, with exact integer contracts.
//!
//! A `Vec3` holds three fixed-point components (`num::SCALE` steps per
//! world unit) and doubles as a point and as a colour, as in classic
//! ray tracers.  Sums, differences and the cross product are exact;
//! every rescaling product rounds toward zero (`num::tdiv`).

use vstd::prelude::*;

use crate::num::{
    SCALE, NORMAL_MAX, tdiv, sqrt_floor, isqrt, div_trunc, lemma_sqrt_floor, lemma_tdiv_bound,
};

verus! {

/// Largest component magnitude the quadratic-form operations
/// (`dot`, `cross`, `length_squared`) accept without overflowing `i64`.
pub const VEC_MAX: i64 = 1_000_000_000;

#[derive(Clone, Copy, PartialEq, Eq, Structural, Debug)]
pub struct Vec3 {
    pub x: i64,
    pub y: i64,
    pub z: i64,
}

/// The components as a triple of unbounded integers.
pub open spec fn sv(v: Vec3) -> (int, int, int) {
    (v.x as int, v.y as int, v.z as int)
}

pub open spec fn sdot3(a: (int, int, int), b: (int, int, int)) -> int {
    a.0 * b.0 + a.1 * b.1 + a.2 * b.2
}

pub open spec fn svdot(u: Vec3, v: Vec3) -> int {
    sdot3(sv(u), sv(v))
}

pub open spec fn scross(a: (int, int, int), b: (int, int, int)) -> (int, int, int) {
    (a.1 * b.2 - a.2 * b.1, a.2 * b.0 - a.0 * b.2, a.0 * b.1 - a.1 * b.0)
}

pub open spec fn tadd(a: (int, int, int), b: (int, int, int)) -> (int, int, int) {
    (a.0 + b.0, a.1 + b.1, a.2 + b.2)
}

pub open spec fn tsub(a: (int, int, int), b: (int, int, int)) -> (int, int, int) {
    (a.0 - b.0, a.1 - b.1, a.2 - b.2)
}

pub open spec fn tneg(a: (int, int, int)) -> (int, int, int) {
    (-a.0, -a.1, -a.2)
}

/// Fixed-point scaling of a triple: each component becomes
/// `tdiv(a_i * k, SCALE)`.
pub open spec fn tscale(a: (int, int, int), k: int) -> (int, int, int) {
    (
        tdiv(a.0 * k, SCALE as int),
        tdiv(a.1 * k, SCALE as int),
        tdiv(a.2 * k, SCALE as int),
    )
}

/// Fixed-point division of a triple by a positive fixed-point scalar:
/// each component becomes `tdiv(a_i * SCALE, k)`.
pub open spec fn tdivided(a: (int, int, int), k: int) -> (int, int, int) {
    (
        tdiv(a.0 * SCALE as int, k),
        tdiv(a.1 * SCALE as int, k),
        tdiv(a.2 * SCALE as int, k),
    )
}

/// The unit direction of a triple at `SCALE` resolution.
pub open spec fn tunit(a: (int, int, int)) -> (int, int, int) {
    let l = sqrt_floor(sdot3(a, a));
    (
        tdiv(a.0 * SCALE, l),
        tdiv(a.1 * SCALE, l),
        tdiv(a.2 * SCALE, l),
    )
}

/// Mirror `v` about the near-unit normal `n`.
pub open spec fn treflect(v: (int, int, int), n: (int, int, int)) -> (int, int, int) {
    (
        v.0 - tdiv(2 * sdot3(v, n) * n.0, SCALE as int * SCALE as int),
        v.1 - tdiv(2 * sdot3(v, n) * n.1, SCALE as int * SCALE as int),
        v.2 - tdiv(2 * sdot3(v, n) * n.2, SCALE as int * SCALE as int),
    )
}

/// The cosine of the angle between `-u` and `n` at `SCALE` resolution,
/// capped at one, as Snell's law uses it.
pub open spec fn srefract_cos(u: (int, int, int), n: (int, int, int)) -> int {
    let c = tdiv(sdot3(tneg(u), n), SCALE as int);
    if c > SCALE as int {
        SCALE as int
    } else {
        c
    }
}

/// The sine belonging to `cos`, rounded down and clamped at zero.
pub open spec fn ssin_from_cos(cos: int) -> int {
    let s2 = SCALE as int * SCALE as int - cos * cos;
    sqrt_floor(if s2 >= 0 { s2 } else { 0 })
}

/// Snell refraction of the unit direction `u` through the near-unit
/// normal `n` with the given fixed-point ratio of refraction indices.
pub open spec fn trefract(u: (int, int, int), n: (int, int, int), ratio: int) -> (int, int, int) {
    let cos = srefract_cos(u, n);
    let perp = tscale(tadd(u, tscale(n, cos)), ratio);
    let s2 = SCALE as int * SCALE as int - sdot3(perp, perp);
    let par = sqrt_floor(if s2 >= 0 { s2 } else { 0 });
    tsub(perp, tscale(n, par))
}

/// Every component within `[-b, b]`.
pub open spec fn bounded(v: Vec3, b: int) -> bool {
    -b <= v.x <= b && -b <= v.y <= b && -b <= v.z <= b
}

pub open spec fn is_zero(v: Vec3) -> bool {
    v.x == 0 && v.y == 0 && v.z == 0
}

pub proof fn lemma_mul_bound(a: int, b: int, ca: int, cb: int)
    requires
        -ca <= a <= ca,
        -cb <= b <= cb,
        0 <= ca,
        0 <= cb,
    ensures
        -(ca * cb) <= a * b <= ca * cb,
{
    assert(-(ca * cb) <= a * b <= ca * cb) by (nonlinear_arith)
        requires
            -ca <= a <= ca && -cb <= b <= cb && 0 <= ca && 0 <= cb,
    ;
}

impl Vec3 {
    pub fn new(e0: i64, e1: i64, e2: i64) -> (r: Vec3)
        ensures
            r.x == e0 && r.y == e1 && r.z == e2,
    {
        Vec3 { x: e0, y: e1, z: e2 }
    }

    pub fn x(&self) -> (r: i64)
        ensures
            r == self.x,
    {
        self.x
    }

    pub fn y(&self) -> (r: i64)
        ensures
            r == self.y,
    {
        self.y
    }

    pub fn z(&self) -> (r: i64)
        ensures
            r == self.z,
    {
        self.z
    }

    /// Component-wise sum (exact).
    pub fn plus(self, rhs: Vec3) -> (r: Vec3)
        requires
            i64::MIN <= self.x + rhs.x <= i64::MAX,
            i64::MIN <= self.y + rhs.y <= i64::MAX,
            i64::MIN <= self.z + rhs.z <= i64::MAX,
        ensures
            r.x == self.x + rhs.x && r.y == self.y + rhs.y && r.z == self.z + rhs.z,
    {
        Vec3 { x: self.x + rhs.x, y: self.y + rhs.y, z: self.z + rhs.z }
    }

    /// Component-wise difference (exact).
    pub fn minus(self, rhs: Vec3) -> (r: Vec3)
        requires
            i64::MIN <= self.x - rhs.x <= i64::MAX,
            i64::MIN <= self.y - rhs.y <= i64::MAX,
            i64::MIN <= self.z - rhs.z <= i64::MAX,
        ensures
            r.x == self.x - rhs.x && r.y == self.y - rhs.y && r.z == self.z - rhs.z,
    {
        Vec3 { x: self.x - rhs.x, y: self.y - rhs.y, z: self.z - rhs.z }
    }

    /// Component-wise negation (exact).
    pub fn negate(self) -> (r: Vec3)
        requires
            self.x > i64::MIN && self.y > i64::MIN && self.z > i64::MIN,
        ensures
            r.x == -self.x && r.y == -self.y && r.z == -self.z,
    {
        Vec3 { x: -self.x, y: -self.y, z: -self.z }
    }

    /// Component-wise fixed-point product: `r_i = tdiv(a_i * b_i, SCALE)`.
    pub fn times(self, rhs: Vec3) -> (r: Vec3)
        requires
            i64::MIN <= tdiv(self.x * rhs.x, SCALE as int) <= i64::MAX,
            i64::MIN <= tdiv(self.y * rhs.y, SCALE as int) <= i64::MAX,
            i64::MIN <= tdiv(self.z * rhs.z, SCALE as int) <= i64::MAX,
        ensures
            r.x == tdiv(self.x * rhs.x, SCALE as int),
            r.y == tdiv(self.y * rhs.y, SCALE as int),
            r.z == tdiv(self.z * rhs.z, SCALE as int),
    {
        let x = div_trunc((self.x as i128) * (rhs.x as i128), SCALE as i128);
        let y = div_trunc((self.y as i128) * (rhs.y as i128), SCALE as i128);
        let z = div_trunc((self.z as i128) * (rhs.z as i128), SCALE as i128);
        Vec3 { x: x as i64, y: y as i64, z: z as i64 }
    }

    /// Multiplication by a fixed-point scalar: `r_i = tdiv(a_i * k, SCALE)`.
    pub fn scaled(self, k: i64) -> (r: Vec3)
        requires
            i64::MIN <= tdiv(self.x * k, SCALE as int) <= i64::MAX,
            i64::MIN <= tdiv(self.y * k, SCALE as int) <= i64::MAX,
            i64::MIN <= tdiv(self.z * k, SCALE as int) <= i64::MAX,
        ensures
            r.x == tdiv(self.x * k, SCALE as int),
            r.y == tdiv(self.y * k, SCALE as int),
            r.z == tdiv(self.z * k, SCALE as int),
    {
        let x = div_trunc((self.x as i128) * (k as i128), SCALE as i128);
        let y = div_trunc((self.y as i128) * (k as i128), SCALE as i128);
        let z = div_trunc((self.z as i128) * (k as i128), SCALE as i128);
        Vec3 { x: x as i64, y: y as i64, z: z as i64 }
    }

    /// Division by a positive fixed-point scalar: `r_i = tdiv(a_i * SCALE, k)`.
    pub fn divided(self, k: i64) -> (r: Vec3)
        requires
            1 <= k,
            i64::MIN <= tdiv(self.x * SCALE, k as int) <= i64::MAX,
            i64::MIN <= tdiv(self.y * SCALE, k as int) <= i64::MAX,
            i64::MIN <= tdiv(self.z * SCALE, k as int) <= i64::MAX,
        ensures
            r.x == tdiv(self.x * SCALE, k as int),
            r.y == tdiv(self.y * SCALE, k as int),
            r.z == tdiv(self.z * SCALE, k as int),
    {
        let x = div_trunc((self.x as i128) * (SCALE as i128), k as i128);
        let y = div_trunc((self.y as i128) * (SCALE as i128), k as i128);
        let z = div_trunc((self.z as i128) * (SCALE as i128), k as i128);
        Vec3 { x: x as i64, y: y as i64, z: z as i64 }
    }

    /// Inner product at product scale (exact).
    pub fn dot(u: Vec3, v: Vec3) -> (r: i64)
        requires
            bounded(u, VEC_MAX as int),
            bounded(v, VEC_MAX as int),
        ensures
            r == svdot(u, v),
    {
        proof {
            lemma_mul_bound(u.x as int, v.x as int, VEC_MAX as int, VEC_MAX as int);
            lemma_mul_bound(u.y as int, v.y as int, VEC_MAX as int, VEC_MAX as int);
            lemma_mul_bound(u.z as int, v.z as int, VEC_MAX as int, VEC_MAX as int);
        }
        u.x * v.x + u.y * v.y + u.z * v.z
    }

    /// Cross product at product scale (exact, no rescaling), so that its
    /// algebraic identities hold with no rounding error.
    pub fn cross(u: Vec3, v: Vec3) -> (r: Vec3)
        requires
            bounded(u, VEC_MAX as int),
            bounded(v, VEC_MAX as int),
        ensures
            sv(r) == scross(sv(u), sv(v)),
            bounded(r, 2 * (VEC_MAX as int) * (VEC_MAX as int)),
    {
        proof {
            lemma_mul_bound(u.y as int, v.z as int, VEC_MAX as int, VEC_MAX as int);
            lemma_mul_bound(u.z as int, v.y as int, VEC_MAX as int, VEC_MAX as int);
            lemma_mul_bound(u.z as int, v.x as int, VEC_MAX as int, VEC_MAX as int);
            lemma_mul_bound(u.x as int, v.z as int, VEC_MAX as int, VEC_MAX as int);
            lemma_mul_bound(u.x as int, v.y as int, VEC_MAX as int, VEC_MAX as int);
            lemma_mul_bound(u.y as int, v.x as int, VEC_MAX as int, VEC_MAX as int);
        }
        Vec3 {
            x: u.y * v.z - u.z * v.y,
            y: u.z * v.x - u.x * v.z,
            z: u.x * v.y - u.y * v.x,
        }
    }

    /// Squared length at product scale (exact).
    pub fn length_squared(&self) -> (r: i64)
        requires
            bounded(*self, VEC_MAX as int),
        ensures
            r == svdot(*self, *self),
            r >= 0,
    {
        proof {
            assert(svdot(*self, *self) >= 0) by (nonlinear_arith);
        }
        Vec3::dot(*self, *self)
    }

    /// Length, rounded down.  A vector at unit scale gets a length at unit
    /// scale back, since the squared length sits at product scale.
    pub fn length(&self) -> (r: i64)
        requires
            bounded(*self, VEC_MAX as int),
        ensures
            r == sqrt_floor(svdot(*self, *self)),
            r * r <= svdot(*self, *self) < (r + 1) * (r + 1),
            r >= 0,
    {
        let ls = self.length_squared();
        let r = isqrt(ls as u128);
        proof {
            assert(r * r <= ls as int);
            assert(r <= 4_000_000_000) by (nonlinear_arith)
                requires
                    r * r <= ls as int && ls <= 0x7fff_ffff_ffff_ffff as int && r >= 0,
            ;
        }
        r as i64
    }

    /// The unit vector with the same direction, at `SCALE` resolution:
    /// `r_i = tdiv(a_i * SCALE, |a|)`.  Undefined on the zero vector,
    /// which the precondition excludes.
    pub fn unit_vector(self) -> (r: Vec3)
        requires
            bounded(self, VEC_MAX as int),
            svdot(self, self) >= 1,
        ensures
            r.x == tdiv(self.x * SCALE, sqrt_floor(svdot(self, self))),
            r.y == tdiv(self.y * SCALE, sqrt_floor(svdot(self, self))),
            r.z == tdiv(self.z * SCALE, sqrt_floor(svdot(self, self))),
            sv(r) == tunit(sv(self)),
            bounded(r, SCALE as int),
    {
        let l = self.length();
        proof {
            assert(l >= 1) by (nonlinear_arith)
                requires
                    l >= 0 && svdot(self, self) >= 1 && svdot(self, self) < (l + 1) * (l + 1),
            ;
            lemma_comps_le_root(self, l as int);
            lemma_mul_bound(self.x as int, SCALE as int, l as int, SCALE as int);
            lemma_mul_bound(self.y as int, SCALE as int, l as int, SCALE as int);
            lemma_mul_bound(self.z as int, SCALE as int, l as int, SCALE as int);
            lemma_tdiv_bound(self.x * SCALE, l as int, SCALE as int);
            lemma_tdiv_bound(self.y * SCALE, l as int, SCALE as int);
            lemma_tdiv_bound(self.z * SCALE, l as int, SCALE as int);
        }
        let x = div_trunc((self.x as i128) * (SCALE as i128), l as i128);
        let y = div_trunc((self.y as i128) * (SCALE as i128), l as i128);
        let z = div_trunc((self.z as i128) * (SCALE as i128), l as i128);
        Vec3 { x: x as i64, y: y as i64, z: z as i64 }
    }

    /// True when the vector is degenerate at this resolution: all
    /// components zero.
    pub fn near_zero(&self) -> (r: bool)
        ensures
            r == is_zero(*self),
    {
        self.x == 0 && self.y == 0 && self.z == 0
    }

    /// Mirror `v` about the (near-unit) normal `n`:
    /// `r = v - 2 * dot(v, n) * n / SCALE^2`.
    pub fn reflect(v: Vec3, n: Vec3) -> (r: Vec3)
        requires
            bounded(v, 2 * SCALE as int),
            bounded(n, NORMAL_MAX as int),
        ensures
            r.x == v.x - tdiv(2 * svdot(v, n) * n.x, SCALE as int * SCALE as int),
            r.y == v.y - tdiv(2 * svdot(v, n) * n.y, SCALE as int * SCALE as int),
            r.z == v.z - tdiv(2 * svdot(v, n) * n.z, SCALE as int * SCALE as int),
            sv(r) == treflect(sv(v), sv(n)),
            bounded(r, 2_000_000),
    {
        let d = Vec3::dot(v, n);
        proof {
            lemma_dot_bound(v, n, 2 * SCALE as int, NORMAL_MAX as int);
            assert(-120_000_000 <= 2 * d <= 120_000_000);
            lemma_mul_bound(2 * d, n.x as int, 120_000_000, NORMAL_MAX as int);
            lemma_mul_bound(2 * d, n.y as int, 120_000_000, NORMAL_MAX as int);
            lemma_mul_bound(2 * d, n.z as int, 120_000_000, NORMAL_MAX as int);
            lemma_tdiv_bound(2 * (d as int) * n.x, SCALE as int * SCALE as int, 1_200_000);
            lemma_tdiv_bound(2 * (d as int) * n.y, SCALE as int * SCALE as int, 1_200_000);
            lemma_tdiv_bound(2 * (d as int) * n.z, SCALE as int * SCALE as int, 1_200_000);
        }
        let sx = div_trunc(2 * (d as i128) * (n.x as i128), (SCALE as i128) * (SCALE as i128));
        let sy = div_trunc(2 * (d as i128) * (n.y as i128), (SCALE as i128) * (SCALE as i128));
        let sz = div_trunc(2 * (d as i128) * (n.z as i128), (SCALE as i128) * (SCALE as i128));
        Vec3 { x: v.x - sx as i64, y: v.y - sy as i64, z: v.z - sz as i64 }
    }

    /// Snell refraction of the (unit-scale) direction `uv` through the
    /// near-unit normal `n`.  The square root under the parallel component
    /// saturates at zero, so the result is defined for every input the
    /// precondition admits.
    pub fn refract(uv: Vec3, n: Vec3, etai_over_etat: i64) -> (r: Vec3)
        requires
            bounded(uv, 2 * SCALE as int),
            bounded(n, NORMAL_MAX as int),
            1 <= etai_over_etat <= 10 * SCALE,
        ensures
            sv(r) == trefract(sv(uv), sv(n), etai_over_etat as int),
            bounded(r, 7_000_000),
    {
        let nu = uv.negate();
        proof {
            lemma_dot_bound(nu, n, 2 * SCALE as int, NORMAL_MAX as int);
        }
        let d = Vec3::dot(nu, n);
        proof {
            lemma_tdiv_bound(d as int, SCALE as int, 60_000);
        }
        let cos_raw = div_trunc(d as i128, SCALE as i128);
        let mut cos = cos_raw as i64;
        if cos > SCALE {
            cos = SCALE;
        }
        proof {
            lemma_mul_bound(n.x as int, cos as int, NORMAL_MAX as int, 60_000);
            lemma_mul_bound(n.y as int, cos as int, NORMAL_MAX as int, 60_000);
            lemma_mul_bound(n.z as int, cos as int, NORMAL_MAX as int, 60_000);
            lemma_tdiv_bound(n.x * cos, SCALE as int, 600_000);
            lemma_tdiv_bound(n.y * cos, SCALE as int, 600_000);
            lemma_tdiv_bound(n.z * cos, SCALE as int, 600_000);
        }
        let inner = uv.plus(n.scaled(cos));
        proof {
            lemma_mul_bound(inner.x as int, etai_over_etat as int, 602_000, 10 * SCALE as int);
            lemma_mul_bound(inner.y as int, etai_over_etat as int, 602_000, 10 * SCALE as int);
            lemma_mul_bound(inner.z as int, etai_over_etat as int, 602_000, 10 * SCALE as int);
            lemma_tdiv_bound(inner.x * etai_over_etat, SCALE as int, 6_020_000);
            lemma_tdiv_bound(inner.y * etai_over_etat, SCALE as int, 6_020_000);
            lemma_tdiv_bound(inner.z * etai_over_etat, SCALE as int, 6_020_000);
        }
        let perp = inner.scaled(etai_over_etat);
        proof {
            lemma_dot_bound(perp, perp, 6_020_000, 6_020_000);
        }
        let ls = perp.length_squared();
        let s2 = SCALE * SCALE - ls;
        let par: i64 = if s2 >= 0 {
            let q = isqrt(s2 as u128);
            proof {
                assert(q <= 1000) by (nonlinear_arith)
                    requires
                        q * q <= s2 as int && s2 <= 1_000_000 && q >= 0,
                ;
            }
            q as i64
        } else {
            proof {
                lemma_sqrt_floor(0, 0);
            }
            0
        };
        proof {
            lemma_mul_bound(n.x as int, par as int, NORMAL_MAX as int, SCALE as int);
            lemma_mul_bound(n.y as int, par as int, NORMAL_MAX as int, SCALE as int);
            lemma_mul_bound(n.z as int, par as int, NORMAL_MAX as int, SCALE as int);
            lemma_tdiv_bound(n.x * par, SCALE as int, 10_000);
            lemma_tdiv_bound(n.y * par, SCALE as int, 10_000);
            lemma_tdiv_bound(n.z * par, SCALE as int, 10_000);
        }
        let r = perp.minus(n.scaled(par));
        r
    }
}

impl Vec3 {
    /// A random vector with components in `[0, 1)`.
    pub fn random() -> (r: Vec3)
        ensures
            0 <= r.x < SCALE && 0 <= r.y < SCALE && 0 <= r.z < SCALE,
    {
        Vec3 {
            x: crate::utils::random_double(),
            y: crate::utils::random_double(),
            z: crate::utils::random_double(),
        }
    }

    /// A random vector with components in `[min, max)`.
    pub fn random_in_range(min: i64, max: i64) -> (r: Vec3)
        requires
            min < max,
        ensures
            min <= r.x < max && min <= r.y < max && min <= r.z < max,
    {
        Vec3 {
            x: crate::utils::random_double_in_range(min, max),
            y: crate::utils::random_double_in_range(min, max),
            z: crate::utils::random_double_in_range(min, max),
        }
    }

    /// A random point strictly inside the unit sphere and at least half
    /// a unit from its center, by rejection sampling: normalizing such a
    /// point provably lands near unit length.  The attempt count is
    /// capped so that the loop provably terminates; the fallback is a
    /// fixed point of the accepted shell.
    pub fn random_in_unit_sphere() -> (r: Vec3)
        ensures
            bounded(r, SCALE as int),
            SCALE as int * SCALE as int / 4 <= svdot(r, r) < SCALE as int * SCALE as int,
    {
        let mut tries: u32 = 0;
        while tries < 64
            invariant
                tries <= 64,
            decreases 64 - tries,
        {
            let p = Vec3::random_in_range(-(SCALE - 1), SCALE);
            let ls = p.length_squared();
            if 250_000 <= ls && ls < SCALE * SCALE {
                return p;
            }
            tries = tries + 1;
        }
        let f = Vec3 { x: 0, y: 0, z: SCALE / 2 };
        proof {
            assert(svdot(f, f) == 250_000) by (nonlinear_arith)
                requires
                    f.x == 0 && f.y == 0 && f.z == 500,
            ;
        }
        f
    }

    /// A random near-unit direction on the hemisphere around `self`:
    /// flipped so that its inner product with `self` is non-negative.
    pub fn random_on_hemisphere(self) -> (r: Vec3)
        requires
            bounded(self, VEC_MAX as int),
        ensures
            unit_sample(r),
            svdot(r, self) >= 0,
    {
        let on_unit_sphere = random_unit_vector();
        if Vec3::dot(on_unit_sphere, self) > 0 {
            on_unit_sphere
        } else {
            let flipped = on_unit_sphere.negate();
            proof {
                assert(svdot(flipped, flipped) == svdot(on_unit_sphere, on_unit_sphere)
                    && svdot(flipped, self) == -svdot(on_unit_sphere, self)) by (nonlinear_arith)
                    requires
                        flipped.x == -on_unit_sphere.x && flipped.y == -on_unit_sphere.y
                            && flipped.z == -on_unit_sphere.z,
                ;
            }
            flipped
        }
    }

    /// A random point in the unit disk (`z == 0`), by capped rejection
    /// sampling; the fallback is the disk's center.
    pub fn random_in_unit_disk() -> (r: Vec3)
        ensures
            bounded(r, SCALE as int),
            svdot(r, r) < SCALE as int * SCALE as int,
            r.z == 0,
    {
        let mut tries: u32 = 0;
        while tries < 64
            invariant
                tries <= 64,
            decreases 64 - tries,
        {
            let p = Vec3 {
                x: crate::utils::random_double_in_range(-(SCALE - 1), SCALE),
                y: crate::utils::random_double_in_range(-(SCALE - 1), SCALE),
                z: 0,
            };
            let ls = p.length_squared();
            if ls < SCALE * SCALE {
                return p;
            }
            tries = tries + 1;
        }
        Vec3 { x: 0, y: 0, z: 0 }
    }
}

/// What a drawn scatter direction satisfies: bounded components and a
/// squared length within a few thousandths of one.
pub open spec fn unit_sample(u: Vec3) -> bool {
    &&& bounded(u, SCALE as int)
    &&& !is_zero(u)
    &&& SCALE as int * SCALE as int - 6 * SCALE as int <= svdot(u, u) <= SCALE as int
        * SCALE as int + 11 * SCALE as int
}

/// A random direction of near-unit length, never degenerate.
pub fn random_unit_vector() -> (r: Vec3)
    ensures
        unit_sample(r),
{
    let p = Vec3::random_in_unit_sphere();
    proof {
        lemma_unit_vector_length(p);
    }
    let u = p.unit_vector();
    proof {
        if u.x == 0 && u.y == 0 && u.z == 0 {
            lemma_zero_dot(u, u);
            assert(false);
        }
    }
    u
}

/// No component exceeds the rounded-down length: from
/// `svdot(v, v) < (l + 1)^2` follows `|v_i| <= l`.
proof fn lemma_comps_le_root(v: Vec3, l: int)
    requires
        l >= 0,
        svdot(v, v) < (l + 1) * (l + 1),
    ensures
        bounded(v, l),
{
    assert(-l <= v.x <= l && -l <= v.y <= l && -l <= v.z <= l) by (nonlinear_arith)
        requires
            l >= 0 && v.x * v.x + v.y * v.y + v.z * v.z < (l + 1) * (l + 1),
    ;
}

/// The inner product of vectors bounded by `cu` and `cv` is bounded by
/// `3 * cu * cv`.
pub proof fn lemma_dot_bound(u: Vec3, v: Vec3, cu: int, cv: int)
    requires
        0 <= cu,
        0 <= cv,
        bounded(u, cu),
        bounded(v, cv),
    ensures
        -(3 * cu * cv) <= svdot(u, v) <= 3 * cu * cv,
{
    assert(-(3 * cu * cv) <= u.x * v.x + u.y * v.y + u.z * v.z <= 3 * cu * cv)
        by (nonlinear_arith)
        requires
            0 <= cu && 0 <= cv && -cu <= u.x <= cu && -cu <= u.y <= cu && -cu <= u.z <= cu
                && -cv <= v.x <= cv && -cv <= v.y <= cv && -cv <= v.z <= cv,
    ;
}

/// Bounds for `scaled`: each component of the result stays within the
/// product of the bounds.
pub proof fn lemma_scaled_fits(v: Vec3, k: int, cv: int, ck: int)
    requires
        bounded(v, cv),
        -ck <= k <= ck,
        0 <= cv,
        0 <= ck,
    ensures
        -(cv * ck) <= tdiv(v.x * k, SCALE as int) <= cv * ck,
        -(cv * ck) <= tdiv(v.y * k, SCALE as int) <= cv * ck,
        -(cv * ck) <= tdiv(v.z * k, SCALE as int) <= cv * ck,
{
    lemma_mul_bound(v.x as int, k, cv, ck);
    lemma_mul_bound(v.y as int, k, cv, ck);
    lemma_mul_bound(v.z as int, k, cv, ck);
    crate::num::lemma_tdiv_shrinks(v.x * k, SCALE as int);
    crate::num::lemma_tdiv_shrinks(v.y * k, SCALE as int);
    crate::num::lemma_tdiv_shrinks(v.z * k, SCALE as int);
}

/// A vector with a non-zero component has a squared length of at least
/// one.
pub proof fn lemma_nonzero_dot(v: Vec3)
    requires
        !is_zero(v),
    ensures
        svdot(v, v) >= 1,
{
    assert(v.x * v.x + v.y * v.y + v.z * v.z >= 1) by (nonlinear_arith)
        requires
            !(v.x == 0 && v.y == 0 && v.z == 0),
    ;
}

/// The zero vector is orthogonal to everything.
pub proof fn lemma_zero_dot(v: Vec3, n: Vec3)
    requires
        is_zero(v),
    ensures
        svdot(v, n) == 0,
{
    assert(v.x * n.x + v.y * n.y + v.z * n.z == 0) by (nonlinear_arith)
        requires
            v.x == 0 && v.y == 0 && v.z == 0,
    ;
}

/// Law: normalizing a vector of at least half a world unit yields a
/// vector of unit length, within fixed-point tolerance: its squared
/// length lands within a few thousandths of one (`SCALE^2 - 6 * SCALE`
/// to `SCALE^2 + 11 * SCALE`, against an exact value of `SCALE^2`).
/// Below half a unit the law genuinely fails at this resolution.
pub proof fn lemma_unit_vector_length(v: Vec3)
    requires
        bounded(v, VEC_MAX as int),
        svdot(v, v) >= SCALE as int * SCALE as int / 4,
    ensures
        ({
            let u = tunit(sv(v));
            SCALE as int * SCALE as int - 6 * SCALE as int <= sdot3(u, u) <= SCALE as int
                * SCALE as int + 11 * SCALE as int
        }),
{
    let ls = svdot(v, v);
    crate::num::lemma_sqrt_floor_props(ls);
    let l = sqrt_floor(ls);
    assert(l >= 500) by (nonlinear_arith)
        requires
            l >= 0 && ls >= 250_000 && l * l <= ls && ls < (l + 1) * (l + 1),
    ;
    assert(-l <= v.x <= l && -l <= v.y <= l && -l <= v.z <= l) by (nonlinear_arith)
        requires
            ls == v.x * v.x + v.y * v.y + v.z * v.z && ls < (l + 1) * (l + 1) && l >= 0,
    ;
    let ux = tdiv(v.x * 1000, l);
    let uy = tdiv(v.y * 1000, l);
    let uz = tdiv(v.z * 1000, l);
    crate::num::lemma_tdiv_remainder(v.x * 1000, l);
    crate::num::lemma_tdiv_remainder(v.y * 1000, l);
    crate::num::lemma_tdiv_remainder(v.z * 1000, l);
    let ex = v.x * 1000 - l * ux;
    let ey = v.y * 1000 - l * uy;
    let ez = v.z * 1000 - l * uz;
    let s = ux * ux + uy * uy + uz * uz;
    assert(l * l * (ux * ux) == 1_000_000 * (v.x * v.x) - 2000 * (v.x * ex) + ex * ex)
        by (nonlinear_arith)
        requires
            l * ux == v.x * 1000 - ex,
    ;
    assert(l * l * (uy * uy) == 1_000_000 * (v.y * v.y) - 2000 * (v.y * ey) + ey * ey)
        by (nonlinear_arith)
        requires
            l * uy == v.y * 1000 - ey,
    ;
    assert(l * l * (uz * uz) == 1_000_000 * (v.z * v.z) - 2000 * (v.z * ez) + ez * ez)
        by (nonlinear_arith)
        requires
            l * uz == v.z * 1000 - ez,
    ;
    assert(l * l * s == 1_000_000 * ls - 2000 * (v.x * ex + v.y * ey + v.z * ez) + (ex * ex + ey
        * ey + ez * ez)) by (nonlinear_arith)
        requires
            l * l * (ux * ux) == 1_000_000 * (v.x * v.x) - 2000 * (v.x * ex) + ex * ex && l * l * (
            uy * uy) == 1_000_000 * (v.y * v.y) - 2000 * (v.y * ey) + ey * ey && l * l * (uz * uz)
                == 1_000_000 * (v.z * v.z) - 2000 * (v.z * ez) + ez * ez && ls == v.x * v.x + v.y
                * v.y + v.z * v.z && s == ux * ux + uy * uy + uz * uz,
    ;
    assert(-(l * l) <= v.x * ex <= l * l && -(l * l) <= v.y * ey <= l * l && -(l * l) <= v.z * ez
        <= l * l) by (nonlinear_arith)
        requires
            -l <= v.x <= l && -l <= v.y <= l && -l <= v.z <= l && -l < ex < l && -l < ey < l
                && -l < ez < l && l >= 0,
    ;
    assert(0 <= ex * ex + ey * ey + ez * ez <= 3 * (l * l)) by (nonlinear_arith)
        requires
            -l < ex < l && -l < ey < l && -l < ez < l && l >= 0,
    ;
    assert(1_000_000 * ls >= 1_000_000 * (l * l)) by (nonlinear_arith)
        requires
            ls >= l * l,
    ;
    assert(s >= 994_000) by (nonlinear_arith)
        requires
            l * l * s >= 1_000_000 * (l * l) - 2000 * (3 * (l * l)) && l >= 1,
    ;
    assert(1_000_000 * ls <= 1_000_000 * (l * l) + 4000 * (l * l) + 4 * (l * l))
        by (nonlinear_arith)
        requires
            ls < (l + 1) * (l + 1) && l >= 500,
    ;
    assert(s <= 1_011_000) by (nonlinear_arith)
        requires
            l * l * s <= 1_000_000 * (l * l) + 4000 * (l * l) + 4 * (l * l) + 2000 * (3 * (l * l))
                + 3 * (l * l) && l >= 1,
    ;
}

/// Law: the cross product is orthogonal to both of its factors — exactly,
/// with no tolerance, because the integer arithmetic is exact.
pub proof fn lemma_cross_orthogonal(u: Vec3, v: Vec3)
    ensures
        sdot3(scross(sv(u), sv(v)), sv(u)) == 0,
        sdot3(scross(sv(u), sv(v)), sv(v)) == 0,
{
    let a = u.x as int;
    let b = u.y as int;
    let c = u.z as int;
    let p = v.x as int;
    let q = v.y as int;
    let r = v.z as int;
    assert((b * r - c * q) * a + (c * p - a * r) * b + (a * q - b * p) * c == 0)
        by (nonlinear_arith);
    assert((b * r - c * q) * p + (c * p - a * r) * q + (a * q - b * p) * r == 0)
        by (nonlinear_arith);
}

} // verus!
