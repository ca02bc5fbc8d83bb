//! Surface materials: a closed set of scattering behaviours.
//!
//! A material turns an incoming ray and a hit record into an attenuation
//! and a scattered ray, or absorbs the ray.  The set of variants is
//! closed, so dispatch is an explicit match and materials copy cheaply.

use vstd::prelude::*;

use crate::colour::{Colour, valid_colour};
use crate::hittable::{HitRecord, rec_wf};
use crate::num::{SCALE, COORD_MAX, tdiv, div_trunc, isqrt, lemma_tdiv_bound, lemma_tdiv_ge_one};

use crate::ray::Ray;
use crate::vec3::{
    Vec3, sv, svdot, bounded, is_zero, tadd, tscale, tunit, treflect, trefract, srefract_cos,
    ssin_from_cos, unit_sample, random_unit_vector, lemma_nonzero_dot, lemma_zero_dot,
    lemma_dot_bound, lemma_mul_bound,
};

verus! {

/// The material of an empty record: absorbs everything.
#[derive(Clone, Copy)]
pub struct DefaultMaterial;

/// Absorption leaves everything untouched and scatters nothing.
pub open spec fn default_post(b: bool, old_att: Colour, att: Colour, old_sc: Ray, sc: Ray) -> bool {
    !b && att == old_att && sc == old_sc
}

impl DefaultMaterial {
    /// Absorb the ray, touching nothing.
    pub fn scatter(
        &self,
        r_in: &Ray,
        rec: &HitRecord,
        attenuation: &mut Colour,
        scattered: &mut Ray,
    ) -> (b: bool)
        ensures
            default_post(b, *old(attenuation), *final(attenuation), *old(scattered), *final(scattered)),
    {
        let _ = r_in;
        let _ = rec;
        false
    }
}

/// A diffuse surface: scatters towards the normal, attenuated by its
/// albedo.
#[derive(Clone, Copy)]
pub struct Lambertian {
    pub albedo: Colour,
}

/// Diffuse scattering: always accepted, attenuated by the albedo, and
/// directed along the normal plus some drawn near-unit vector — or the
/// normal itself when that sum degenerates to zero.
pub open spec fn lambertian_post(l: Lambertian, rec: HitRecord, b: bool, att: Colour, sc: Ray) -> bool {
    &&& b
    &&& att == l.albedo
    &&& sc.origin == rec.p
    &&& !is_zero(sc.direction)
    &&& bounded(sc.direction, 11_000)
    &&& exists|u: Vec3|
        #[trigger] unit_sample(u) && sv(sc.direction) == (if tadd(sv(rec.normal), sv(u)) == (
            0int,
            0int,
            0int,
        ) {
            sv(rec.normal)
        } else {
            tadd(sv(rec.normal), sv(u))
        })
}

impl Lambertian {
    pub fn new(albedo: Colour) -> (r: Lambertian)
        ensures
            r.albedo == albedo,
    {
        Lambertian { albedo }
    }

    pub open spec fn wf(&self) -> bool {
        valid_colour(self.albedo)
    }

    /// Always scatters: direction is the normal plus a random unit
    /// vector, with the normal substituted when that sum degenerates
    /// to zero.
    pub fn scatter(
        &self,
        r_in: &Ray,
        rec: &HitRecord,
        attenuation: &mut Colour,
        scattered: &mut Ray,
    ) -> (b: bool)
        requires
            self.wf(),
            rec_wf(*rec),
        ensures
            lambertian_post(*self, *rec, b, *final(attenuation), *final(scattered)),
    {
        let _ = r_in;
        let u = random_unit_vector();
        let mut scatter_direction = rec.normal.plus(u);
        if scatter_direction.near_zero() {
            scatter_direction = rec.normal;
        }
        *scattered = Ray::new(rec.p, scatter_direction);
        *attenuation = self.albedo;
        proof {
            assert(unit_sample(u) && sv(scattered.direction) == (if tadd(sv(rec.normal), sv(u))
                == (0int, 0int, 0int) {
                sv(rec.normal)
            } else {
                tadd(sv(rec.normal), sv(u))
            }));
        }
        true
    }
}

/// A reflective surface with a fuzz radius.
#[derive(Clone, Copy)]
pub struct Metal {
    pub albedo: Colour,
    pub fuzz: i64,
}

/// The exact mirror direction metal scattering perturbs: the unit
/// reflection of the unit incoming direction about the normal.
pub open spec fn smetal_mirror(d: Vec3, n: Vec3) -> (int, int, int) {
    treflect(tunit(sv(d)), sv(n))
}

/// Metal scattering: attenuated by the albedo, directed along the unit
/// mirror reflection perturbed by `fuzz` times some drawn near-unit
/// vector, and accepted exactly when it leaves the surface.  When the
/// mirror direction itself rounds to zero the ray is absorbed.
pub open spec fn metal_post(m: Metal, r_in: Ray, rec: HitRecord, b: bool, att: Colour, sc: Ray) -> bool {
    &&& att == m.albedo
    &&& sc.origin == rec.p
    &&& bounded(sc.direction, 3 * SCALE as int)
    &&& b == (svdot(sc.direction, rec.normal) > 0)
    &&& (smetal_mirror(r_in.direction, rec.normal) == (0int, 0int, 0int) ==> is_zero(sc.direction)
        && !b)
    &&& (smetal_mirror(r_in.direction, rec.normal) != (0int, 0int, 0int) ==> exists|u: Vec3|
        #[trigger] unit_sample(u) && sv(sc.direction) == tadd(
            tunit(smetal_mirror(r_in.direction, rec.normal)),
            tscale(sv(u), m.fuzz as int),
        ))
    &&& (m.fuzz == 0 && smetal_mirror(r_in.direction, rec.normal) != (0int, 0int, 0int) ==> sv(
        sc.direction,
    ) == tunit(smetal_mirror(r_in.direction, rec.normal)))
}

impl Metal {
    /// `fuzz` saturates into `[0, 1]`.
    pub fn new(albedo: Colour, fuzz: i64) -> (r: Metal)
        ensures
            r.albedo == albedo,
            r.fuzz == if fuzz < 0 {
                0
            } else if fuzz > SCALE {
                SCALE as int
            } else {
                fuzz as int
            },
    {
        let f = if fuzz < 0 {
            0
        } else if fuzz > SCALE {
            SCALE
        } else {
            fuzz
        };
        Metal { albedo, fuzz: f }
    }

    pub open spec fn wf(&self) -> bool {
        valid_colour(self.albedo) && 0 <= self.fuzz <= SCALE
    }

    /// Reflect about the normal, perturb the unit reflection by
    /// `fuzz` times a random unit vector, and accept the scatter only
    /// when it leaves the surface (`dot > 0`); otherwise the ray is
    /// absorbed.
    pub fn scatter(
        &self,
        r_in: &Ray,
        rec: &HitRecord,
        attenuation: &mut Colour,
        scattered: &mut Ray,
    ) -> (b: bool)
        requires
            self.wf(),
            rec_wf(*rec),
            bounded(r_in.direction, COORD_MAX as int),
            !is_zero(r_in.direction),
        ensures
            metal_post(*self, *r_in, *rec, b, *final(attenuation), *final(scattered)),
    {
        proof {
            lemma_nonzero_dot(r_in.direction);
        }
        let u = r_in.direction.unit_vector();
        let reflected = Vec3::reflect(u, rec.normal);
        if reflected.near_zero() {
            *scattered = Ray::new(rec.p, reflected);
            *attenuation = self.albedo;
            proof {
                lemma_zero_dot(reflected, rec.normal);
            }
            return false;
        }
        proof {
            lemma_nonzero_dot(reflected);
        }
        let mirror = reflected.unit_vector();
        let ruv = random_unit_vector();
        proof {
            lemma_mul_bound(ruv.x as int, self.fuzz as int, SCALE as int, SCALE as int);
            lemma_mul_bound(ruv.y as int, self.fuzz as int, SCALE as int, SCALE as int);
            lemma_mul_bound(ruv.z as int, self.fuzz as int, SCALE as int, SCALE as int);
            lemma_tdiv_bound(ruv.x * self.fuzz, SCALE as int, SCALE as int);
            lemma_tdiv_bound(ruv.y * self.fuzz, SCALE as int, SCALE as int);
            lemma_tdiv_bound(ruv.z * self.fuzz, SCALE as int, SCALE as int);
        }
        let fz = ruv.scaled(self.fuzz);
        let direction = mirror.plus(fz);
        proof {
            assert(unit_sample(ruv) && sv(direction) == tadd(
                tunit(smetal_mirror(r_in.direction, rec.normal)),
                tscale(sv(ruv), self.fuzz as int),
            ));
            if self.fuzz == 0 {
                assert(ruv.x * self.fuzz == 0 && ruv.y * self.fuzz == 0 && ruv.z * self.fuzz
                    == 0) by (nonlinear_arith)
                    requires
                        self.fuzz == 0,
                ;
                assert(tdiv(0, SCALE as int) == 0);
                assert(sv(direction) == tunit(treflect(tunit(sv(r_in.direction)), sv(rec.normal))));
            }
        }
        *scattered = Ray::new(rec.p, direction);
        *attenuation = self.albedo;
        Vec3::dot(scattered.direction(), rec.normal) > 0
    }
}

/// A clear refractive surface.
#[derive(Clone, Copy)]
pub struct Dielectric {
    pub refraction_index: i64,
}

/// The fixed-point ratio of refraction indices along the ray: the
/// reciprocal of the index when the front face was struck (entering),
/// the index itself when leaving.
pub open spec fn sdielectric_ratio(ri: int, front_face: bool) -> int {
    if front_face {
        tdiv(SCALE as int * SCALE as int, ri)
    } else {
        ri
    }
}

/// The exact direction dielectric scattering produces: total internal
/// reflection when Snell's law has no solution, refraction otherwise.
pub open spec fn sdielectric_dir(
    ri: int,
    front_face: bool,
    d: Vec3,
    n: Vec3,
) -> (int, int, int) {
    let ratio = sdielectric_ratio(ri, front_face);
    let u = tunit(sv(d));
    let cos = srefract_cos(u, sv(n));
    let sin = ssin_from_cos(cos);
    if ratio * sin > SCALE as int * SCALE as int {
        treflect(u, sv(n))
    } else {
        trefract(u, sv(n), ratio)
    }
}

/// Dielectric scattering: always accepted, white attenuation, and the
/// direction pinned exactly by Snell's law with its total-internal-
/// reflection fallback.
pub open spec fn dielectric_post(d: Dielectric, r_in: Ray, rec: HitRecord, b: bool, att: Colour, sc: Ray) -> bool {
    &&& b
    &&& att.x == SCALE && att.y == SCALE && att.z == SCALE
    &&& sc.origin == rec.p
    &&& sv(sc.direction) == sdielectric_dir(
        d.refraction_index as int,
        rec.front_face,
        r_in.direction,
        rec.normal,
    )
    &&& bounded(sc.direction, 7_000_000)
}

impl Dielectric {
    pub fn new(refraction_index: i64) -> (r: Dielectric)
        ensures
            r.refraction_index == refraction_index,
    {
        Dielectric { refraction_index }
    }

    /// Indices from one tenth to ten: the range the fixed-point
    /// refraction arithmetic stays in bounds for.
    pub open spec fn wf(&self) -> bool {
        SCALE as int / 10 <= self.refraction_index <= 10 * SCALE as int
    }

    /// Always scatters and absorbs nothing: the attenuation is white and
    /// the direction follows Snell's law, falling back to reflection at
    /// total internal reflection.
    pub fn scatter(
        &self,
        r_in: &Ray,
        rec: &HitRecord,
        attenuation: &mut Colour,
        scattered: &mut Ray,
    ) -> (b: bool)
        requires
            self.wf(),
            rec_wf(*rec),
            bounded(r_in.direction, COORD_MAX as int),
            !is_zero(r_in.direction),
        ensures
            dielectric_post(*self, *r_in, *rec, b, *final(attenuation), *final(scattered)),
    {
        *attenuation = Vec3::new(SCALE, SCALE, SCALE);
        let ri: i64 = if rec.front_face {
            proof {
                lemma_tdiv_ge_one(SCALE as int * SCALE as int, self.refraction_index as int);
                lemma_tdiv_bound(SCALE as int * SCALE as int, self.refraction_index as int, 10 * SCALE as int);
            }
            div_trunc((SCALE as i128) * (SCALE as i128), self.refraction_index as i128) as i64
        } else {
            self.refraction_index
        };
        proof {
            lemma_nonzero_dot(r_in.direction);
        }
        let unit_direction = r_in.direction.unit_vector();
        let nu = unit_direction.negate();
        proof {
            lemma_dot_bound(nu, rec.normal, SCALE as int, crate::num::NORMAL_MAX as int);
        }
        let dcos = Vec3::dot(nu, rec.normal);
        proof {
            lemma_tdiv_bound(dcos as int, SCALE as int, 30_000);
        }
        let mut cos_theta = div_trunc(dcos as i128, SCALE as i128) as i64;
        if cos_theta > SCALE {
            cos_theta = SCALE;
        }
        proof {
            lemma_mul_bound(cos_theta as int, cos_theta as int, 30_000, 30_000);
            assert(cos_theta * cos_theta >= 0) by (nonlinear_arith);
        }
        let s2 = SCALE * SCALE - cos_theta * cos_theta;
        let sin_theta: i64 = if s2 >= 0 {
            let q = isqrt(s2 as u128);
            proof {
                assert(q <= 1000) by (nonlinear_arith)
                    requires
                        q * q <= s2 as int && s2 <= 1_000_000 && q >= 0,
                ;
            }
            q as i64
        } else {
            proof {
                crate::num::lemma_sqrt_floor(0, 0);
            }
            0
        };
        proof {
            lemma_mul_bound(ri as int, sin_theta as int, 10_000, SCALE as int);
        }
        let cannot_refract = ri * sin_theta > SCALE * SCALE;
        let direction = if cannot_refract {
            Vec3::reflect(unit_direction, rec.normal)
        } else {
            Vec3::refract(unit_direction, rec.normal, ri)
        };
        *scattered = Ray::new(rec.p, direction);
        true
    }
}

/// The closed set of materials, dispatched by explicit match.
#[derive(Clone, Copy)]
pub enum MaterialEnum {
    Default(DefaultMaterial),
    Lambertian(Lambertian),
    Metal(Metal),
    Dielectric(Dielectric),
}

/// Well-formedness of whichever variant is present.
pub open spec fn mat_wf(m: MaterialEnum) -> bool {
    match m {
        MaterialEnum::Default(_) => true,
        MaterialEnum::Lambertian(l) => l.wf(),
        MaterialEnum::Metal(mt) => mt.wf(),
        MaterialEnum::Dielectric(d) => d.wf(),
    }
}

impl MaterialEnum {
    /// Dispatch to the variant.  The clauses shared by every variant are
    /// what the radiance loop relies on: a scatter hands back a
    /// displayable attenuation and a bounded ray from the hit point.
    pub fn scatter(
        &self,
        r_in: &Ray,
        rec: &HitRecord,
        attenuation: &mut Colour,
        scattered: &mut Ray,
    ) -> (b: bool)
        requires
            mat_wf(*self),
            rec_wf(*rec),
            bounded(r_in.direction, COORD_MAX as int),
            !is_zero(r_in.direction),
        ensures
            b ==> valid_colour(*final(attenuation)),
            b ==> final(scattered).origin == rec.p,
            b ==> bounded(final(scattered).direction, COORD_MAX as int),
            self is Lambertian ==> b,
            self is Dielectric ==> b,
            self is Default ==> !b,
            self matches MaterialEnum::Default(_) ==> default_post(
                b,
                *old(attenuation),
                *final(attenuation),
                *old(scattered),
                *final(scattered),
            ),
            self matches MaterialEnum::Lambertian(l) ==> lambertian_post(
                *l,
                *rec,
                b,
                *final(attenuation),
                *final(scattered),
            ),
            self matches MaterialEnum::Metal(m) ==> metal_post(
                *m,
                *r_in,
                *rec,
                b,
                *final(attenuation),
                *final(scattered),
            ),
            self matches MaterialEnum::Dielectric(d) ==> dielectric_post(
                *d,
                *r_in,
                *rec,
                b,
                *final(attenuation),
                *final(scattered),
            ),
    {
        match self {
            MaterialEnum::Default(m) => m.scatter(r_in, rec, attenuation, scattered),
            MaterialEnum::Lambertian(m) => m.scatter(r_in, rec, attenuation, scattered),
            MaterialEnum::Metal(m) => m.scatter(r_in, rec, attenuation, scattered),
            MaterialEnum::Dielectric(m) => m.scatter(r_in, rec, attenuation, scattered),
        }
    }
}

impl MaterialEnum {
    /// Whether the variant is well formed; callers outside the proof
    /// world test this before tracing.
    pub fn well_formed(&self) -> (b: bool)
        ensures
            b == mat_wf(*self),
    {
        match self {
            MaterialEnum::Default(_) => true,
            MaterialEnum::Lambertian(l) => 0 <= l.albedo.x && l.albedo.x <= SCALE && 0
                <= l.albedo.y && l.albedo.y <= SCALE && 0 <= l.albedo.z && l.albedo.z <= SCALE,
            MaterialEnum::Metal(m) => 0 <= m.albedo.x && m.albedo.x <= SCALE && 0 <= m.albedo.y
                && m.albedo.y <= SCALE && 0 <= m.albedo.z && m.albedo.z <= SCALE && 0 <= m.fuzz
                && m.fuzz <= SCALE,
            MaterialEnum::Dielectric(d) => 100 <= d.refraction_index && d.refraction_index <= 10
                * SCALE,
        }
    }
}

impl Default for MaterialEnum {
    fn default() -> (r: MaterialEnum)
        ensures
            r is Default,
    {
        MaterialEnum::Default(DefaultMaterial)
    }
}

} // verus!
