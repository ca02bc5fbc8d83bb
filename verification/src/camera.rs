//! The camera: image-plane sampling geometry, primary rays, and the
//! per-row rendering loop.
//!
//! Angles reach this module as fixed-point tangents (`tan(vfov / 2)`,
//! `tan(defocus_angle / 2)`): trigonometry itself is the caller's
//! business, everything after it is exact integer arithmetic.

use vstd::prelude::*;
use vstd::string::StringExecFns;

use crate::colour::{pixel_line, dec_digits, push_decimal, push_space, sbyte, valid_colour};
use crate::hittable_list::HittableList;
use crate::num::{SCALE, COORD_MAX, tdiv, div_trunc, lemma_tdiv_bound, lemma_tdiv_shrinks};
use crate::ray::{Point3, Ray, sany_hit, sbackground, nearest_hit_absorbs};
use crate::utils::sample_square;
use crate::vec3::{
    Vec3, sv, svdot, scross, tsub, tadd, tneg, tscale, tdivided, tunit, bounded, is_zero,
    lemma_mul_bound, lemma_nonzero_dot, lemma_scaled_fits,
};

verus! {

#[derive(Clone, Copy)]
pub struct Camera {
    pub aspect_ratio: i64,
    pub image_width: i64,
    pub samples_per_pixel: i64,
    pub max_depth: i64,
    pub tan_half_vfov: i64,
    pub look_from: Point3,
    pub look_at: Point3,
    pub vup: Vec3,
    pub tan_half_defocus: i64,
    pub focus_dist: i64,
    pub image_height: i64,
    pub center: Point3,
    pub pixel00_loc: Point3,
    pub pixel_delta_u: Vec3,
    pub pixel_delta_v: Vec3,
    pub defocus_disk_u: Vec3,
    pub defocus_disk_v: Vec3,
}

/// Image height from width and aspect ratio, at least one row.
pub open spec fn simage_height(cam: Camera) -> int {
    let h = tdiv(cam.image_width * SCALE, cam.aspect_ratio as int);
    if h < 1 {
        1
    } else {
        h
    }
}

/// The basis vector pointing from the target back to the camera.
pub open spec fn sbasis_w(cam: Camera) -> (int, int, int) {
    tunit(tsub(sv(cam.look_from), sv(cam.look_at)))
}

pub open spec fn sbasis_u(cam: Camera) -> (int, int, int) {
    tunit(scross(sv(cam.vup), sbasis_w(cam)))
}

pub open spec fn sbasis_v(cam: Camera) -> (int, int, int) {
    tdivided(scross(sbasis_w(cam), sbasis_u(cam)), SCALE as int * SCALE as int)
}

pub open spec fn sview_height(cam: Camera) -> int {
    2 * tdiv(cam.tan_half_vfov * cam.focus_dist, SCALE as int)
}

pub open spec fn sview_width(cam: Camera) -> int {
    tdiv(
        sview_height(cam) * tdiv(cam.image_width * SCALE, simage_height(cam)),
        SCALE as int,
    )
}

pub open spec fn sviewport_u(cam: Camera) -> (int, int, int) {
    tscale(sbasis_u(cam), sview_width(cam))
}

pub open spec fn sviewport_v(cam: Camera) -> (int, int, int) {
    tscale(tneg(sbasis_v(cam)), sview_height(cam))
}

pub open spec fn sdelta_u(cam: Camera) -> (int, int, int) {
    tdivided(sviewport_u(cam), cam.image_width * SCALE)
}

pub open spec fn sdelta_v(cam: Camera) -> (int, int, int) {
    tdivided(sviewport_v(cam), simage_height(cam) * SCALE)
}

pub open spec fn supper_left(cam: Camera) -> (int, int, int) {
    tsub(
        tsub(
            tsub(sv(cam.look_from), tscale(sbasis_w(cam), cam.focus_dist as int)),
            tdivided(sviewport_u(cam), 2 * SCALE as int),
        ),
        tdivided(sviewport_v(cam), 2 * SCALE as int),
    )
}

pub open spec fn spixel00(cam: Camera) -> (int, int, int) {
    tadd(supper_left(cam), tscale(tadd(sdelta_u(cam), sdelta_v(cam)), SCALE as int / 2))
}

pub open spec fn sdefocus_radius(cam: Camera) -> int {
    tdiv(cam.focus_dist * cam.tan_half_defocus, SCALE as int)
}

/// Every derived field agrees with its defining formula.
pub open spec fn derived_ok(cam: Camera) -> bool {
    &&& cam.image_height == simage_height(cam)
    &&& cam.center == cam.look_from
    &&& sv(cam.pixel00_loc) == spixel00(cam)
    &&& sv(cam.pixel_delta_u) == sdelta_u(cam)
    &&& sv(cam.pixel_delta_v) == sdelta_v(cam)
    &&& sv(cam.defocus_disk_u) == tscale(sbasis_u(cam), sdefocus_radius(cam))
    &&& sv(cam.defocus_disk_v) == tscale(sbasis_v(cam), sdefocus_radius(cam))
}

impl Camera {
    /// Derive the sampling geometry once: image height, the orthonormal
    /// basis, the pixel step vectors, the top-left pixel's location, and
    /// the defocus disk basis.
    pub fn new(
        aspect_ratio: i64,
        image_width: i64,
        samples_per_pixel: i64,
        max_depth: i64,
        tan_half_vfov: i64,
        look_from: Point3,
        look_at: Point3,
        vup: Vec3,
        tan_half_defocus: i64,
        focus_dist: i64,
    ) -> (cam: Camera)
        requires
            100 <= aspect_ratio <= 100_000,
            1 <= image_width <= 20_000,
            1 <= samples_per_pixel <= 100_000,
            0 <= max_depth <= 10_000,
            1 <= tan_half_vfov <= 10_000,
            bounded(look_from, 1_000_000),
            bounded(look_at, 1_000_000),
            bounded(vup, 100_000),
            sv(look_from) != sv(look_at),
            scross(sv(vup), tunit(tsub(sv(look_from), sv(look_at)))) != (0int, 0int, 0int),
            0 <= tan_half_defocus <= 10_000,
            1 <= focus_dist <= 1_000_000,
        ensures
            cam.aspect_ratio == aspect_ratio,
            cam.image_width == image_width,
            cam.samples_per_pixel == samples_per_pixel,
            cam.max_depth == max_depth,
            cam.tan_half_vfov == tan_half_vfov,
            cam.look_from == look_from,
            cam.look_at == look_at,
            cam.vup == vup,
            cam.tan_half_defocus == tan_half_defocus,
            cam.focus_dist == focus_dist,
            derived_ok(cam),
            1 <= cam.image_height,
    {
        proof {
            lemma_mul_bound(image_width as int, SCALE as int, 20_000, SCALE as int);
            lemma_tdiv_shrinks(image_width * SCALE, aspect_ratio as int);
        }
        let mut image_height = div_trunc(
            (image_width as i128) * (SCALE as i128),
            aspect_ratio as i128,
        ) as i64;
        if image_height < 1 {
            image_height = 1
        }
        let center = look_from;

        proof {
            lemma_mul_bound(tan_half_vfov as int, focus_dist as int, 10_000, 1_000_000);
            lemma_tdiv_bound(tan_half_vfov * focus_dist, SCALE as int, 10_000_000);
        }
        let t1 = div_trunc((tan_half_vfov as i128) * (focus_dist as i128), SCALE as i128) as i64;
        let viewport_height = 2 * t1;
        proof {
            lemma_mul_bound(image_width as int, SCALE as int, 20_000, SCALE as int);
            lemma_tdiv_shrinks(image_width * SCALE, image_height as int);
        }
        let ratio = div_trunc((image_width as i128) * (SCALE as i128), image_height as i128)
            as i64;
        proof {
            lemma_mul_bound(viewport_height as int, ratio as int, 20_000_000, 20_000_000);
            lemma_tdiv_bound(viewport_height * ratio, SCALE as int, 400_000_000_000);
        }
        let viewport_width = div_trunc((viewport_height as i128) * (ratio as i128), SCALE as i128)
            as i64;

        let fm = look_from.minus(look_at);
        proof {
            assert(!is_zero(fm));
            lemma_nonzero_dot(fm);
        }
        let w = fm.unit_vector();
        proof {
            lemma_mul_bound(vup.y as int, w.z as int, 100_000, SCALE as int);
            lemma_mul_bound(vup.z as int, w.y as int, 100_000, SCALE as int);
            lemma_mul_bound(vup.z as int, w.x as int, 100_000, SCALE as int);
            lemma_mul_bound(vup.x as int, w.z as int, 100_000, SCALE as int);
            lemma_mul_bound(vup.x as int, w.y as int, 100_000, SCALE as int);
            lemma_mul_bound(vup.y as int, w.x as int, 100_000, SCALE as int);
        }
        let cu = Vec3::cross(vup, w);
        proof {
            assert(bounded(cu, 200_000_000));
            assert(!is_zero(cu));
            lemma_nonzero_dot(cu);
        }
        let u = cu.unit_vector();
        proof {
            lemma_mul_bound(w.y as int, u.z as int, SCALE as int, SCALE as int);
            lemma_mul_bound(w.z as int, u.y as int, SCALE as int, SCALE as int);
            lemma_mul_bound(w.z as int, u.x as int, SCALE as int, SCALE as int);
            lemma_mul_bound(w.x as int, u.z as int, SCALE as int, SCALE as int);
            lemma_mul_bound(w.x as int, u.y as int, SCALE as int, SCALE as int);
            lemma_mul_bound(w.y as int, u.x as int, SCALE as int, SCALE as int);
        }
        let cv = Vec3::cross(w, u);
        proof {
            assert(bounded(cv, 2_000_000));
            lemma_tdiv_bound(cv.x * SCALE, SCALE as int * SCALE as int, 2_000);
            lemma_tdiv_bound(cv.y * SCALE, SCALE as int * SCALE as int, 2_000);
            lemma_tdiv_bound(cv.z * SCALE, SCALE as int * SCALE as int, 2_000);
        }
        let v = cv.divided(SCALE * SCALE);

        proof {
            lemma_scaled_fits(u, viewport_width as int, SCALE as int, 400_000_000_000);
        }
        let viewport_u = u.scaled(viewport_width);
        let nv = v.negate();
        proof {
            lemma_scaled_fits(nv, viewport_height as int, 2_000, 20_000_000);
        }
        let viewport_v = nv.scaled(viewport_height);
        proof {
            lemma_mul_bound(viewport_u.x as int, SCALE as int, 400_000_000_000_000, SCALE as int);
            lemma_mul_bound(viewport_u.y as int, SCALE as int, 400_000_000_000_000, SCALE as int);
            lemma_mul_bound(viewport_u.z as int, SCALE as int, 400_000_000_000_000, SCALE as int);
            lemma_tdiv_bound(viewport_u.x * SCALE, image_width * SCALE, 400_000_000_000_000);
            lemma_tdiv_bound(viewport_u.y * SCALE, image_width * SCALE, 400_000_000_000_000);
            lemma_tdiv_bound(viewport_u.z * SCALE, image_width * SCALE, 400_000_000_000_000);
            lemma_mul_bound(viewport_v.x as int, SCALE as int, 40_000_000_000, SCALE as int);
            lemma_mul_bound(viewport_v.y as int, SCALE as int, 40_000_000_000, SCALE as int);
            lemma_mul_bound(viewport_v.z as int, SCALE as int, 40_000_000_000, SCALE as int);
            lemma_tdiv_bound(viewport_v.x * SCALE, image_height * SCALE, 40_000_000_000);
            lemma_tdiv_bound(viewport_v.y * SCALE, image_height * SCALE, 40_000_000_000);
            lemma_tdiv_bound(viewport_v.z * SCALE, image_height * SCALE, 40_000_000_000);
        }
        let pixel_delta_u = viewport_u.divided(image_width * SCALE);
        let pixel_delta_v = viewport_v.divided(image_height * SCALE);

        proof {
            lemma_scaled_fits(w, focus_dist as int, SCALE as int, 1_000_000);
            lemma_tdiv_bound(viewport_u.x * SCALE, 2 * SCALE as int, 200_000_000_000_000);
            lemma_tdiv_bound(viewport_u.y * SCALE, 2 * SCALE as int, 200_000_000_000_000);
            lemma_tdiv_bound(viewport_u.z * SCALE, 2 * SCALE as int, 200_000_000_000_000);
            lemma_tdiv_bound(viewport_v.x * SCALE, 2 * SCALE as int, 20_000_000_000);
            lemma_tdiv_bound(viewport_v.y * SCALE, 2 * SCALE as int, 20_000_000_000);
            lemma_tdiv_bound(viewport_v.z * SCALE, 2 * SCALE as int, 20_000_000_000);
        }
        let viewport_upper_left = center.minus(w.scaled(focus_dist)).minus(
            viewport_u.divided(2 * SCALE),
        ).minus(viewport_v.divided(2 * SCALE));
        let delta_sum = pixel_delta_u.plus(pixel_delta_v);
        proof {
            lemma_scaled_fits(delta_sum, SCALE as int / 2, 401_000_000_000_000, SCALE as int);
        }
        let pixel00_loc = viewport_upper_left.plus(delta_sum.scaled(SCALE / 2));

        proof {
            lemma_mul_bound(focus_dist as int, tan_half_defocus as int, 1_000_000, 10_000);
            lemma_tdiv_bound(focus_dist * tan_half_defocus, SCALE as int, 10_000_000);
        }
        let defocus_radius = div_trunc(
            (focus_dist as i128) * (tan_half_defocus as i128),
            SCALE as i128,
        ) as i64;
        proof {
            lemma_scaled_fits(u, defocus_radius as int, SCALE as int, 10_000_000);
            lemma_scaled_fits(v, defocus_radius as int, 2_000, 10_000_000);
        }
        let defocus_disk_u = u.scaled(defocus_radius);
        let defocus_disk_v = v.scaled(defocus_radius);

        Camera {
            aspect_ratio,
            image_width,
            samples_per_pixel,
            max_depth,
            tan_half_vfov,
            look_from,
            look_at,
            vup,
            tan_half_defocus,
            focus_dist,
            image_height,
            center,
            pixel00_loc,
            pixel_delta_u,
            pixel_delta_v,
            defocus_disk_u,
            defocus_disk_v,
        }
    }
}

/// Every component of `k * v` within `[-b, b]`.
pub open spec fn scaled_within(k: int, v: Vec3, b: int) -> bool {
    &&& -b <= k * v.x <= b
    &&& -b <= k * v.y <= b
    &&& -b <= k * v.z <= b
}

/// The runtime bounds under which every primary ray provably stays
/// inside the tracer's coordinate range.
pub open spec fn trace_wf(cam: Camera) -> bool {
    &&& 1 <= cam.image_width <= 20_000
    &&& 1 <= cam.image_height <= 200_000
    &&& 1 <= cam.samples_per_pixel <= 100_000
    &&& 0 <= cam.max_depth <= 10_000
    &&& 0 <= cam.tan_half_defocus
    &&& bounded(cam.center, 1_000_000)
    &&& bounded(cam.pixel00_loc, 1_000_000)
    &&& bounded(cam.defocus_disk_u, 1_000_000)
    &&& bounded(cam.defocus_disk_v, 1_000_000)
    &&& scaled_within(cam.image_width + 1, cam.pixel_delta_u, 1_000_000)
    &&& scaled_within(cam.image_height + 1, cam.pixel_delta_v, 1_000_000)
}

/// The origin a primary ray starts from: the camera center, or a point
/// of the defocus disk when the lens is open.
pub open spec fn sray_origin(cam: Camera, disk: Vec3) -> (int, int, int) {
    if cam.tan_half_defocus <= 0 {
        sv(cam.center)
    } else {
        tadd(
            sv(cam.center),
            tadd(
                tscale(sv(cam.defocus_disk_u), disk.x as int),
                tscale(sv(cam.defocus_disk_v), disk.y as int),
            ),
        )
    }
}

/// The jittered image-plane point for pixel `(i, j)`.
pub open spec fn spixel_sample(cam: Camera, i: int, j: int, off: Vec3) -> (int, int, int) {
    tadd(
        sv(cam.pixel00_loc),
        tadd(
            tscale(sv(cam.pixel_delta_u), i * SCALE + off.x),
            tscale(sv(cam.pixel_delta_v), j * SCALE + off.y),
        ),
    )
}

/// An admissible primary ray for pixel `(i, j)`: produced by some
/// jitter offset in the half-step square and some defocus-disk sample.
pub open spec fn admissible_ray(cam: Camera, i: int, j: int, r: Ray) -> bool {
    exists|off: Vec3, disk: Vec3|
        #![auto]
        -SCALE as int / 2 <= off.x <= SCALE as int / 2 && -SCALE as int / 2 <= off.y
            <= SCALE as int / 2 && off.z == 0 && bounded(disk, SCALE as int) && svdot(disk, disk)
            < SCALE as int * SCALE as int && disk.z == 0 && sv(r.origin) == sray_origin(cam, disk)
            && sv(r.direction) == tsub(spixel_sample(cam, i, j, off), sray_origin(cam, disk))
}

impl Camera {
    /// Whether the derived geometry is within the bounds the tracer
    /// needs.  Callers outside the proof world test this before
    /// rendering.
    pub fn trace_ready(&self) -> (b: bool)
        ensures
            b == trace_wf(*self),
    {
        if self.image_width < 1 || self.image_width > 20_000 {
            return false;
        }
        if self.image_height < 1 || self.image_height > 200_000 {
            return false;
        }
        if self.samples_per_pixel < 1 || self.samples_per_pixel > 100_000 {
            return false;
        }
        if self.max_depth < 0 || self.max_depth > 10_000 {
            return false;
        }
        if self.tan_half_defocus < 0 {
            return false;
        }
        if !in_box(self.center, 1_000_000) || !in_box(self.pixel00_loc, 1_000_000) || !in_box(
            self.defocus_disk_u,
            1_000_000,
        ) || !in_box(self.defocus_disk_v, 1_000_000) {
            return false;
        }
        let du = self.pixel_delta_u;
        let dv = self.pixel_delta_v;
        let kw = (self.image_width as i128) + 1;
        let kh = (self.image_height as i128) + 1;
        proof {
            lemma_mul_bound(kw as int, du.x as int, 20_001, 9_300_000_000_000_000_000);
            lemma_mul_bound(kw as int, du.y as int, 20_001, 9_300_000_000_000_000_000);
            lemma_mul_bound(kw as int, du.z as int, 20_001, 9_300_000_000_000_000_000);
            lemma_mul_bound(kh as int, dv.x as int, 200_001, 9_300_000_000_000_000_000);
            lemma_mul_bound(kh as int, dv.y as int, 200_001, 9_300_000_000_000_000_000);
            lemma_mul_bound(kh as int, dv.z as int, 200_001, 9_300_000_000_000_000_000);
        }
        wide_in(kw * (du.x as i128), 1_000_000) && wide_in(kw * (du.y as i128), 1_000_000)
            && wide_in(kw * (du.z as i128), 1_000_000) && wide_in(kh * (dv.x as i128), 1_000_000)
            && wide_in(kh * (dv.y as i128), 1_000_000) && wide_in(kh * (dv.z as i128), 1_000_000)
    }

    /// The primary ray for pixel `(i, j)` with an explicit jitter offset
    /// and defocus-disk sample: deterministic, so callers can pin every
    /// value.
    pub fn ray_for(&self, i: i64, j: i64, offset: Vec3, disk: Vec3) -> (r: Ray)
        requires
            trace_wf(*self),
            0 <= i < self.image_width,
            0 <= j < self.image_height,
            -SCALE / 2 <= offset.x <= SCALE / 2,
            -SCALE / 2 <= offset.y <= SCALE / 2,
            bounded(disk, SCALE as int),
        ensures
            sv(r.origin) == sray_origin(*self, disk),
            sv(r.direction) == tsub(spixel_sample(*self, i as int, j as int, offset), sray_origin(*self, disk)),
            bounded(r.origin, COORD_MAX as int),
            bounded(r.direction, COORD_MAX as int),
    {
        let origin = if self.tan_half_defocus <= 0 {
            self.center
        } else {
            proof {
                lemma_mul_bound(self.defocus_disk_u.x as int, disk.x as int, 1_000_000, SCALE as int);
                lemma_mul_bound(self.defocus_disk_u.y as int, disk.x as int, 1_000_000, SCALE as int);
                lemma_mul_bound(self.defocus_disk_u.z as int, disk.x as int, 1_000_000, SCALE as int);
                lemma_mul_bound(self.defocus_disk_v.x as int, disk.y as int, 1_000_000, SCALE as int);
                lemma_mul_bound(self.defocus_disk_v.y as int, disk.y as int, 1_000_000, SCALE as int);
                lemma_mul_bound(self.defocus_disk_v.z as int, disk.y as int, 1_000_000, SCALE as int);
                lemma_tdiv_bound(self.defocus_disk_u.x * disk.x, SCALE as int, 1_000_000);
                lemma_tdiv_bound(self.defocus_disk_u.y * disk.x, SCALE as int, 1_000_000);
                lemma_tdiv_bound(self.defocus_disk_u.z * disk.x, SCALE as int, 1_000_000);
                lemma_tdiv_bound(self.defocus_disk_v.x * disk.y, SCALE as int, 1_000_000);
                lemma_tdiv_bound(self.defocus_disk_v.y * disk.y, SCALE as int, 1_000_000);
                lemma_tdiv_bound(self.defocus_disk_v.z * disk.y, SCALE as int, 1_000_000);
            }
            self.center.plus(
                self.defocus_disk_u.scaled(disk.x).plus(self.defocus_disk_v.scaled(disk.y)),
            )
        };
        let ku = i * SCALE + offset.x;
        let kv = j * SCALE + offset.y;
        proof {
            lemma_jitter_term(self.image_width as int, self.pixel_delta_u.x as int, i as int, offset.x as int);
            lemma_jitter_term(self.image_width as int, self.pixel_delta_u.y as int, i as int, offset.x as int);
            lemma_jitter_term(self.image_width as int, self.pixel_delta_u.z as int, i as int, offset.x as int);
            lemma_jitter_term(self.image_height as int, self.pixel_delta_v.x as int, j as int, offset.y as int);
            lemma_jitter_term(self.image_height as int, self.pixel_delta_v.y as int, j as int, offset.y as int);
            lemma_jitter_term(self.image_height as int, self.pixel_delta_v.z as int, j as int, offset.y as int);
            lemma_tdiv_bound(self.pixel_delta_u.x * ku, SCALE as int, 1_000_000);
            lemma_tdiv_bound(self.pixel_delta_u.y * ku, SCALE as int, 1_000_000);
            lemma_tdiv_bound(self.pixel_delta_u.z * ku, SCALE as int, 1_000_000);
            lemma_tdiv_bound(self.pixel_delta_v.x * kv, SCALE as int, 1_000_000);
            lemma_tdiv_bound(self.pixel_delta_v.y * kv, SCALE as int, 1_000_000);
            lemma_tdiv_bound(self.pixel_delta_v.z * kv, SCALE as int, 1_000_000);
        }
        let pixel_sample = self.pixel00_loc.plus(
            self.pixel_delta_u.scaled(ku).plus(self.pixel_delta_v.scaled(kv)),
        );
        let direction = pixel_sample.minus(origin);
        Ray::new(origin, direction)
    }

    /// The primary ray for pixel `(i, j)` with random jitter and lens
    /// sampling: some admissible ray for that pixel, with the camera
    /// center as origin whenever the lens is closed.
    pub fn get_ray(&self, i: i64, j: i64) -> (r: Ray)
        requires
            trace_wf(*self),
            0 <= i < self.image_width,
            0 <= j < self.image_height,
        ensures
            bounded(r.origin, COORD_MAX as int),
            bounded(r.direction, COORD_MAX as int),
            admissible_ray(*self, i as int, j as int, r),
            self.tan_half_defocus <= 0 ==> sv(r.origin) == sv(self.center),
    {
        let offset = sample_square();
        let disk = if self.tan_half_defocus <= 0 {
            Vec3::new(0, 0, 0)
        } else {
            Vec3::random_in_unit_disk()
        };
        proof {
            crate::vec3::lemma_zero_dot(Vec3 { x: 0, y: 0, z: 0 }, Vec3 { x: 0, y: 0, z: 0 });
        }
        let r = self.ray_for(i, j, offset, disk);
        proof {
            assert(-SCALE as int / 2 <= offset.x <= SCALE as int / 2 && -SCALE as int / 2
                <= offset.y <= SCALE as int / 2 && offset.z == 0 && bounded(disk, SCALE as int)
                && svdot(disk, disk) < SCALE as int * SCALE as int && disk.z == 0 && sv(r.origin)
                == sray_origin(*self, disk) && sv(r.direction) == tsub(
                spixel_sample(*self, i as int, j as int, offset),
                sray_origin(*self, disk),
            ));
        }
        r
    }

    /// A random origin on the defocus disk: the camera center displaced
    /// along the disk basis by some unit-disk sample.
    pub fn defocus_disk_sample(&self) -> (p: Point3)
        requires
            trace_wf(*self),
        ensures
            bounded(p, 3_000_000),
            exists|d: Vec3|
                #![auto]
                bounded(d, SCALE as int) && svdot(d, d) < SCALE as int * SCALE as int && d.z == 0
                    && sv(p) == tadd(
                    sv(self.center),
                    tadd(
                        tscale(sv(self.defocus_disk_u), d.x as int),
                        tscale(sv(self.defocus_disk_v), d.y as int),
                    ),
                ),
    {
        let d = Vec3::random_in_unit_disk();
        proof {
            lemma_mul_bound(self.defocus_disk_u.x as int, d.x as int, 1_000_000, SCALE as int);
            lemma_mul_bound(self.defocus_disk_u.y as int, d.x as int, 1_000_000, SCALE as int);
            lemma_mul_bound(self.defocus_disk_u.z as int, d.x as int, 1_000_000, SCALE as int);
            lemma_mul_bound(self.defocus_disk_v.x as int, d.y as int, 1_000_000, SCALE as int);
            lemma_mul_bound(self.defocus_disk_v.y as int, d.y as int, 1_000_000, SCALE as int);
            lemma_mul_bound(self.defocus_disk_v.z as int, d.y as int, 1_000_000, SCALE as int);
            lemma_tdiv_bound(self.defocus_disk_u.x * d.x, SCALE as int, 1_000_000);
            lemma_tdiv_bound(self.defocus_disk_u.y * d.x, SCALE as int, 1_000_000);
            lemma_tdiv_bound(self.defocus_disk_u.z * d.x, SCALE as int, 1_000_000);
            lemma_tdiv_bound(self.defocus_disk_v.x * d.y, SCALE as int, 1_000_000);
            lemma_tdiv_bound(self.defocus_disk_v.y * d.y, SCALE as int, 1_000_000);
            lemma_tdiv_bound(self.defocus_disk_v.z * d.y, SCALE as int, 1_000_000);
        }
        let p = self.center.plus(
            self.defocus_disk_u.scaled(d.x).plus(self.defocus_disk_v.scaled(d.y)),
        );
        proof {
            assert(bounded(d, SCALE as int) && svdot(d, d) < SCALE as int * SCALE as int && d.z
                == 0 && sv(p) == tadd(
                sv(self.center),
                tadd(
                    tscale(sv(self.defocus_disk_u), d.x as int),
                    tscale(sv(self.defocus_disk_v), d.y as int),
                ),
            ));
        }
        p
    }
}

/// Check one wide product against a symmetric bound.
fn in_box(v: Vec3, b: i64) -> (r: bool)
    requires
        0 <= b,
    ensures
        r == bounded(v, b as int),
{
    -b <= v.x && v.x <= b && -b <= v.y && v.y <= b && -b <= v.z && v.z <= b
}

fn wide_in(p: i128, b: i128) -> (r: bool)
    requires
        0 <= b,
    ensures
        r == (-b <= p <= b),
{
    -b <= p && p <= b
}

/// The character stream of a row: the pixel lines of its byte triples,
/// in order.
pub open spec fn lines_of(bs: Seq<(nat, nat, nat)>) -> Seq<char>
    decreases bs.len(),
{
    if bs.len() == 0 {
        Seq::<char>::empty()
    } else {
        pixel_line(bs[0].0, bs[0].1, bs[0].2) + lines_of(bs.drop_first())
    }
}

/// What one radiance sample for pixel `(i, j)` may be: the value
/// `Ray::colour` returns for some admissible primary ray — always a
/// valid colour, black when the ray is degenerate or the depth budget
/// is zero or every nearest surface absorbs, and exactly the background
/// gradient when nothing blocks the ray.
pub open spec fn sample_colour_ok(cam: Camera, world: HittableList, i: int, j: int, c: Vec3) -> bool {
    exists|r: Ray|
        #[trigger] admissible_ray(cam, i, j, r) && valid_colour(c) && (is_zero(r.direction)
            ==> is_zero(c))
            && (!is_zero(r.direction) && cam.max_depth == 0 ==> is_zero(c)) && (!is_zero(
            r.direction,
        ) && cam.max_depth > 0 && !sany_hit(world, r) ==> sv(c) == sbackground(r)) && (!is_zero(
            r.direction,
        ) && cam.max_depth > 0 && sany_hit(world, r) && nearest_hit_absorbs(world, r) ==> is_zero(
            c,
        ))
}

/// The component-wise sum of a sequence of colours.
pub open spec fn csum(cs: Seq<Vec3>) -> (int, int, int)
    decreases cs.len(),
{
    if cs.len() == 0 {
        (0int, 0int, 0int)
    } else {
        tadd(sv(cs[0]), csum(cs.drop_first()))
    }
}

/// Appending one colour adds its components to the sum.
proof fn lemma_csum_push(cs: Seq<Vec3>, c: Vec3)
    ensures
        csum(cs.push(c)) == tadd(csum(cs), sv(c)),
    decreases cs.len(),
{
    if cs.len() == 0 {
        assert(cs.push(c)[0] == c);
        assert(cs.push(c).drop_first() =~= Seq::<Vec3>::empty());
        assert(csum(cs.push(c)) == tadd(sv(c), csum(Seq::<Vec3>::empty())));
        assert(csum(Seq::<Vec3>::empty()) == (0int, 0int, 0int));
        assert(csum(cs) == (0int, 0int, 0int));
    } else {
        assert(cs.push(c)[0] == cs[0]);
        assert(cs.push(c).drop_first() =~= cs.drop_first().push(c));
        lemma_csum_push(cs.drop_first(), c);
        assert(csum(cs.push(c)) == tadd(sv(cs[0]), tadd(csum(cs.drop_first()), sv(c))));
        assert(csum(cs) == tadd(sv(cs[0]), csum(cs.drop_first())));
    }
}

/// One emitted byte triple for pixel `(i, j)`: the quantization of the
/// average of `samples_per_pixel` admissible radiance samples.
pub open spec fn pixel_bytes_ok(
    cam: Camera,
    world: HittableList,
    i: int,
    j: int,
    t: (nat, nat, nat),
) -> bool {
    exists|cs: Seq<Vec3>|
        #![auto]
        cs.len() == cam.samples_per_pixel && (forall|k: int|
            0 <= k < cs.len() ==> sample_colour_ok(cam, world, i, j, #[trigger] cs[k])) && t.0
            == sbyte(tdiv(csum(cs).0, cam.samples_per_pixel as int)) as nat && t.1 == sbyte(
            tdiv(csum(cs).1, cam.samples_per_pixel as int),
        ) as nat && t.2 == sbyte(tdiv(csum(cs).2, cam.samples_per_pixel as int)) as nat
}

/// A well-formed row for pixel row `j`: exactly `image_width` pixel
/// lines, every channel a byte, and every byte triple the quantized
/// average of admissible radiance samples for its pixel.
pub open spec fn row_wf(cam: Camera, world: HittableList, j: int, s: Seq<char>) -> bool {
    exists|bs: Seq<(nat, nat, nat)>|
        #![auto]
        bs.len() == cam.image_width && (forall|k: int|
            0 <= k < bs.len() ==> (#[trigger] bs[k]).0 <= 255 && bs[k].1 <= 255 && bs[k].2 <= 255)
            && (forall|k: int|
            0 <= k < bs.len() ==> pixel_bytes_ok(cam, world, k, j, #[trigger] bs[k])) && s
            == lines_of(bs)
}

/// Appending one triple appends its pixel line.
proof fn lemma_lines_push(bs: Seq<(nat, nat, nat)>, t: (nat, nat, nat))
    ensures
        lines_of(bs.push(t)) == lines_of(bs) + pixel_line(t.0, t.1, t.2),
    decreases bs.len(),
{
    if bs.len() == 0 {
        assert(bs.push(t)[0] == t);
        assert(bs.push(t).drop_first() =~= Seq::<(nat, nat, nat)>::empty());
        assert(lines_of(bs.push(t)) == pixel_line(t.0, t.1, t.2) + lines_of(
            Seq::<(nat, nat, nat)>::empty(),
        ));
        assert(lines_of(Seq::<(nat, nat, nat)>::empty()) == Seq::<char>::empty());
        assert(pixel_line(t.0, t.1, t.2) + Seq::<char>::empty() =~= pixel_line(t.0, t.1, t.2));
        assert(Seq::<char>::empty() + pixel_line(t.0, t.1, t.2) =~= pixel_line(t.0, t.1, t.2));
    } else {
        assert(bs.push(t)[0] == bs[0]);
        assert(bs.push(t).drop_first() =~= bs.drop_first().push(t));
        lemma_lines_push(bs.drop_first(), t);
        assert(lines_of(bs.push(t)) == pixel_line(bs[0].0, bs[0].1, bs[0].2) + (lines_of(
            bs.drop_first(),
        ) + pixel_line(t.0, t.1, t.2)));
        assert(lines_of(bs.push(t)) =~= lines_of(bs) + pixel_line(t.0, t.1, t.2));
    }
}

impl Camera {
    /// Render one image row: for each pixel, average
    /// `samples_per_pixel` radiance samples and emit its pixel line.
    /// A degenerate sample ray (zero direction) contributes black.
    pub fn render_row(&self, world: &HittableList, j: i64) -> (line: String)
        requires
            trace_wf(*self),
            world.wf(),
            0 <= j < self.image_height,
        ensures
            row_wf(*self, *world, j as int, line@),
    {
        let mut line = String::new();
        let ghost mut bs: Seq<(nat, nat, nat)> = Seq::empty();
        let mut i: i64 = 0;
        while i < self.image_width
            invariant
                trace_wf(*self),
                world.wf(),
                0 <= j < self.image_height,
                0 <= i <= self.image_width,
                bs.len() == i,
                forall|k: int|
                    0 <= k < bs.len() ==> (#[trigger] bs[k]).0 <= 255 && bs[k].1 <= 255
                        && bs[k].2 <= 255,
                forall|k: int|
                    0 <= k < bs.len() ==> pixel_bytes_ok(*self, *world, k, j as int, #[trigger] bs[k]),
                line@ == lines_of(bs),
            decreases self.image_width - i,
        {
            let mut pixel = Vec3::new(0, 0, 0);
            let ghost mut cs: Seq<Vec3> = Seq::empty();
            let mut s: i64 = 0;
            while s < self.samples_per_pixel
                invariant
                    trace_wf(*self),
                    world.wf(),
                    0 <= j < self.image_height,
                    0 <= i < self.image_width,
                    0 <= s <= self.samples_per_pixel,
                    0 <= pixel.x <= s * SCALE,
                    0 <= pixel.y <= s * SCALE,
                    0 <= pixel.z <= s * SCALE,
                    cs.len() == s,
                    forall|k: int|
                        0 <= k < cs.len() ==> sample_colour_ok(
                            *self,
                            *world,
                            i as int,
                            j as int,
                            #[trigger] cs[k],
                        ),
                    pixel.x as int == csum(cs).0,
                    pixel.y as int == csum(cs).1,
                    pixel.z as int == csum(cs).2,
                decreases self.samples_per_pixel - s,
            {
                let r = self.get_ray(i, j);
                if !r.direction.near_zero() {
                    let c = r.colour(world, self.max_depth);
                    proof {
                        assert((s + 1) * SCALE == s * SCALE + SCALE) by (nonlinear_arith);
                        assert(admissible_ray(*self, i as int, j as int, r) && valid_colour(c) && (
                        is_zero(r.direction) ==> is_zero(c)) && (!is_zero(r.direction)
                            && self.max_depth == 0 ==> is_zero(c)) && (!is_zero(r.direction)
                            && self.max_depth > 0 && !sany_hit(*world, r) ==> sv(c) == sbackground(
                            r,
                        )) && (!is_zero(r.direction) && self.max_depth > 0 && sany_hit(*world, r)
                            && nearest_hit_absorbs(*world, r) ==> is_zero(c)));
                        assert(sample_colour_ok(*self, *world, i as int, j as int, c));
                        lemma_csum_push(cs, c);
                        cs = cs.push(c);
                    }
                    pixel = pixel.plus(c);
                } else {
                    proof {
                        let black = Vec3 { x: 0, y: 0, z: 0 };
                        assert(admissible_ray(*self, i as int, j as int, r) && valid_colour(black)
                            && (is_zero(r.direction) ==> is_zero(black)));
                        assert(sample_colour_ok(*self, *world, i as int, j as int, black));
                        lemma_csum_push(cs, black);
                        cs = cs.push(black);
                    }
                }
                proof {
                    assert((s + 1) * SCALE >= s * SCALE) by (nonlinear_arith)
                        requires
                            s >= 0,
                    ;
                }
                s = s + 1;
            }
            proof {
                lemma_tdiv_bound(pixel.x as int, self.samples_per_pixel as int, SCALE as int);
                lemma_tdiv_bound(pixel.y as int, self.samples_per_pixel as int, SCALE as int);
                lemma_tdiv_bound(pixel.z as int, self.samples_per_pixel as int, SCALE as int);
                lemma_tdiv_shrinks(pixel.x as int, self.samples_per_pixel as int);
                lemma_tdiv_shrinks(pixel.y as int, self.samples_per_pixel as int);
                lemma_tdiv_shrinks(pixel.z as int, self.samples_per_pixel as int);
                assert(pixel.x <= SCALE as int * self.samples_per_pixel) by (nonlinear_arith)
                    requires
                        pixel.x <= self.samples_per_pixel * SCALE as int,
                ;
                assert(pixel.y <= SCALE as int * self.samples_per_pixel) by (nonlinear_arith)
                    requires
                        pixel.y <= self.samples_per_pixel * SCALE as int,
                ;
                assert(pixel.z <= SCALE as int * self.samples_per_pixel) by (nonlinear_arith)
                    requires
                        pixel.z <= self.samples_per_pixel * SCALE as int,
                ;
            }
            let avg = Vec3::new(
                div_trunc(pixel.x as i128, self.samples_per_pixel as i128) as i64,
                div_trunc(pixel.y as i128, self.samples_per_pixel as i128) as i64,
                div_trunc(pixel.z as i128, self.samples_per_pixel as i128) as i64,
            );
            let px = avg.write();
            line.append(px.as_str());
            proof {
                let t = (
                    sbyte(avg.x as int) as nat,
                    sbyte(avg.y as int) as nat,
                    sbyte(avg.z as int) as nat,
                );
                crate::colour::lemma_sbyte_range(avg.x as int);
                crate::colour::lemma_sbyte_range(avg.y as int);
                crate::colour::lemma_sbyte_range(avg.z as int);
                assert(cs.len() == self.samples_per_pixel && (forall|k: int|
                    0 <= k < cs.len() ==> sample_colour_ok(
                        *self,
                        *world,
                        i as int,
                        j as int,
                        #[trigger] cs[k],
                    )) && t.0 == sbyte(tdiv(csum(cs).0, self.samples_per_pixel as int)) as nat
                    && t.1 == sbyte(tdiv(csum(cs).1, self.samples_per_pixel as int)) as nat && t.2
                    == sbyte(tdiv(csum(cs).2, self.samples_per_pixel as int)) as nat);
                assert(pixel_bytes_ok(*self, *world, i as int, j as int, t));
                lemma_lines_push(bs, t);
                bs = bs.push(t);
            }
            i = i + 1;
        }
        line
    }

    /// Render the contiguous rows `start..end`, in index order.
    pub fn render_chunk(&self, world: &HittableList, start: i64, end: i64) -> (rows: Vec<String>)
        requires
            trace_wf(*self),
            world.wf(),
            0 <= start <= end <= self.image_height,
        ensures
            rows@.len() == end - start,
            forall|k: int|
                0 <= k < rows@.len() ==> row_wf(*self, *world, start + k, #[trigger] rows@[k]@),
    {
        let mut rows: Vec<String> = Vec::new();
        let mut j = start;
        while j < end
            invariant
                trace_wf(*self),
                world.wf(),
                0 <= start <= j <= end <= self.image_height,
                rows@.len() == j - start,
                forall|k: int|
                    0 <= k < rows@.len() ==> row_wf(*self, *world, start + k, #[trigger] rows@[k]@),
            decreases end - j,
        {
            let row = self.render_row(world, j);
            rows.push(row);
            j = j + 1;
        }
        rows
    }
}

/// The bounds of worker `t`'s contiguous row range: near-equal chunks,
/// with the remainder rows going to the final worker.
pub fn chunk_bounds(height: i64, workers: i64, t: i64) -> (se: (i64, i64))
    requires
        0 <= height,
        1 <= workers,
        0 <= t < workers,
    ensures
        se.0 == t * tdiv(height as int, workers as int),
        se.1 == if t == workers - 1 {
            height as int
        } else {
            (t + 1) * tdiv(height as int, workers as int)
        },
        0 <= se.0 <= se.1 <= height,
{
    let chunk = div_trunc(height as i128, workers as i128) as i64;
    proof {
        lemma_tdiv_shrinks(height as int, workers as int);
        vstd::arithmetic::div_mod::lemma_fundamental_div_mod(height as int, workers as int);
        assert(0 <= t * chunk <= (t + 1) * chunk <= workers * chunk <= height) by (nonlinear_arith)
            requires
                0 <= t < workers && chunk >= 0 && workers * chunk + (height as int) % (
                workers as int) == height && (height as int) % (workers as int) >= 0,
        ;
    }
    let start = ((t as i128) * (chunk as i128)) as i64;
    let end = if t == workers - 1 {
        height
    } else {
        (((t as i128) + 1) * (chunk as i128)) as i64
    };
    (start, end)
}

/// The PPM "P3" header: magic, dimensions, and the maximum channel
/// value, each on its own line.
pub open spec fn sheader(w: nat, h: nat) -> Seq<char> {
    seq!['P', '3', '\n'] + dec_digits(w) + seq![' '] + dec_digits(h) + seq!['\n', '2', '5', '5', '\n']
}

pub fn ppm_header(width: i64, height: i64) -> (s: String)
    requires
        0 <= width,
        0 <= height,
    ensures
        s@ == sheader(width as nat, height as nat),
{
    let mut s = String::new();
    s.append("P3\n");
    proof {
        reveal_strlit("P3\n");
        assert(s@ =~= seq!['P', '3', '\n']);
    }
    push_decimal(&mut s, width as u64);
    push_space(&mut s);
    push_decimal(&mut s, height as u64);
    s.append("\n255\n");
    proof {
        reveal_strlit("\n255\n");
        assert(s@ =~= sheader(width as nat, height as nat));
    }
    s
}

/// A jittered pixel coordinate times a delta component stays within one
/// unit of world space (scaled), given the camera's per-axis bound.
proof fn lemma_jitter_term(extent: int, delta: int, idx: int, off: int)
    requires
        1 <= extent,
        -1_000_000 <= (extent + 1) * delta <= 1_000_000,
        0 <= idx < extent,
        -SCALE as int / 2 <= off <= SCALE as int / 2,
    ensures
        -1_000_000_000 <= delta * (idx * SCALE + off) <= 1_000_000_000,
{
    assert(-1_000_000_000 <= delta * (idx * 1000 + off) <= 1_000_000_000) by (nonlinear_arith)
        requires
            1 <= extent && -1_000_000 <= (extent + 1) * delta <= 1_000_000 && 0 <= idx < extent
                && -500 <= off <= 500,
    ;
}

} // verus!
