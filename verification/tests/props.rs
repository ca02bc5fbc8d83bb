//! Behavioural checks of the fixed-point tracer: geometry, materials,
//! quantization and the rendering loop.  `1.0` is written `1000`.

use ray_tracing::camera::{Camera, chunk_bounds, ppm_header};
use ray_tracing::colour::Colour;
use ray_tracing::hittable::HitRecord;
use ray_tracing::hittable_list::HittableList;
use ray_tracing::interval::Interval;
use ray_tracing::material::{Dielectric, Lambertian, MaterialEnum, Metal};
use ray_tracing::num::T_MAX;
use ray_tracing::ray::Ray;
use ray_tracing::sphere::Sphere;
use ray_tracing::utils::{random_double, random_double_in_range};
use ray_tracing::vec3::{Vec3, random_unit_vector};

fn ground_material() -> MaterialEnum {
    MaterialEnum::Lambertian(Lambertian::new(Colour::new(500, 500, 500)))
}

#[test]
fn unit_vector_has_unit_length() {
    // Within fixed-point tolerance: the squared length of a unit vector
    // stays within a few thousandths of one, matching the proved bounds.
    let samples = [
        Vec3::new(1000, 1000, 1000),
        Vec3::new(3000, 4000, 0),
        Vec3::new(123_456, -654_321, 999_999),
        Vec3::new(-1, 2, 2),
        Vec3::new(7_000_000, -1, 1),
    ];
    for v in samples {
        let u = v.unit_vector();
        let ls = u.length_squared();
        assert!(994_000 <= ls && ls <= 1_011_000, "squared length {}", ls);
    }
}

#[test]
fn cross_is_orthogonal_to_both_factors() {
    // Exactly zero: integer arithmetic, no tolerance needed.
    let pairs = [
        (Vec3::new(1000, 2000, 3000), Vec3::new(4000, 5000, 6000)),
        (Vec3::new(-7, 13, 29), Vec3::new(101, -3, 57)),
        (Vec3::new(0, 1000, 0), Vec3::new(0, 0, 1000)),
    ];
    for (u, v) in pairs {
        let c = Vec3::cross(u, v);
        assert_eq!(Vec3::dot(c, u), 0);
        assert_eq!(Vec3::dot(c, v), 0);
    }
}

#[test]
fn sphere_through_center_has_two_exact_roots() {
    // A unit ray straight through the center: roots at distance -/+ radius.
    let r = Ray::new(Vec3::new(0, 0, 0), Vec3::new(0, 0, -1000));
    let t = r.hit_sphere(Vec3::new(0, 0, -2000), 500);
    assert_eq!(t, 1500);

    let s = Sphere::new(Vec3::new(0, 0, -2000), 500, ground_material());
    let mut rec = HitRecord::default();
    assert!(s.hit(&r, Interval::new(1, T_MAX), &mut rec));
    assert_eq!(rec.t, 1500);
    // Shut the nearer root out of the interval: the farther root answers.
    assert!(s.hit(&r, Interval::new(1600, T_MAX), &mut rec));
    assert_eq!(rec.t, 2500);
}

#[test]
fn sphere_hit_is_translation_consistent() {
    // Moving sphere and ray by the same offset leaves the hit parameter
    // unchanged.
    let shift = Vec3::new(7000, -3000, 11_000);
    let r1 = Ray::new(Vec3::new(100, 200, 300), Vec3::new(40, -70, -990));
    let r2 = Ray::new(r1.origin().plus(shift), r1.direction());
    let s1 = Sphere::new(Vec3::new(150, -60, -2000), 700, ground_material());
    let s2 = Sphere::new(s1.center.plus(shift), 700, ground_material());
    let mut rec1 = HitRecord::default();
    let mut rec2 = HitRecord::default();
    assert!(s1.hit(&r1, Interval::new(1, T_MAX), &mut rec1));
    assert!(s2.hit(&r2, Interval::new(1, T_MAX), &mut rec2));
    assert_eq!(rec1.t, rec2.t);
    assert_eq!(rec1.normal, rec2.normal);
}

#[test]
fn hit_sphere_reports_miss_as_negative_one() {
    let r = Ray::new(Vec3::new(0, 0, 0), Vec3::new(0, 0, -1000));
    let t = r.hit_sphere(Vec3::new(0, 10_000, 0), 500);
    assert_eq!(t, -1000);
}

#[test]
fn list_hit_returns_globally_nearest() {
    // The farther sphere is added first; the list must still answer with
    // the nearer intersection.
    let mut world = HittableList::new();
    world.add(Sphere::new(Vec3::new(0, 0, -3000), 500, ground_material()));
    world.add(Sphere::new(Vec3::new(0, 0, -2000), 500, ground_material()));
    let r = Ray::new(Vec3::new(0, 0, 0), Vec3::new(0, 0, -1000));
    let mut rec = HitRecord::default();
    assert!(world.hit(&r, Interval::new(1, T_MAX), &mut rec));
    assert_eq!(rec.t, 1500);
    assert!(rec.front_face);
}

#[test]
fn metal_with_zero_fuzz_mirrors_exactly() {
    let m = Metal::new(Colour::new(800, 800, 800), 0);
    let rec = HitRecord {
        p: Vec3::new(0, 0, -1000),
        normal: Vec3::new(0, 0, 1000),
        t: 1000,
        front_face: true,
        material: MaterialEnum::Metal(m),
    };
    // Straight-on: the reflection turns the ray around.
    let r_in = Ray::new(Vec3::new(0, 0, 0), Vec3::new(0, 0, -1000));
    let mut attenuation = Colour::new(0, 0, 0);
    let mut scattered = Ray::default();
    assert!(m.scatter(&r_in, &rec, &mut attenuation, &mut scattered));
    assert_eq!(scattered.direction(), Vec3::new(0, 0, 1000));
    assert_eq!(attenuation, Colour::new(800, 800, 800));

    // Oblique, exactly representable: dot(reflected, n) == dot(-unit_in, n).
    let r_in2 = Ray::new(Vec3::new(0, 0, 0), Vec3::new(1000, 0, -1000));
    assert!(m.scatter(&r_in2, &rec, &mut attenuation, &mut scattered));
    let u = r_in2.direction().unit_vector();
    assert_eq!(
        Vec3::dot(scattered.direction(), rec.normal),
        Vec3::dot(u.negate(), rec.normal)
    );
}

#[test]
fn dielectric_with_unit_index_does_not_bend() {
    let d = Dielectric::new(1000);
    let rec = HitRecord {
        p: Vec3::new(0, 0, -1000),
        normal: Vec3::new(0, 0, 1000),
        t: 1000,
        front_face: true,
        material: MaterialEnum::Dielectric(d),
    };
    let r_in = Ray::new(Vec3::new(0, 0, 0), Vec3::new(0, 0, -1000));
    let mut attenuation = Colour::new(0, 0, 0);
    let mut scattered = Ray::default();
    assert!(d.scatter(&r_in, &rec, &mut attenuation, &mut scattered));
    assert_eq!(scattered.direction(), Vec3::new(0, 0, -1000));
    // Glass absorbs nothing.
    assert_eq!(attenuation, Colour::new(1000, 1000, 1000));

    // Never absorbs, whatever the angle.
    let dirs = [
        Vec3::new(500, -200, -1000),
        Vec3::new(-900, 100, -100),
        Vec3::new(1, 1, -1),
    ];
    for dir in dirs {
        let r = Ray::new(Vec3::new(0, 0, 0), dir);
        assert!(d.scatter(&r, &rec, &mut attenuation, &mut scattered));
    }
}

#[test]
fn gamma_clamp_bytes_at_reference_points() {
    // c = 1.0: sqrt = 1.0, clamp = 0.999, byte = 255.  c = 0: byte 0.
    assert_eq!(Colour::new(1000, 0, 500).write(), "255 0 180\n");
    // c = 0.25: sqrt = 0.5, byte = floor(255.999 * 0.5) = 127.
    assert_eq!(Colour::new(250, 250, 250).write(), "127 127 127\n");
}

#[test]
fn quantization_tracks_floating_point_within_one() {
    // The fixed-point byte rounds the square root down a thousandth at
    // most, so it never exceeds the floating-point byte and trails it by
    // at most one.
    for k in 0..=1000i64 {
        let line = Colour::new(k, k, k).write();
        let fixed_byte: i64 = line.split_whitespace().next().unwrap().parse().unwrap();
        let c = k as f64 / 1000.0;
        let g = if c > 0.0 { c.sqrt() } else { 0.0 };
        let float_byte = (255.999 * g.clamp(0.0, 0.999)) as i64;
        assert!(
            fixed_byte <= float_byte && float_byte <= fixed_byte + 1,
            "k = {}: fixed {} float {}",
            k,
            fixed_byte,
            float_byte
        );
    }
}

fn test_camera(max_depth: i64) -> Camera {
    Camera::new(
        1000,
        4,
        1,
        max_depth,
        1000,
        Vec3::new(0, 0, 0),
        Vec3::new(0, 0, -1000),
        Vec3::new(0, 1000, 0),
        0,
        1000,
    )
}

#[test]
fn render_single_ground_sphere() {
    // One large sphere beneath the camera.  With zero jitter the rays are
    // deterministic: the top-center ray misses and sees the background
    // gradient, the bottom-center ray strikes the ground and, at one
    // bounce, its energy budget ends in black.
    let cam = test_camera(1);
    assert!(cam.trace_ready());
    let mut world = HittableList::new();
    world.add(Sphere::new(Vec3::new(0, -100_500, -1000), 100_000, ground_material()));
    assert!(world.trace_ready());
    let empty = HittableList::new();

    let zero = Vec3::new(0, 0, 0);
    let top = cam.ray_for(2, 0, zero, zero);
    let mut rec = HitRecord::default();
    assert!(!world.hit(&top, Interval::new(1, T_MAX), &mut rec));
    assert_eq!(top.colour(&world, 1), top.colour(&empty, 1));

    let bottom = cam.ray_for(2, 3, zero, zero);
    assert!(world.hit(&bottom, Interval::new(1, T_MAX), &mut rec));
    assert_eq!(bottom.colour(&world, 1), Colour::new(0, 0, 0));
}

#[test]
fn depth_zero_renders_pure_black() {
    let cam = test_camera(0);
    assert!(cam.trace_ready());
    let mut world = HittableList::new();
    world.add(Sphere::new(Vec3::new(0, -100_500, -1000), 100_000, ground_material()));
    // Every pixel of every row is black, scene or no scene.
    let row = cam.render_row(&world, 1);
    assert_eq!(row, "0 0 0\n0 0 0\n0 0 0\n0 0 0\n");
    let r = Ray::new(Vec3::new(0, 0, 0), Vec3::new(0, -1000, -1000));
    assert_eq!(r.colour(&world, 0), Colour::new(0, 0, 0));
}

#[test]
fn header_and_chunks() {
    assert_eq!(ppm_header(4, 4), "P3\n4 4\n255\n");
    assert_eq!(ppm_header(1200, 675), "P3\n1200 675\n255\n");
    assert_eq!(chunk_bounds(675, 4, 0), (0, 168));
    assert_eq!(chunk_bounds(675, 4, 1), (168, 336));
    assert_eq!(chunk_bounds(675, 4, 3), (504, 675));
    assert_eq!(chunk_bounds(4, 8, 7), (0, 4));
}

#[test]
fn render_chunk_covers_requested_rows() {
    let cam = test_camera(0);
    assert!(cam.trace_ready());
    let world = HittableList::new();
    let rows = cam.render_chunk(&world, 1, 4);
    assert_eq!(rows.len(), 3);
    for row in rows {
        assert_eq!(row, "0 0 0\n0 0 0\n0 0 0\n0 0 0\n");
    }
}

#[test]
fn interval_surrounds_is_strict_and_clamp_saturates() {
    let itv = Interval::new(0, 1000);
    assert!(!itv.surrounds(0));
    assert!(itv.surrounds(1));
    assert!(itv.surrounds(999));
    assert!(!itv.surrounds(1000));
    assert_eq!(itv.min(), 0);
    assert_eq!(itv.max(), 1000);
    assert_eq!(itv.clamp(-5), 0);
    assert_eq!(itv.clamp(500), 500);
    assert_eq!(itv.clamp(2000), 1000);
    // With min > max the below-min branch wins.
    let odd = Interval::new(500, 100);
    assert_eq!(odd.clamp(200), 500);
}

#[test]
fn metal_fuzz_saturates_at_construction() {
    assert_eq!(Metal::new(Colour::new(0, 0, 0), -5).fuzz, 0);
    assert_eq!(Metal::new(Colour::new(0, 0, 0), 300).fuzz, 300);
    assert_eq!(Metal::new(Colour::new(0, 0, 0), 5000).fuzz, 1000);
}

#[test]
fn lambertian_always_scatters() {
    let albedo = Colour::new(400, 200, 100);
    let l = Lambertian::new(albedo);
    let rec = HitRecord {
        p: Vec3::new(0, 0, -1000),
        normal: Vec3::new(0, 0, 1000),
        t: 1000,
        front_face: true,
        material: MaterialEnum::Lambertian(l),
    };
    let r_in = Ray::new(Vec3::new(0, 0, 0), Vec3::new(0, 0, -1000));
    for _ in 0..20 {
        let mut attenuation = Colour::new(0, 0, 0);
        let mut scattered = Ray::default();
        assert!(l.scatter(&r_in, &rec, &mut attenuation, &mut scattered));
        assert_eq!(attenuation, albedo);
        assert!(!scattered.direction().near_zero());
    }
}

#[test]
fn random_scalars_stay_in_range_and_vary() {
    let mut seen_distinct = false;
    let first = random_double();
    for _ in 0..50 {
        let d = random_double();
        assert!(0 <= d && d < 1000);
        if d != first {
            seen_distinct = true;
        }
        let e = random_double_in_range(-250, 250);
        assert!(-250 <= e && e < 250);
    }
    assert!(seen_distinct);
}

#[test]
fn random_unit_vectors_are_near_unit_and_nonzero() {
    for _ in 0..50 {
        let u = random_unit_vector();
        assert!(!u.near_zero());
        let ls = u.length_squared();
        assert!(994_000 <= ls && ls <= 1_011_000, "squared length {}", ls);
    }
}

#[test]
fn hemisphere_samples_stay_on_the_near_side() {
    let normals = [
        Vec3::new(0, 0, 1000),
        Vec3::new(-700, 0, 700),
        Vec3::new(3, -5, 7),
    ];
    for n in normals {
        for _ in 0..20 {
            let u = n.random_on_hemisphere();
            assert!(Vec3::dot(u, n) >= 0);
            let ls = u.length_squared();
            assert!(994_000 <= ls && ls <= 1_011_000, "squared length {}", ls);
        }
    }
}

#[test]
fn trace_ready_accepts_sane_scenes_and_rejects_bad_ones() {
    let mut good = HittableList::new();
    good.add(Sphere::new(Vec3::new(0, 0, -2000), 500, ground_material()));
    assert!(good.trace_ready());

    let mut zero_radius = HittableList::new();
    zero_radius.add(Sphere::new(Vec3::new(0, 0, -2000), 0, ground_material()));
    assert!(!zero_radius.trace_ready());

    let mut bad_albedo = HittableList::new();
    let glaring = MaterialEnum::Lambertian(Lambertian::new(Colour::new(2000, 0, 0)));
    bad_albedo.add(Sphere::new(Vec3::new(0, 0, -2000), 500, glaring));
    assert!(!bad_albedo.trace_ready());
}
