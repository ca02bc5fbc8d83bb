//! Vector arithmetic, in fixed-point: one thousandth of a world unit
//! per step, so `1.0` is written `1000`.  Products (`dot`, `cross`,
//! `length_squared`) come back at product scale.

use ray_tracing::vec3::Vec3;

#[test]
fn test_creation() {
    let v = Vec3::new(1000, 2000, 3000);
    assert_eq!(v.x(), 1000);
    assert_eq!(v.y(), 2000);
    assert_eq!(v.z(), 3000);
}

#[test]
fn test_negation() {
    let v = Vec3::new(1000, -2000, 3000);
    let neg_v = v.negate();
    assert_eq!(neg_v.x(), -1000);
    assert_eq!(neg_v.y(), 2000);
    assert_eq!(neg_v.z(), -3000);
}

#[test]
fn test_add() {
    let v1 = Vec3::new(1000, 2000, 3000);
    let v2 = Vec3::new(4000, 5000, 6000);
    let v3 = v1.plus(v2);
    assert_eq!(v3.x(), 5000);
    assert_eq!(v3.y(), 7000);
    assert_eq!(v3.z(), 9000);
}

#[test]
fn test_sub() {
    let v1 = Vec3::new(1000, 2000, 3000);
    let v2 = Vec3::new(4000, 5000, 6000);
    let v3 = v1.minus(v2);
    assert_eq!(v3.x(), -3000);
    assert_eq!(v3.y(), -3000);
    assert_eq!(v3.z(), -3000);
}

#[test]
fn test_mul_vec3() {
    let v1 = Vec3::new(1000, 2000, 3000);
    let v2 = Vec3::new(4000, 5000, 6000);
    let v3 = v1.times(v2);
    assert_eq!(v3.x(), 4000);
    assert_eq!(v3.y(), 10000);
    assert_eq!(v3.z(), 18000);
}

#[test]
fn test_mul_f64() {
    let v = Vec3::new(1000, 2000, 3000);
    let v2 = v.scaled(2000);
    assert_eq!(v2.x(), 2000);
    assert_eq!(v2.y(), 4000);
    assert_eq!(v2.z(), 6000);
}

#[test]
fn test_f64_mul_vec3() {
    let v = Vec3::new(1000, 2000, 3000);
    let v2 = v.scaled(2000);
    assert_eq!(v2.x(), 2000);
    assert_eq!(v2.y(), 4000);
    assert_eq!(v2.z(), 6000);
}

#[test]
fn test_div() {
    let v = Vec3::new(2000, 4000, 6000);
    let v2 = v.divided(2000);
    assert_eq!(v2.x(), 1000);
    assert_eq!(v2.y(), 2000);
    assert_eq!(v2.z(), 3000);
}

#[test]
fn test_add_assign() {
    let mut v1 = Vec3::new(1000, 2000, 3000);
    let v2 = Vec3::new(4000, 5000, 6000);
    v1 = v1.plus(v2);
    assert_eq!(v1.x(), 5000);
    assert_eq!(v1.y(), 7000);
    assert_eq!(v1.z(), 9000);
}

#[test]
fn test_mul_assign() {
    let mut v = Vec3::new(1000, 2000, 3000);
    v = v.scaled(2000);
    assert_eq!(v.x(), 2000);
    assert_eq!(v.y(), 4000);
    assert_eq!(v.z(), 6000);
}

#[test]
fn test_div_assign() {
    let mut v = Vec3::new(2000, 4000, 6000);
    v = v.divided(2000);
    assert_eq!(v.x(), 1000);
    assert_eq!(v.y(), 2000);
    assert_eq!(v.z(), 3000);
}

#[test]
fn test_length() {
    let v = Vec3::new(3000, 4000, 0);
    assert_eq!(v.length(), 5000);
}

#[test]
fn test_length_squared() {
    let v = Vec3::new(3000, 4000, 0);
    assert_eq!(v.length_squared(), 25_000_000);
}

#[test]
fn test_dot() {
    let v1 = Vec3::new(1000, 2000, 3000);
    let v2 = Vec3::new(4000, 5000, 6000);
    assert_eq!(Vec3::dot(v1, v2), 32_000_000);
}

#[test]
fn test_cross() {
    let v1 = Vec3::new(1000, 2000, 3000);
    let v2 = Vec3::new(4000, 5000, 6000);
    let v3 = Vec3::cross(v1, v2);
    assert_eq!(v3.x(), -3_000_000);
    assert_eq!(v3.y(), 6_000_000);
    assert_eq!(v3.z(), -3_000_000);
}

#[test]
fn test_unit_vector() {
    let v = Vec3::new(3000, 4000, 0);
    let unit_v = v.unit_vector();
    assert_eq!(unit_v.x(), 600);
    assert_eq!(unit_v.y(), 800);
    assert_eq!(unit_v.z(), 0);
}
