//! Random fixed-point scalars, drawn through `rand`.
//!
//! Randomness only narrows to a range here; no contract claims anything
//! about the distribution, and callers state what holds of every outcome.

use vstd::prelude::*;

use crate::num::SCALE;
use crate::vec3::Vec3;

verus! {

/// Relies on `rand::random`: a value of `T` from the thread-local
/// generator.  Nothing can be promised of a random value.
pub assume_specification<T>[ rand::random::<T> ]() -> (r: T)
    where
        rand::distributions::Standard: rand::distributions::Distribution<T>,
;

/// A random fixed-point scalar in `[0, 1)` of a world unit.
pub fn random_double() -> (r: i64)
    ensures
        0 <= r < SCALE,
{
    let raw: u64 = rand::random::<u64>();
    (raw % (SCALE as u64)) as i64
}

/// A random fixed-point scalar in `[min, max)`.
pub fn random_double_in_range(min: i64, max: i64) -> (r: i64)
    requires
        min < max,
    ensures
        min <= r < max,
{
    let raw: u64 = rand::random::<u64>();
    let span = ((max as i128) - (min as i128)) as u128;
    let off = (raw as u128) % span;
    ((min as i128) + (off as i128)) as i64
}

/// A jitter offset uniform in `[-0.5, 0.5)^2`, zero in `z`.
pub fn sample_square() -> (r: Vec3)
    ensures
        -SCALE / 2 <= r.x < SCALE / 2,
        -SCALE / 2 <= r.y < SCALE / 2,
        r.z == 0,
{
    let half = SCALE / 2;
    Vec3::new(random_double() - half, random_double() - half, 0)
}

} // verus!
