//! A Monte Carlo path tracer with a verified fixed-point core.
//!
//! World-space quantities are fixed-point integers (`num::SCALE` steps per
//! unit), so every arithmetic step of the rendering pipeline — vectors,
//! intervals, sphere intersection, closest-hit resolution, material
//! scattering, camera geometry and the PPM pixel stream — carries an exact
//! contract.  Randomness is drawn through `rand`; threads and output live
//! with the caller.

pub mod camera;
pub mod colour;
pub mod hittable;
pub mod hittable_list;
pub mod interval;
pub mod material;
pub mod num;
pub mod ray;
pub mod sphere;
pub mod utils;
pub mod vec3;
