//! Random directions.
use vstd::prelude::*;
use crate::random::random_in_range;
use crate::scalar::{Fixed, MINUS_ONE, SCALE};
use crate::vector::Vector3;
use rand::rngs::ThreadRng;

verus! {

/// How many samples are drawn before a fixed direction is returned instead.
pub const ATTEMPTS: u32 = 64;

/// Whether every component lies in `[-1, 1)`.
pub open spec fn in_cube(v: Vector3) -> bool {
    &&& MINUS_ONE <= v.x.raw < SCALE
    &&& MINUS_ONE <= v.y.raw < SCALE
    &&& MINUS_ONE <= v.z.raw < SCALE
}

/// The direction of a sample from the cube, if the sample lies in the unit ball and
/// is not zero: the exact sum of its squares is positive and not above one.
pub open spec fn spec_unit_from_sample(sample: Vector3) -> Option<Vector3> {
    if 0 < sample.spec_sum_squares() <= 1_000_000_000_000_000_000 {
        Some(sample.spec_normalized())
    } else {
        None
    }
}

/// Accepts a sample from the cube if it lies in the unit ball, and normalises it.
pub fn unit_from_sample(sample: Vector3) -> (r: Option<Vector3>)
    ensures
        r == spec_unit_from_sample(sample),
{
    let squares: u128 = sample.sum_squares();
    if squares > 0 && squares <= 1_000_000_000_000_000_000u128 {
        Some(Vector3::calc_normalized_vector(&sample))
    } else {
        None
    }
}

/// The direction returned when every sample was rejected: the x axis.
pub open spec fn spec_fallback_direction() -> Vector3 {
    Vector3 { x: Fixed { raw: SCALE }, y: Fixed { raw: 0 }, z: Fixed { raw: 0 } }
}

/// Whether `v` is a possible result of [`random_vector`].
pub open spec fn is_random_vector(v: Vector3) -> bool {
    v == spec_fallback_direction() || exists|sample: Vector3|
        in_cube(sample) && #[trigger] spec_unit_from_sample(sample) == Some(v)
}

/// Draws a point of the cube `[-1, 1)^3`.
pub fn random_sample(rng: &mut ThreadRng) -> (r: Vector3)
    ensures
        in_cube(r),
{
    let x: i64 = random_in_range(rng, MINUS_ONE, SCALE);
    let y: i64 = random_in_range(rng, MINUS_ONE, SCALE);
    let z: i64 = random_in_range(rng, MINUS_ONE, SCALE);
    Vector3 { x: Fixed { raw: x }, y: Fixed { raw: y }, z: Fixed { raw: z } }
}

/// Returns a random unit vector: the direction of the first of up to [`ATTEMPTS`]
/// samples from the cube that falls in the unit ball.
pub fn random_vector(rng: &mut ThreadRng) -> (r: Vector3)
    ensures
        is_random_vector(r),
{
    let mut attempt: u32 = 0;
    while attempt < ATTEMPTS
        invariant
            attempt <= ATTEMPTS,
        decreases ATTEMPTS - attempt,
    {
        let sample = random_sample(rng);
        match unit_from_sample(sample) {
            Some(unit) => {
                return unit;
            },
            None => {},
        }
        attempt += 1;
    }
    Vector3 { x: Fixed { raw: SCALE }, y: Fixed { raw: 0 }, z: Fixed { raw: 0 } }
}

/// The one of `v` and `-v` that points to the side of `normal`.
pub open spec fn spec_on_hemisphere(v: Vector3, normal: Vector3) -> Vector3 {
    if Vector3::spec_dot_product(v, normal).raw > 0 {
        v
    } else {
        v.spec_neg()
    }
}

/// Turns a vector to the side of a surface normal.
pub fn on_hemisphere(v: Vector3, normal: Vector3) -> (r: Vector3)
    ensures
        r == spec_on_hemisphere(v, normal),
{
    if Vector3::dot_product(&v, &normal).raw > 0 {
        v
    } else {
        v.neg()
    }
}

/// Returns a random unit vector on the side of a surface normal.
pub fn random_on_hemisphere(rng: &mut ThreadRng, normal: Vector3) -> (r: Vector3)
    ensures
        exists|v: Vector3| is_random_vector(v) && r == #[trigger] spec_on_hemisphere(v, normal),
{
    let vector = random_vector(rng);
    on_hemisphere(vector, normal)
}

} // verus!
