//! Parametric rays.
use vstd::prelude::*;
use crate::scalar::Fixed;
use crate::vector::Vector3;

verus! {

/// A half-line `origin + t * direction`, sampled at the instant `time` in `[0, 1]`.
#[derive(Clone, Copy, Debug, PartialEq, Eq, Structural)]
pub struct Ray {
    pub origin: Vector3,
    pub direction: Vector3,
    pub time: Fixed,
}

/// The point of the ray at parameter `t`.
pub open spec fn spec_at(ray: Ray, t: Fixed) -> Vector3 {
    ray.origin.spec_add(ray.direction.spec_scale(t))
}

/// The point at parameter `t`: the origin for `t == 0`, origin plus direction for `t == 1`.
pub fn at(ray: &Ray, t: Fixed) -> (p: Vector3)
    ensures
        p == spec_at(*ray, t),
{
    ray.origin.add(ray.direction.scale(t))
}

} // verus!
