//! The record of a ray meeting a surface.
use vstd::prelude::*;
use crate::ray::{at, spec_at, Ray};
use crate::scalar::Fixed;
use crate::vector::Vector3;

verus! {

/// Where and how a ray met a surface.
#[derive(Clone, Copy, Debug, PartialEq, Eq, Structural)]
pub struct HitRecord {
    /// The point of intersection.
    pub point: Vector3,
    /// The unit normal at the point, turned against the incoming ray.
    pub normal: Vector3,
    /// The ray parameter of the point.
    pub t: Fixed,
    /// Whether the ray arrived on the side the surface's own normal points to.
    pub front_face: bool,
    /// Handle of the surface's material.
    pub material: usize,
    /// Surface coordinates of the point, for texture lookup.
    pub u: Fixed,
    pub v: Fixed,
}

/// Whether a ray with this direction meets a surface with this outward normal from
/// outside: the two point against each other.
pub open spec fn spec_front_face(direction: Vector3, outward_normal: Vector3) -> bool {
    Vector3::spec_dot_product(direction, outward_normal).raw < 0
}

/// The outward normal, reversed for a ray that arrives from inside.
pub open spec fn spec_face_normal(direction: Vector3, outward_normal: Vector3) -> Vector3 {
    if spec_front_face(direction, outward_normal) {
        outward_normal
    } else {
        outward_normal.spec_neg()
    }
}

impl HitRecord {
    /// The record of `ray_in` meeting, at parameter `t`, a surface whose outward normal
    /// there is `normal`.
    pub open spec fn spec_new(
        ray_in: Ray,
        normal: Vector3,
        t: Fixed,
        material: usize,
        u: Fixed,
        v: Fixed,
    ) -> HitRecord {
        HitRecord {
            point: spec_at(ray_in, t),
            normal: spec_face_normal(ray_in.direction, normal),
            t,
            front_face: spec_front_face(ray_in.direction, normal),
            material,
            u,
            v,
        }
    }

    /// Builds the record of a hit; `normal` is taken to have unit length.
    pub fn new(ray_in: &Ray, normal: Vector3, t: Fixed, material: usize, u: Fixed, v: Fixed) -> (r:
        HitRecord)
        ensures
            r == Self::spec_new(*ray_in, normal, t, material, u, v),
    {
        let point = at(ray_in, t);
        let front_face = Vector3::dot_product(&ray_in.direction, &normal).raw < 0;
        let normal = if front_face { normal } else { normal.neg() };
        HitRecord { point, normal, t, front_face, material, u, v }
    }

    /// Orients the record's normal against the ray `r`, given the surface's outward
    /// unit normal, and notes which side was hit. Nothing else changes.
    pub fn set_face_normal(&mut self, r: &Ray, outward_normal: &Vector3)
        ensures
            *final(self) == (HitRecord {
                front_face: spec_front_face(r.direction, *outward_normal),
                normal: spec_face_normal(r.direction, *outward_normal),
                ..*old(self)
            }),
    {
        self.front_face = Vector3::dot_product(&r.direction, outward_normal).raw < 0;
        self.normal = if self.front_face { *outward_normal } else { outward_normal.neg() };
    }
}

} // verus!
