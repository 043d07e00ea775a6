//! Vector operations particular to tracing rays: mirroring and bending directions.
use vstd::prelude::*;
use crate::scalar::{Fixed, SCALE, TWO};
use crate::vector::Vector3;

verus! {

/// Components of smaller magnitude than this count as zero, in raw units: a
/// hundred-millionth.
pub const NEAR_ZERO: i64 = 10;

/// Whether every component is within [`NEAR_ZERO`] of zero.
pub open spec fn spec_near_zero(v: Vector3) -> bool {
    &&& -NEAR_ZERO < v.x.raw < NEAR_ZERO
    &&& -NEAR_ZERO < v.y.raw < NEAR_ZERO
    &&& -NEAR_ZERO < v.z.raw < NEAR_ZERO
}

pub fn near_zero(v: Vector3) -> (r: bool)
    ensures
        r == spec_near_zero(v),
{
    let s: i64 = NEAR_ZERO;
    v.x.abs().raw < s && v.y.abs().raw < s && v.z.abs().raw < s
}

/// The mirror image `v - 2 (v . n) n` of `v` in the plane with unit normal `n`.
pub open spec fn spec_reflect(v: Vector3, n: Vector3) -> Vector3 {
    v.spec_sub(n.spec_scale(Fixed { raw: TWO }.spec_mul(Vector3::spec_dot_product(v, n))))
}

/// Reflects `v` off a surface with unit normal `n`.
pub fn reflect(v: &Vector3, n: &Vector3) -> (r: Vector3)
    ensures
        r == spec_reflect(*v, *n),
{
    let two = Fixed { raw: TWO };
    v.sub(n.scale(two.mul(Vector3::dot_product(v, n))))
}

/// The cosine of the angle between `-uv` and `n`, capped at one.
pub open spec fn spec_cos_incidence(uv: Vector3, n: Vector3) -> Fixed {
    Vector3::spec_dot_product(uv.spec_neg(), n).spec_min(Fixed { raw: SCALE })
}

/// The direction of `uv` after it crosses a surface with unit normal `n` between media
/// whose refractive indices have the ratio `etai_over_etat`, by Snell's law: the part
/// across the normal is `eta (uv + cos n)`, the part along it `-sqrt(|1 - |perp|^2|) n`.
pub open spec fn spec_refract(uv: Vector3, n: Vector3, etai_over_etat: Fixed) -> Vector3 {
    let cos_theta = spec_cos_incidence(uv, n);
    let r_out_perp = uv.spec_add(n.spec_scale(cos_theta)).spec_scale(etai_over_etat);
    let along = Fixed { raw: SCALE }.spec_sub(r_out_perp.spec_magnitude_squared()).spec_abs()
        .spec_sqrt().spec_neg();
    r_out_perp.spec_add(n.spec_scale(along))
}

/// Refracts the unit vector `uv` at a surface with unit normal `n`.
pub fn refract(uv: &Vector3, n: &Vector3, etai_over_etat: Fixed) -> (r: Vector3)
    ensures
        r == spec_refract(*uv, *n, etai_over_etat),
{
    let one = Fixed { raw: SCALE };
    let cos_theta = Vector3::dot_product(&uv.neg(), n).min(one);
    let r_out_perp = uv.add(n.scale(cos_theta)).scale(etai_over_etat);
    let along = one.sub(r_out_perp.magnitude_squared()).abs().sqrt().neg();
    r_out_perp.add(n.scale(along))
}

} // verus!
