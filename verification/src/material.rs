//! Materials: how a surface sends an arriving ray on.
use vstd::prelude::*;
use crate::map::{
    get_map_value, lemma_map_value_in_unit, spec_map_value, texture_in_unit, Texture,
};
use crate::random::random_in_range;
use crate::random_vector::{is_random_vector, random_vector};
use crate::ray::Ray;
use crate::scalar::{Fixed, SCALE};
use crate::vector::{spec_in_unit, Vector3};
use crate::vector_raytrace::{
    reflect, refract, spec_cos_incidence, spec_reflect, spec_refract, NEAR_ZERO,
};
use rand::rngs::ThreadRng;

verus! {

/// The kinds of surface.
pub enum Material {
    /// A matte surface coloured by a texture.
    Diffuse(Texture),
    /// A mirror with a colour and a fuzz radius that blurs the reflection.
    Metal(Vector3, Fixed),
    /// A clear medium, with the ratio of its refractive index to that of its
    /// surroundings.
    Dielectric(Fixed),
}

/// The fifth power.
pub open spec fn spec_pow5(x: Fixed) -> Fixed {
    let x2 = x.spec_mul(x);
    x2.spec_mul(x2).spec_mul(x)
}

/// Schlick's approximation of the share of light that a clear surface reflects:
/// `r0 + (1 - r0) (1 - cos)^5` with `r0 = ((1 - ri) / (1 + ri))^2`.
pub open spec fn spec_reflectance(cos_theta: Fixed, refraction_index: Fixed) -> Fixed {
    let one = Fixed { raw: SCALE };
    let r0 = one.spec_sub(refraction_index).spec_div(one.spec_add(refraction_index));
    let r0 = r0.spec_mul(r0);
    r0.spec_add(one.spec_sub(r0).spec_mul(spec_pow5(one.spec_sub(cos_theta))))
}

/// Calculates the reflectance of a clear surface.
pub fn reflectance(cos_theta: Fixed, refraction_index: Fixed) -> (r: Fixed)
    ensures
        r == spec_reflectance(cos_theta, refraction_index),
{
    let one = Fixed { raw: SCALE };
    let r0 = one.sub(refraction_index).div(one.add(refraction_index));
    let r0 = r0.mul(r0);
    let x = one.sub(cos_theta);
    let x2 = x.mul(x);
    r0.add(one.sub(r0).mul(x2.mul(x2).mul(x)))
}

/// The direction in which a matte surface scatters: the normal plus a random unit
/// vector, or the normal alone where the two all but cancel.
pub open spec fn spec_diffuse_direction(normal: Vector3, unit: Vector3) -> Vector3 {
    let scattered = normal.spec_add(unit);
    if scattered.spec_magnitude().raw < NEAR_ZERO {
        normal
    } else {
        scattered
    }
}

/// The direction in which a mirror sends a ray on: the mirrored direction, brought
/// to unit length, plus the random unit vector scaled by the fuzz radius.
pub open spec fn spec_metal_direction(
    direction: Vector3,
    normal: Vector3,
    fuzz: Fixed,
    unit: Vector3,
) -> Vector3 {
    spec_reflect(direction, normal).spec_normalized().spec_add(unit.spec_scale(fuzz))
}

/// The index ratio that a ray meets at a clear surface: the inverse of the medium's
/// on the way in, the medium's own on the way out.
pub open spec fn spec_index_ratio(ri: Fixed, front_face: bool) -> Fixed {
    if front_face {
        Fixed { raw: SCALE }.spec_div(ri)
    } else {
        ri
    }
}

/// Whether a ray with the unit direction `unit_direction` is reflected by a clear
/// surface rather than refracted: always where Snell's law has no solution (the sine
/// times the index ratio exceeds one), else when the reflectance exceeds the
/// uniform draw.
pub open spec fn spec_reflects(
    unit_direction: Vector3,
    normal: Vector3,
    ratio: Fixed,
    draw: Fixed,
) -> bool {
    let one = Fixed { raw: SCALE };
    let cos_theta = spec_cos_incidence(unit_direction, normal);
    let sin_theta = one.spec_sub(cos_theta.spec_mul(cos_theta)).spec_sqrt();
    ratio.spec_mul(sin_theta).raw > SCALE || spec_reflectance(cos_theta, ratio).raw > draw.raw
}

pub fn reflects(unit_direction: Vector3, normal: Vector3, ratio: Fixed, draw: Fixed) -> (r: bool)
    ensures
        r == spec_reflects(unit_direction, normal, ratio, draw),
{
    let one = Fixed { raw: SCALE };
    let cos_theta = Vector3::dot_product(&unit_direction.neg(), &normal).min(one);
    let sin_theta = one.sub(cos_theta.mul(cos_theta)).sqrt();
    ratio.mul(sin_theta).raw > SCALE || reflectance(cos_theta, ratio).raw > draw.raw
}

/// The direction in which a clear surface sends a ray on.
pub open spec fn spec_dielectric_direction(
    direction: Vector3,
    normal: Vector3,
    ri: Fixed,
    front_face: bool,
    draw: Fixed,
) -> Vector3 {
    let ratio = spec_index_ratio(ri, front_face);
    let unit_direction = direction.spec_normalized();
    if spec_reflects(unit_direction, normal, ratio, draw) {
        spec_reflect(unit_direction, normal)
    } else {
        spec_refract(unit_direction, normal, ratio)
    }
}

/// What becomes of a ray at a surface, given the random unit vector and the uniform
/// draw from `[0, 1)` that the material may use: the colour by which the light is
/// attenuated and the ray that leaves, or `None` when the ray is absorbed. Only a
/// mirror absorbs, and only when the fuzz turns the reflection into the surface.
#[verifier::opaque]
pub open spec fn spec_scatter_with(
    hit_material: Material,
    ray_in: Ray,
    hit_point: Vector3,
    hit_point_normal: Vector3,
    front_face: bool,
    u: Fixed,
    v: Fixed,
    unit: Vector3,
    draw: Fixed,
) -> Option<(Vector3, Ray)> {
    match hit_material {
        Material::Diffuse(texture) => Some(
            (
                spec_map_value(texture, u, v, hit_point),
                Ray {
                    origin: hit_point,
                    direction: spec_diffuse_direction(hit_point_normal, unit),
                    time: ray_in.time,
                },
            ),
        ),
        Material::Metal(albedo, fuzz) => {
            let reflected = spec_metal_direction(ray_in.direction, hit_point_normal, fuzz, unit);
            if Vector3::spec_dot_product(reflected, hit_point_normal).raw > 0 {
                Some((albedo, Ray { origin: hit_point, direction: reflected, time: ray_in.time }))
            } else {
                None
            }
        },
        Material::Dielectric(ri) => Some(
            (
                Vector3 { x: Fixed { raw: SCALE }, y: Fixed { raw: SCALE }, z: Fixed { raw: SCALE } },
                Ray {
                    origin: hit_point,
                    direction: spec_dielectric_direction(
                        ray_in.direction,
                        hit_point_normal,
                        ri,
                        front_face,
                        draw,
                    ),
                    time: ray_in.time,
                },
            ),
        ),
    }
}

/// Scatters a ray off a material with a given random unit vector and uniform draw.
pub fn scatter_with(
    hit_material: &Material,
    ray_in: &Ray,
    hit_point: Vector3,
    hit_point_normal: Vector3,
    front_face: bool,
    u: Fixed,
    v: Fixed,
    unit: Vector3,
    draw: Fixed,
) -> (r: Option<(Vector3, Ray)>)
    ensures
        r == spec_scatter_with(
            *hit_material,
            *ray_in,
            hit_point,
            hit_point_normal,
            front_face,
            u,
            v,
            unit,
            draw,
        ),
{
    reveal(spec_scatter_with);
    match hit_material {
        Material::Diffuse(texture) => {
            let scattered_direction = hit_point_normal.add(unit);
            let scattered_direction = if scattered_direction.magnitude().raw < NEAR_ZERO {
                hit_point_normal
            } else {
                scattered_direction
            };
            let scattered_ray = Ray {
                origin: hit_point,
                direction: scattered_direction,
                time: ray_in.time,
            };
            Some((get_map_value(texture, u, v, hit_point), scattered_ray))
        },
        Material::Metal(albedo, fuzz) => {
            let mut reflected = reflect(&ray_in.direction, &hit_point_normal);
            reflected.normalize();
            let reflected = reflected.add(unit.scale(*fuzz));
            if Vector3::dot_product(&reflected, &hit_point_normal).raw > 0 {
                Some((*albedo, Ray { origin: hit_point, direction: reflected, time: ray_in.time }))
            } else {
                None
            }
        },
        Material::Dielectric(ri) => {
            let one = Fixed { raw: SCALE };
            let attenuation = Vector3 { x: one, y: one, z: one };
            let refraction_index = if front_face {
                one.div(*ri)
            } else {
                *ri
            };
            let unit_direction = Vector3::calc_normalized_vector(&ray_in.direction);
            let direction = if reflects(unit_direction, hit_point_normal, refraction_index, draw) {
                reflect(&unit_direction, &hit_point_normal)
            } else {
                refract(&unit_direction, &hit_point_normal, refraction_index)
            };
            Some((attenuation, Ray { origin: hit_point, direction, time: ray_in.time }))
        },
    }
}

/// Whether `draw` is a possible uniform draw: a number in `[0, 1)`.
pub open spec fn is_uniform_draw(draw: Fixed) -> bool {
    0 <= draw.raw < SCALE
}

/// Scatters a ray off a material. A matte surface and a mirror use a random unit
/// vector, a clear surface a uniform draw; whatever is drawn, the result is that of
/// [`scatter_with`] for it.
pub fn scatter_ray(
    hit_material: &Material,
    ray_in: &Ray,
    hit_point: Vector3,
    hit_point_normal: Vector3,
    front_face: bool,
    u: Fixed,
    v: Fixed,
    rng: &mut ThreadRng,
) -> (r: Option<(Vector3, Ray)>)
    ensures
        exists|unit: Vector3, draw: Fixed|
            is_random_vector(unit) && is_uniform_draw(draw) && r == #[trigger] spec_scatter_with(
                *hit_material,
                *ray_in,
                hit_point,
                hit_point_normal,
                front_face,
                u,
                v,
                unit,
                draw,
            ),
        !(hit_material is Metal) ==> r is Some,
{
    reveal(spec_scatter_with);
    let (unit, draw) = match hit_material {
        Material::Dielectric(_) => (
            Vector3 { x: Fixed { raw: SCALE }, y: Fixed { raw: 0 }, z: Fixed { raw: 0 } },
            Fixed { raw: random_in_range(rng, 0, SCALE) },
        ),
        _ => (random_vector(rng), Fixed { raw: 0 }),
    };
    scatter_with(hit_material, ray_in, hit_point, hit_point_normal, front_face, u, v, unit, draw)
}

/// Whether a material attenuates by a colour: a matte surface by a texture of colours
/// and pictures, a mirror by a colour, a clear surface always.
pub open spec fn material_in_unit(material: Material) -> bool {
    match material {
        Material::Diffuse(texture) => texture_in_unit(texture),
        Material::Metal(albedo, _) => spec_in_unit(albedo),
        Material::Dielectric(_) => true,
    }
}

/// A material that attenuates by a colour does so whatever is drawn.
pub proof fn lemma_attenuation_in_unit(
    hit_material: &Material,
    ray_in: Ray,
    hit_point: Vector3,
    hit_point_normal: Vector3,
    front_face: bool,
    u: Fixed,
    v: Fixed,
    unit: Vector3,
    draw: Fixed,
)
    requires
        material_in_unit(*hit_material),
    ensures
        spec_scatter_with(
            *hit_material,
            ray_in,
            hit_point,
            hit_point_normal,
            front_face,
            u,
            v,
            unit,
            draw,
        ) matches Some(outcome) ==> spec_in_unit(outcome.0),
{
    reveal(spec_scatter_with);
    match hit_material {
        Material::Diffuse(texture) => {
            lemma_map_value_in_unit(texture, u, v, hit_point);
        },
        _ => {},
    }
}

} // verus!
