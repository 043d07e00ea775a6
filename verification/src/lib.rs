//! A Monte Carlo path tracer over saturating fixed-point arithmetic.
//!
//! Every quantity (coordinate, colour channel, ray parameter) is a [`scalar::Fixed`]:
//! a signed 64-bit count of billionths. Arithmetic never traps: results that leave
//! the representable range stick to its nearest end, and a division by zero
//! yields the end of the range on the dividend's side.
//!
//! Where a result is a quotient of sums of products (a dot product, a length, the
//! roots of a sphere's quadratic, the planar coordinates on a quad), the sums are
//! formed exactly in 128-bit integers and the result is rounded once, so that small
//! things lose nothing to the resolution of the numbers.
//!
//! From the leaves to the root:
//! - [`scalar`], [`trig`], [`vector`], [`ray`]: numbers, vectors and rays;
//! - [`aabb`]: bounding boxes and the slab test;
//! - [`hit_record`], [`sphere`], [`quad`], [`hittable`]: the primitives and their
//!   intersection with rays;
//! - [`hittables`], [`bvh`]: the scene and the hierarchy of boxes that speeds its
//!   search up;
//! - [`random`], [`random_vector`], [`vector_raytrace`], [`perlin`], [`map`],
//!   [`material`]: textures and the scattering of rays at surfaces;
//! - [`camera`], [`color`]: rays through pixels, the light along them, and the image
//!   as the text of a plain pixmap.
pub mod scalar;
pub mod trig;
pub mod vector;
pub mod ray;
pub mod aabb;
pub mod hit_record;
pub mod sphere;
pub mod quad;
pub mod hittable;
pub mod hittables;
pub mod bvh;
pub mod random;
pub mod random_vector;
pub mod vector_raytrace;
pub mod perlin;
pub mod map;
pub mod material;
pub mod camera;
pub mod color;
