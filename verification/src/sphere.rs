//! Spheres, at rest or in linear motion, and their intersection with rays.
use vstd::prelude::*;
use crate::aabb::Aabb;
use crate::hit_record::HitRecord;
use crate::ray::{at, spec_at, Ray};
use crate::scalar::{
    floor_div, floor_div_wide, isqrt, isqrt_full, lemma_floor_div_bounds,
    lemma_floor_div_monotone, lemma_isqrt_exists, spec_wide_quotient, wide_ok, wide_quotient,
    Fixed, SCALE,
};
use crate::trig::{acos, atan2, spec_acos, spec_atan2, PI, TWO_PI};
use crate::vector::Vector3;

verus! {

/// A sphere whose centre moves along `center` as the time runs from zero to one.
#[derive(Clone, Copy, Debug, PartialEq, Eq, Structural)]
pub struct Sphere {
    /// The centre at time zero, and its displacement over the unit of time.
    pub center: Ray,
    pub radius: Fixed,
    /// Handle of the sphere's material.
    pub material: usize,
    pub bounding_box: Aabb,
}

/// The box around a sphere of the given radius at the given centre.
pub open spec fn spec_sphere_box(center: Vector3, radius: Fixed) -> Aabb {
    let radius_vector = Vector3 { x: radius, y: radius, z: radius };
    Aabb::spec_new(center.spec_sub(radius_vector), center.spec_add(radius_vector))
}

fn sphere_box(center: Vector3, radius: Fixed) -> (r: Aabb)
    ensures
        r == spec_sphere_box(center, radius),
        r.ordered(),
{
    let radius_vector = Vector3 { x: radius, y: radius, z: radius };
    Aabb::new(center.sub(radius_vector), center.add(radius_vector))
}

impl Sphere {
    /// A sphere at rest.
    pub open spec fn spec_new(center: Vector3, radius: Fixed, material: usize) -> Sphere {
        Sphere {
            center: Ray { origin: center, direction: Vector3::spec_zero(), time: Fixed { raw: 0 } },
            radius,
            material,
            bounding_box: spec_sphere_box(center, radius),
        }
    }

    /// A sphere that moves from `center1` to `center2`; its box holds it at both ends.
    pub open spec fn spec_new_moving(
        center1: Vector3,
        center2: Vector3,
        radius: Fixed,
        material: usize,
    ) -> Sphere {
        Sphere {
            center: Ray {
                origin: center1,
                direction: center2.spec_sub(center1),
                time: Fixed { raw: 0 },
            },
            radius,
            material,
            bounding_box: Aabb::spec_from_boxes(
                spec_sphere_box(center1, radius),
                spec_sphere_box(center2, radius),
            ),
        }
    }

    /// Creates a sphere that does not move.
    pub fn new(center: Vector3, radius: Fixed, material: usize) -> (r: Sphere)
        requires
            radius.raw > 0,
        ensures
            r == Self::spec_new(center, radius, material),
            r.bounding_box.ordered(),
    {
        let bounding_box = sphere_box(center, radius);
        Sphere {
            center: Ray { origin: center, direction: Vector3::zero(), time: Fixed { raw: 0 } },
            radius,
            material,
            bounding_box,
        }
    }

    /// Creates a sphere that moves from `center1` to `center2` while the time runs from
    /// zero to one.
    pub fn new_moving(center1: Vector3, center2: Vector3, radius: Fixed, material: usize) -> (r:
        Sphere)
        requires
            radius.raw > 0,
        ensures
            r == Self::spec_new_moving(center1, center2, radius, material),
            r.bounding_box.ordered(),
    {
        let box1 = sphere_box(center1, radius);
        let box2 = sphere_box(center2, radius);
        let bounding_box = Aabb::from_boxes(&box1, &box2);
        Sphere {
            center: Ray { origin: center1, direction: center2.sub(center1), time: Fixed { raw: 0 } },
            radius,
            material,
            bounding_box,
        }
    }
}

/// From this magnitude of a raw coordinate on, the coordinates of a sphere and a ray
/// are quartered before their products are formed: two to the power of 61.
pub const NARROW: i64 = 0x2000_0000_0000_0000;

/// The coefficients of the quadratic are halved until each is below this magnitude:
/// two to the power of 63.
pub const COEFFICIENT_LIMIT: i128 = 0x8000_0000_0000_0000;

/// Whether a raw coordinate is so large that products of such coordinates would not
/// add up within 128 bits.
pub open spec fn spec_is_big(x: i64) -> bool {
    x <= -NARROW || x >= NARROW
}

/// Whether any coordinate of the direction, of the offset to the centre, or the
/// radius is big.
pub open spec fn spec_needs_narrowing(d: Vector3, oc: Vector3, radius: Fixed) -> bool {
    spec_is_big(d.x.raw) || spec_is_big(d.y.raw) || spec_is_big(d.z.raw) || spec_is_big(oc.x.raw)
        || spec_is_big(oc.y.raw) || spec_is_big(oc.z.raw) || spec_is_big(radius.raw)
}

/// A raw coordinate, quartered if the coordinates are to be narrowed. Quartering all
/// lengths does not move the roots.
pub open spec fn spec_narrowed(x: i64, narrow: bool) -> int {
    if narrow {
        x as int / 4
    } else {
        x as int
    }
}

/// Whether all three coefficients are below [`COEFFICIENT_LIMIT`] in magnitude.
pub open spec fn spec_within_limit(a: int, h: int, c: int) -> bool {
    &&& -COEFFICIENT_LIMIT < a < COEFFICIENT_LIMIT
    &&& -COEFFICIENT_LIMIT < h < COEFFICIENT_LIMIT
    &&& -COEFFICIENT_LIMIT < c < COEFFICIENT_LIMIT
}

/// The magnitude of an integer.
pub open spec fn spec_size(x: int) -> int {
    if x < 0 {
        -x
    } else {
        x
    }
}

/// The coefficients halved together until all are within the limit. Halving all
/// three does not move the roots.
pub open spec fn spec_reduced(a: int, h: int, c: int) -> (int, int, int)
    decreases spec_size(a) + spec_size(h) + spec_size(c),
{
    if spec_within_limit(a, h, c) {
        (a, h, c)
    } else {
        spec_reduced(a / 2, h / 2, c / 2)
    }
}

/// Reduced coefficients are within the limit, and the first stays non-negative.
pub proof fn lemma_reduced_within_limit(a: int, h: int, c: int)
    ensures
        spec_within_limit(spec_reduced(a, h, c).0, spec_reduced(a, h, c).1, spec_reduced(a, h, c).2),
        a >= 0 ==> spec_reduced(a, h, c).0 >= 0,
    decreases spec_size(a) + spec_size(h) + spec_size(c),
{
    if !spec_within_limit(a, h, c) {
        lemma_reduced_within_limit(a / 2, h / 2, c / 2);
    }
}

/// The coefficients `(a, h, c)` of the quadratic `a t^2 - 2 h t + c = 0` whose roots
/// are the parameters at which the ray's line meets the sphere: with `D` the
/// direction and `OC` the offset from the ray's origin to the centre at the ray's
/// time, `a = D . D`, `h = D . OC` and `c = OC . OC - r^2`, formed exactly from the
/// raw coordinates (quartered if any is big) and then halved together until each is
/// below [`COEFFICIENT_LIMIT`].
pub open spec fn spec_sphere_coefficients(ray_in: Ray, sphere_in: Sphere) -> (int, int, int) {
    let oc = spec_at(sphere_in.center, ray_in.time).spec_sub(ray_in.origin);
    let d = ray_in.direction;
    let narrow = spec_needs_narrowing(d, oc, sphere_in.radius);
    let dx = spec_narrowed(d.x.raw, narrow);
    let dy = spec_narrowed(d.y.raw, narrow);
    let dz = spec_narrowed(d.z.raw, narrow);
    let ox = spec_narrowed(oc.x.raw, narrow);
    let oy = spec_narrowed(oc.y.raw, narrow);
    let oz = spec_narrowed(oc.z.raw, narrow);
    let r = spec_narrowed(sphere_in.radius.raw, narrow);
    spec_reduced(
        dx * dx + dy * dy + dz * dz,
        dx * ox + dy * oy + dz * oz,
        ox * ox + oy * oy + oz * oz - r * r,
    )
}

/// The integer root of the discriminant `h^2 - a c` of the reduced coefficients, if
/// the discriminant is not negative.
pub open spec fn spec_sphere_discriminant_root(ray_in: Ray, sphere_in: Sphere) -> Option<int> {
    let k = spec_sphere_coefficients(ray_in, sphere_in);
    let discriminant = k.1 * k.1 - k.0 * k.2;
    if discriminant < 0 {
        None
    } else {
        Some(isqrt(discriminant))
    }
}

/// The two parameters at which the ray's line meets the sphere, smaller first: with
/// `s` the integer root of the discriminant, `(h - s) / a` and `(h + s) / a`, each
/// rounded down once. `None` when the discriminant is negative.
pub open spec fn spec_sphere_roots(ray_in: Ray, sphere_in: Sphere) -> Option<(Fixed, Fixed)> {
    let k = spec_sphere_coefficients(ray_in, sphere_in);
    match spec_sphere_discriminant_root(ray_in, sphere_in) {
        None => None,
        Some(root) => Some(
            (
                spec_wide_quotient((k.1 - root) * SCALE, k.0),
                spec_wide_quotient((k.1 + root) * SCALE, k.0),
            ),
        ),
    }
}

/// A raw coordinate as a wide integer, quartered if asked.
fn narrowed(x: i64, narrow: bool) -> (r: i128)
    ensures
        r == spec_narrowed(x, narrow),
        -NARROW <= r <= NARROW || (!narrow && spec_is_big(x)),
{
    if narrow {
        floor_div_wide(x as i128, 4)
    } else {
        x as i128
    }
}

/// Whether a raw coordinate is big.
fn is_big(x: i64) -> (r: bool)
    ensures
        r == spec_is_big(x),
{
    x <= -NARROW || x >= NARROW
}

/// The product of two narrowed coordinates.
fn narrow_product(a: i128, b: i128) -> (p: i128)
    requires
        -NARROW <= a <= NARROW,
        -NARROW <= b <= NARROW,
    ensures
        p == a * b,
        -0x400_0000_0000_0000_0000_0000_0000_0000 <= p <= 0x400_0000_0000_0000_0000_0000_0000_0000,
{
    assert(-0x400_0000_0000_0000_0000_0000_0000_0000 <= a * b
        <= 0x400_0000_0000_0000_0000_0000_0000_0000) by (nonlinear_arith)
        requires
            -0x2000_0000_0000_0000 <= a <= 0x2000_0000_0000_0000,
            -0x2000_0000_0000_0000 <= b <= 0x2000_0000_0000_0000,
    ;
    a * b
}

/// Halves the coefficients together until all are within the limit.
fn reduced(a: i128, h: i128, c: i128) -> (r: (i128, i128, i128))
    requires
        wide_ok(a as int),
        wide_ok(h as int),
        wide_ok(c as int),
    ensures
        (r.0 as int, r.1 as int, r.2 as int) == spec_reduced(a as int, h as int, c as int),
        spec_within_limit(r.0 as int, r.1 as int, r.2 as int),
        a >= 0 ==> r.0 >= 0,
{
    let mut a1 = a;
    let mut h1 = h;
    let mut c1 = c;
    proof {
        lemma_reduced_within_limit(a as int, h as int, c as int);
    }
    while !(-COEFFICIENT_LIMIT < a1 && a1 < COEFFICIENT_LIMIT && -COEFFICIENT_LIMIT < h1 && h1
        < COEFFICIENT_LIMIT && -COEFFICIENT_LIMIT < c1 && c1 < COEFFICIENT_LIMIT)
        invariant
            wide_ok(a1 as int),
            wide_ok(h1 as int),
            wide_ok(c1 as int),
            spec_reduced(a1 as int, h1 as int, c1 as int) == spec_reduced(
                a as int,
                h as int,
                c as int,
            ),
        decreases spec_size(a1 as int) + spec_size(h1 as int) + spec_size(c1 as int),
    {
        a1 = floor_div_wide(a1, 2);
        h1 = floor_div_wide(h1, 2);
        c1 = floor_div_wide(c1, 2);
    }
    (a1, h1, c1)
}

/// Forms the reduced coefficients of the quadratic for a ray and a sphere whose
/// centre at the ray's time is `center`.
fn sphere_coefficients(ray_in: &Ray, sphere_in: &Sphere) -> (k: (i128, i128, i128))
    ensures
        (k.0 as int, k.1 as int, k.2 as int) == spec_sphere_coefficients(*ray_in, *sphere_in),
        spec_within_limit(k.0 as int, k.1 as int, k.2 as int),
        k.0 >= 0,
{
    let oc = at(&sphere_in.center, ray_in.time).sub(ray_in.origin);
    let d = ray_in.direction;
    let narrow = is_big(d.x.raw) || is_big(d.y.raw) || is_big(d.z.raw) || is_big(oc.x.raw)
        || is_big(oc.y.raw) || is_big(oc.z.raw) || is_big(sphere_in.radius.raw);
    let dx = narrowed(d.x.raw, narrow);
    let dy = narrowed(d.y.raw, narrow);
    let dz = narrowed(d.z.raw, narrow);
    let ox = narrowed(oc.x.raw, narrow);
    let oy = narrowed(oc.y.raw, narrow);
    let oz = narrowed(oc.z.raw, narrow);
    let r = narrowed(sphere_in.radius.raw, narrow);
    let a = narrow_product(dx, dx) + narrow_product(dy, dy) + narrow_product(dz, dz);
    let h = narrow_product(dx, ox) + narrow_product(dy, oy) + narrow_product(dz, oz);
    let c = narrow_product(ox, ox) + narrow_product(oy, oy) + narrow_product(oz, oz)
        - narrow_product(r, r);
    assert(a >= 0) by (nonlinear_arith)
        requires
            a == dx * dx + dy * dy + dz * dz,
    ;
    reduced(a, h, c)
}

/// Solves the quadratic for a ray and a sphere.
fn sphere_roots(ray_in: &Ray, sphere_in: &Sphere) -> (r: Option<(Fixed, Fixed)>)
    ensures
        r == spec_sphere_roots(*ray_in, *sphere_in),
{
    let (a, h, c) = sphere_coefficients(ray_in, sphere_in);
    assert(-0x4000_0000_0000_0000_0000_0000_0000_0000 < h * h
        < 0x4000_0000_0000_0000_0000_0000_0000_0000 && -0x4000_0000_0000_0000_0000_0000_0000_0000
        < a * c < 0x4000_0000_0000_0000_0000_0000_0000_0000) by (nonlinear_arith)
        requires
            -0x8000_0000_0000_0000 < a < 0x8000_0000_0000_0000,
            -0x8000_0000_0000_0000 < h < 0x8000_0000_0000_0000,
            -0x8000_0000_0000_0000 < c < 0x8000_0000_0000_0000,
    ;
    let discriminant: i128 = h * h - a * c;
    if discriminant < 0 {
        return None;
    }
    let root: i128 = isqrt_full(discriminant as u128) as i128;
    assert(wide_ok((h - root) * SCALE) && wide_ok((h + root) * SCALE)) by (nonlinear_arith)
        requires
            -0x8000_0000_0000_0000 < h < 0x8000_0000_0000_0000,
            0 <= root < 0x1_0000_0000_0000_0000,
            SCALE == 1_000_000_000,
    ;
    Some((wide_quotient((h - root) * (SCALE as i128), a), wide_quotient((h + root) * (SCALE as i128), a)))
}

/// The parameter of the hit: the smaller root if it lies strictly between `tmin` and
/// `tmax`, else the larger root if that does.
pub open spec fn spec_sphere_parameter(ray_in: Ray, sphere_in: Sphere, tmin: Fixed, tmax: Fixed)
    -> Option<Fixed> {
    match spec_sphere_roots(ray_in, sphere_in) {
        None => None,
        Some((near, far)) => {
            if tmin.raw < near.raw < tmax.raw {
                Some(near)
            } else if tmin.raw < far.raw < tmax.raw {
                Some(far)
            } else {
                None
            }
        },
    }
}

/// A number brought into `[0, 1]`.
pub open spec fn spec_unit_interval(x: Fixed) -> Fixed {
    x.spec_max(Fixed { raw: 0 }).spec_min(Fixed { raw: SCALE })
}

/// Texture coordinates of a point of the unit sphere, both in `[0, 1]`: `u` is the
/// angle around the y axis as a fraction of the full turn, `v` the angle from the
/// south pole as a fraction of the half-turn.
pub open spec fn spec_sphere_uv(normal: Vector3) -> (Fixed, Fixed) {
    let theta = spec_acos(normal.y.spec_neg());
    let phi = spec_atan2(normal.z.spec_neg(), normal.x).spec_add(Fixed { raw: PI });
    (
        spec_unit_interval(phi.spec_div(Fixed { raw: TWO_PI })),
        spec_unit_interval(theta.spec_div(Fixed { raw: PI })),
    )
}

fn sphere_uv(normal: Vector3) -> (r: (Fixed, Fixed))
    ensures
        r == spec_sphere_uv(normal),
        0 <= r.0.raw <= SCALE,
        0 <= r.1.raw <= SCALE,
{
    let theta = acos(normal.y.neg());
    let phi = atan2(normal.z.neg(), normal.x).add(Fixed { raw: PI });
    (
        phi.div(Fixed { raw: TWO_PI }).max(Fixed { raw: 0 }).min(Fixed { raw: SCALE }),
        theta.div(Fixed { raw: PI }).max(Fixed { raw: 0 }).min(Fixed { raw: SCALE }),
    )
}

/// The record of the ray meeting the sphere at parameter `t`: the outward normal is
/// the offset of the point from the centre, over the radius.
pub open spec fn spec_sphere_record(ray_in: Ray, sphere_in: Sphere, t: Fixed) -> HitRecord {
    let center = spec_at(sphere_in.center, ray_in.time);
    let normal = spec_at(ray_in, t).spec_sub(center).spec_unscale(sphere_in.radius);
    let uv = spec_sphere_uv(normal);
    HitRecord::spec_new(ray_in, normal, t, sphere_in.material, uv.0, uv.1)
}

/// The nearest meeting of the ray with the sphere strictly between `tmin` and `tmax`.
pub open spec fn spec_hit_sphere(ray_in: Ray, sphere_in: Sphere, tmin: Fixed, tmax: Fixed)
    -> Option<HitRecord> {
    match spec_sphere_parameter(ray_in, sphere_in, tmin, tmax) {
        None => None,
        Some(t) => Some(spec_sphere_record(ray_in, sphere_in, t)),
    }
}

/// Intersects a ray with a sphere. Both bounds are exclusive: a meeting exactly at
/// `tmin` or `tmax` does not count, which keeps a scattered ray from meeting the
/// surface it leaves.
pub fn hit_sphere(ray_in: &Ray, sphere_in: &Sphere, tmin: Fixed, tmax: Fixed) -> (r: Option<
    HitRecord,
>)
    ensures
        r == spec_hit_sphere(*ray_in, *sphere_in, tmin, tmax),
        r matches Some(rec) ==> tmin.raw < rec.t.raw < tmax.raw && rec.material
            == sphere_in.material && 0 <= rec.u.raw <= SCALE && 0 <= rec.v.raw <= SCALE,
{
    let t = match sphere_roots(ray_in, sphere_in) {
        None => {
            return None;
        },
        Some((near, far)) => {
            if near.raw <= tmin.raw || near.raw >= tmax.raw {
                if far.raw <= tmin.raw || far.raw >= tmax.raw {
                    return None;
                }
                far
            } else {
                near
            }
        },
    };
    let current_center = at(&sphere_in.center, ray_in.time);
    let point = at(ray_in, t);
    let normal = point.sub(current_center).unscale(sphere_in.radius);
    let (u, v) = sphere_uv(normal);
    Some(HitRecord::new(ray_in, normal, t, sphere_in.material, u, v))
}

/// The smaller root is not above the larger one.
pub proof fn lemma_sphere_roots_ordered(ray_in: Ray, sphere_in: Sphere)
    ensures
        spec_sphere_roots(ray_in, sphere_in) matches Some((near, far)) ==> near.raw <= far.raw,
{
    let oc = spec_at(sphere_in.center, ray_in.time).spec_sub(ray_in.origin);
    let d = ray_in.direction;
    let narrow = spec_needs_narrowing(d, oc, sphere_in.radius);
    let dx = spec_narrowed(d.x.raw, narrow);
    let dy = spec_narrowed(d.y.raw, narrow);
    let dz = spec_narrowed(d.z.raw, narrow);
    let ox = spec_narrowed(oc.x.raw, narrow);
    let oy = spec_narrowed(oc.y.raw, narrow);
    let oz = spec_narrowed(oc.z.raw, narrow);
    let r = spec_narrowed(sphere_in.radius.raw, narrow);
    let a0 = dx * dx + dy * dy + dz * dz;
    assert(a0 >= 0) by (nonlinear_arith)
        requires
            a0 == dx * dx + dy * dy + dz * dz,
    ;
    lemma_reduced_within_limit(
        a0,
        dx * ox + dy * oy + dz * oz,
        ox * ox + oy * oy + oz * oz - r * r,
    );
    let k = spec_sphere_coefficients(ray_in, sphere_in);
    match spec_sphere_discriminant_root(ray_in, sphere_in) {
        None => {},
        Some(root) => {
            lemma_isqrt_exists(k.1 * k.1 - k.0 * k.2);
            assert((k.1 - root) * SCALE <= (k.1 + root) * SCALE) by (nonlinear_arith)
                requires
                    root >= 0,
                    SCALE == 1_000_000_000,
            ;
            if k.0 > 0 {
                lemma_floor_div_monotone((k.1 - root) * SCALE, (k.1 + root) * SCALE, k.0);
            }
        },
    }
}

/// How the reported roots sit in the quadratic. With `(a, h, c)` the reduced
/// coefficients and `s` the integer root of the discriminant, `s^2 <= h^2 - a c <
/// (s + 1)^2`; and where `a` is positive and a root `t` (in raw units) is not at an
/// end of the number range, `a t <= (h -+ s) SCALE < a t + a`: the root is the
/// quotient rounded down, less than one raw unit below it.
pub proof fn lemma_sphere_roots_bracketed(ray_in: Ray, sphere_in: Sphere)
    ensures
        spec_sphere_discriminant_root(ray_in, sphere_in) matches Some(s) ==> {
            let k = spec_sphere_coefficients(ray_in, sphere_in);
            &&& 0 <= s
            &&& s * s <= k.1 * k.1 - k.0 * k.2 < (s + 1) * (s + 1)
            &&& spec_sphere_roots(ray_in, sphere_in) matches Some((near, far)) && (k.0 > 0
                && i64::MIN < near.raw < i64::MAX ==> k.0 * near.raw <= (k.1 - s) * SCALE < k.0
                * near.raw + k.0) && (k.0 > 0 && i64::MIN < far.raw < i64::MAX ==> k.0 * far.raw
                <= (k.1 + s) * SCALE < k.0 * far.raw + k.0)
        },
{
    let k = spec_sphere_coefficients(ray_in, sphere_in);
    match spec_sphere_discriminant_root(ray_in, sphere_in) {
        None => {},
        Some(s) => {
            lemma_isqrt_exists(k.1 * k.1 - k.0 * k.2);
            if k.0 > 0 {
                lemma_floor_div_bounds((k.1 - s) * SCALE, k.0);
                lemma_floor_div_bounds((k.1 + s) * SCALE, k.0);
                let q1 = floor_div((k.1 - s) * SCALE, k.0);
                let q2 = floor_div((k.1 + s) * SCALE, k.0);
                assert(q1 * k.0 == k.0 * q1 && q2 * k.0 == k.0 * q2) by (nonlinear_arith);
            }
        },
    }
}

/// Whether `normal` is `offset` over `radius`, rounded down to a raw unit: `radius *
/// normal <= offset * SCALE < radius * (normal + 1)`, unless the quotient is at an end
/// of the number range.
pub open spec fn spec_is_quotient(normal: Fixed, offset: Fixed, radius: Fixed) -> bool {
    i64::MIN < normal.raw < i64::MAX ==> radius.raw * normal.raw <= offset.raw * SCALE
        < radius.raw * normal.raw + radius.raw
}

/// How the recorded normal sits on the sphere: before it is turned against the ray,
/// each of its components is the offset of the recorded point from the centre over
/// the radius, less than one raw unit below the exact quotient. The normal is as
/// long as the offset is, over the radius, to within that rounding.
pub proof fn lemma_sphere_normal_bracketed(ray_in: Ray, sphere_in: Sphere, t: Fixed)
    requires
        sphere_in.radius.raw > 0,
    ensures
        ({
            let offset = spec_at(ray_in, t).spec_sub(spec_at(sphere_in.center, ray_in.time));
            let normal = offset.spec_unscale(sphere_in.radius);
            &&& spec_is_quotient(normal.x, offset.x, sphere_in.radius)
            &&& spec_is_quotient(normal.y, offset.y, sphere_in.radius)
            &&& spec_is_quotient(normal.z, offset.z, sphere_in.radius)
            &&& spec_sphere_record(ray_in, sphere_in, t).point == spec_at(ray_in, t)
            &&& spec_sphere_record(ray_in, sphere_in, t).normal == normal || spec_sphere_record(
                ray_in,
                sphere_in,
                t,
            ).normal == normal.spec_neg()
        }),
{
    let offset = spec_at(ray_in, t).spec_sub(spec_at(sphere_in.center, ray_in.time));
    let r = sphere_in.radius.raw as int;
    lemma_floor_div_bounds(offset.x.raw * SCALE, r);
    lemma_floor_div_bounds(offset.y.raw * SCALE, r);
    lemma_floor_div_bounds(offset.z.raw * SCALE, r);
    assert(forall|q: int| #[trigger] (q * r) == r * q) by (nonlinear_arith);
}

/// How the result depends on the upper bound: a hit found below a bound `c` is also
/// found, unchanged, below any larger bound `tmax`; a hit found below `tmax` whose
/// parameter is below `c` is also found below `c`; and a hit lies strictly between
/// the bounds.
pub proof fn lemma_hit_sphere_range(ray_in: Ray, sphere_in: Sphere, tmin: Fixed, c: Fixed, tmax: Fixed)
    requires
        c.raw <= tmax.raw,
    ensures
        spec_hit_sphere(ray_in, sphere_in, tmin, c) matches Some(h) ==> tmin.raw < h.t.raw < c.raw
            && spec_hit_sphere(ray_in, sphere_in, tmin, tmax) == Some(h),
        spec_hit_sphere(ray_in, sphere_in, tmin, tmax) matches Some(g) ==> (g.t.raw < c.raw
            ==> spec_hit_sphere(ray_in, sphere_in, tmin, c) == Some(g)),
{
    lemma_sphere_roots_ordered(ray_in, sphere_in);
}

impl crate::hittable::Hittable for Sphere {
    open spec fn outcome(&self, r: Ray, ray_tmin: Fixed, ray_tmax: Fixed) -> Option<HitRecord> {
        spec_hit_sphere(r, *self, ray_tmin, ray_tmax)
    }

    fn hit(&self, r: &Ray, ray_tmin: Fixed, ray_tmax: Fixed, rec: &mut HitRecord) -> (found: bool) {
        match hit_sphere(r, self, ray_tmin, ray_tmax) {
            Some(record) => {
                *rec = record;
                true
            },
            None => false,
        }
    }
}

} // verus!
