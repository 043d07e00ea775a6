//! Flat parallelograms and their intersection with rays.
use vstd::prelude::*;
use crate::aabb::Aabb;
use crate::hit_record::HitRecord;
use crate::ray::{at, spec_at, Ray};
use crate::scalar::{
    floor_div, floor_div_wide, isqrt, isqrt_full, lemma_floor_div_bounds, spec_wide_quotient,
    wide_ok, wide_quotient, wide_ratio, Fixed, RATIO_LIMIT, SCALE,
};
use crate::vector::{
    cross_raw, lemma_component_fits, spec_cross_raw, spec_widened, widened, Vector3,
};

verus! {

/// Below this magnitude of the normal's component along a ray, in raw units, the ray
/// counts as parallel to the plane: a hundred-millionth.
pub const PARALLEL: i64 = 10;

/// The parallelogram with corner `q` and edges `u` and `v`.
#[derive(Clone, Copy, Debug, PartialEq, Eq, Structural)]
pub struct Quad {
    pub q: Vector3,
    pub u: Vector3,
    pub v: Vector3,
    /// The unit normal of the plane.
    pub normal: Vector3,
    /// Handle of the quad's material.
    pub material: usize,
    pub bounding_box: Aabb,
    /// The cross product of the edges over its own squared length: dotted with a
    /// cross product of an edge and a vector of the plane, it gives the vector's
    /// coordinate along the other edge. The intersection test forms these coordinates
    /// from the exact cross products instead; this value, rounded to the numbers'
    /// resolution, is kept for those who need it.
    pub w: Vector3,
    /// The plane is the set of points `p` with `normal . p == d`. Like `w`, this
    /// value is rounded to the numbers' resolution and kept for those who need it.
    pub d: Fixed,
}

/// The components of the edges' cross product are halved together until each is
/// below this magnitude: two to the power of 62.
pub const NORMAL_LIMIT: i128 = 0x4000_0000_0000_0000;

/// The divisor that stands for the halvings does not grow beyond this: two to the
/// power of 100.
pub const DIVISOR_LIMIT: i128 = 0x10_0000_0000_0000_0000_0000_0000;

/// The magnitude of an integer.
pub open spec fn spec_size(x: int) -> int {
    if x < 0 {
        -x
    } else {
        x
    }
}

/// Whether all three components are below [`NORMAL_LIMIT`] in magnitude.
pub open spec fn spec_within_limit(n: (int, int, int)) -> bool {
    &&& -NORMAL_LIMIT < n.0 < NORMAL_LIMIT
    &&& -NORMAL_LIMIT < n.1 < NORMAL_LIMIT
    &&& -NORMAL_LIMIT < n.2 < NORMAL_LIMIT
}

/// A vector of wide integers, halved until its components are within the limit,
/// together with the power of two by which it was divided.
pub open spec fn spec_reduced(n: (int, int, int), divisor: int) -> ((int, int, int), int)
    decreases spec_size(n.0) + spec_size(n.1) + spec_size(n.2),
{
    if spec_within_limit(n) || divisor >= DIVISOR_LIMIT || divisor < 1 {
        (n, divisor)
    } else {
        spec_reduced((n.0 / 2, n.1 / 2, n.2 / 2), 2 * divisor)
    }
}

/// The direction of a vector of wide integers. So that short vectors lose nothing,
/// the vector is first doubled as often as [`spec_widened`] says; each component of
/// the result is the doubled component times `SCALE` over the integer length of the
/// doubled vector, rounded down. The zero vector has the direction zero.
pub open spec fn spec_direction(n: (int, int, int)) -> Vector3 {
    let wide = spec_widened(n.0 * n.0 + n.1 * n.1 + n.2 * n.2, 1);
    let m = isqrt(wide.0);
    Vector3 {
        x: spec_wide_quotient(n.0 * wide.1 * SCALE, m),
        y: spec_wide_quotient(n.1 * wide.1 * SCALE, m),
        z: spec_wide_quotient(n.2 * wide.1 * SCALE, m),
    }
}

/// One component of the cross product over its squared length: the component `c`
/// of the unit normal, times `SCALE` squared, over the integer length `m` of the
/// reduced cross product and over the divisor that stands for the halvings.
pub open spec fn spec_inverse_component(c: Fixed, m: int, divisor: int) -> Fixed {
    if m == 0 {
        Fixed { raw: 0 }
    } else {
        spec_wide_quotient(floor_div(c.raw * SCALE * SCALE, m), divisor)
    }
}

/// The unit normal of the plane of two edges and the helper vector `w`, both from
/// the exact cross product `n` of the edges: the normal is the direction of `n`, and
/// `w` is `n` over its own squared length, which is the unit normal over the length.
/// Both are zero should the halvings end before the components are within the limit.
pub open spec fn spec_plane(u: Vector3, v: Vector3) -> (Vector3, Vector3) {
    let reduced = spec_reduced(spec_cross_raw(u, v), 1);
    let n = reduced.0;
    if spec_within_limit(n) {
        let m = isqrt(n.0 * n.0 + n.1 * n.1 + n.2 * n.2);
        let normal = spec_direction(n);
        (
            normal,
            Vector3 {
                x: spec_inverse_component(normal.x, m, reduced.1),
                y: spec_inverse_component(normal.y, m, reduced.1),
                z: spec_inverse_component(normal.z, m, reduced.1),
            },
        )
    } else {
        (Vector3::spec_zero(), Vector3::spec_zero())
    }
}

/// Halves a vector of wide integers until its components are within the limit, and
/// counts the halvings as a power of two.
fn reduced(n: (i128, i128, i128)) -> (r: ((i128, i128, i128), i128))
    requires
        i128::MIN < n.0 && i128::MIN < n.1 && i128::MIN < n.2,
    ensures
        ((r.0.0 as int, r.0.1 as int, r.0.2 as int), r.1 as int) == spec_reduced(
            (n.0 as int, n.1 as int, n.2 as int),
            1,
        ),
        1 <= r.1 <= 2 * DIVISOR_LIMIT,
        i128::MIN < r.0.0 && i128::MIN < r.0.1 && i128::MIN < r.0.2,
{
    let mut x = n.0;
    let mut y = n.1;
    let mut z = n.2;
    let mut divisor: i128 = 1;
    while !(-NORMAL_LIMIT < x && x < NORMAL_LIMIT && -NORMAL_LIMIT < y && y < NORMAL_LIMIT
        && -NORMAL_LIMIT < z && z < NORMAL_LIMIT) && divisor < DIVISOR_LIMIT
        invariant
            i128::MIN < x && i128::MIN < y && i128::MIN < z,
            1 <= divisor <= 2 * DIVISOR_LIMIT,
            divisor >= DIVISOR_LIMIT ==> spec_reduced((x as int, y as int, z as int), divisor as int)
                == ((x as int, y as int, z as int), divisor as int),
            spec_reduced((x as int, y as int, z as int), divisor as int) == spec_reduced(
                (n.0 as int, n.1 as int, n.2 as int),
                1,
            ),
        decreases spec_size(x as int) + spec_size(y as int) + spec_size(z as int),
    {
        x = floor_div_wide(x, 2);
        y = floor_div_wide(y, 2);
        z = floor_div_wide(z, 2);
        divisor = 2 * divisor;
    }
    ((x, y, z), divisor)
}

/// Derives the unit normal and the helper vector `w` from two edges.
fn plane(u: &Vector3, v: &Vector3) -> (r: (Vector3, Vector3))
    ensures
        r == spec_plane(*u, *v),
{
    let (n, divisor) = reduced(cross_raw(u, v));
    if !(-NORMAL_LIMIT < n.0 && n.0 < NORMAL_LIMIT && -NORMAL_LIMIT < n.1 && n.1 < NORMAL_LIMIT
        && -NORMAL_LIMIT < n.2 && n.2 < NORMAL_LIMIT) {
        return (Vector3::zero(), Vector3::zero());
    }
    assert(0 <= n.0 * n.0 < 0x1000_0000_0000_0000_0000_0000_0000_0000 && 0 <= n.1 * n.1
        < 0x1000_0000_0000_0000_0000_0000_0000_0000 && 0 <= n.2 * n.2
        < 0x1000_0000_0000_0000_0000_0000_0000_0000) by (nonlinear_arith)
        requires
            -0x4000_0000_0000_0000 < n.0 < 0x4000_0000_0000_0000,
            -0x4000_0000_0000_0000 < n.1 < 0x4000_0000_0000_0000,
            -0x4000_0000_0000_0000 < n.2 < 0x4000_0000_0000_0000,
    ;
    let squares: u128 = (n.0 * n.0) as u128 + (n.1 * n.1) as u128 + (n.2 * n.2) as u128;
    let m: i128 = isqrt_full(squares) as i128;
    let (wide, factor) = widened(squares);
    let wide_length: i128 = isqrt_full(wide) as i128;
    proof {
        assert(n.0 * n.0 <= squares && n.1 * n.1 <= squares && n.2 * n.2 <= squares);
        lemma_component_fits(n.0 as int, factor as int, squares as int, wide as int);
        lemma_component_fits(n.1 as int, factor as int, squares as int, wide as int);
        lemma_component_fits(n.2 as int, factor as int, squares as int, wide as int);
    }
    let normal = Vector3 {
        x: wide_quotient(n.0 * factor * (SCALE as i128), wide_length),
        y: wide_quotient(n.1 * factor * (SCALE as i128), wide_length),
        z: wide_quotient(n.2 * factor * (SCALE as i128), wide_length),
    };
    let w = Vector3 {
        x: inverse_component(normal.x, m, divisor),
        y: inverse_component(normal.y, m, divisor),
        z: inverse_component(normal.z, m, divisor),
    };
    (normal, w)
}

/// Computes one component of the helper vector `w`.
fn inverse_component(c: Fixed, m: i128, divisor: i128) -> (r: Fixed)
    requires
        0 <= m < 0x1_0000_0000_0000_0000,
        1 <= divisor <= 2 * DIVISOR_LIMIT,
    ensures
        r == spec_inverse_component(c, m as int, divisor as int),
{
    if m == 0 {
        Fixed { raw: 0 }
    } else {
        assert(wide_ok(c.raw * SCALE * SCALE)) by (nonlinear_arith)
            requires
                -0x8000_0000_0000_0000 <= c.raw <= 0x7fff_ffff_ffff_ffff,
                SCALE == 1_000_000_000,
        ;
        assert(c.raw * SCALE * SCALE == c.raw * (SCALE * SCALE)) by (nonlinear_arith);
        let wide: i128 = (c.raw as i128) * ((SCALE as i128) * (SCALE as i128));
        let over_length: i128 = floor_div_wide(wide, m);
        proof {
            lemma_floor_div_bounds(wide as int, m as int);
            assert(wide_ok(over_length as int)) by (nonlinear_arith)
                requires
                    wide_ok(wide as int),
                    m >= 1,
                    over_length * m <= wide < over_length * m + m,
            ;
        }
        wide_quotient(over_length, divisor)
    }
}

impl Quad {
    /// The quad with its derived plane and box: the box is the union of the boxes
    /// spanned by the two diagonals.
    pub open spec fn spec_new(q: Vector3, u: Vector3, v: Vector3, material: usize) -> Quad {
        let plane = spec_plane(u, v);
        Quad {
            q,
            u,
            v,
            normal: plane.0,
            material,
            bounding_box: Aabb::spec_from_boxes(
                Aabb::spec_new(q, q.spec_add(u).spec_add(v)),
                Aabb::spec_new(q.spec_add(u), q.spec_add(v)),
            ),
            w: plane.1,
            d: Vector3::spec_dot_product(q, plane.0),
        }
    }

    pub fn new(q: Vector3, u: Vector3, v: Vector3, material: usize) -> (r: Quad)
        ensures
            r == Self::spec_new(q, u, v, material),
            r.bounding_box.ordered(),
    {
        let bounding_box = Aabb::from_boxes(
            &Aabb::new(q, q.add(u).add(v)),
            &Aabb::new(q.add(u), q.add(v)),
        );
        let (normal, w) = plane(&u, &v);
        let d = Vector3::dot_product(&q, &normal);
        Quad { q, u, v, normal, material, bounding_box, w, d }
    }
}

/// The exact difference of the raw components of two vectors.
pub open spec fn spec_difference_raw(a: Vector3, b: Vector3) -> (int, int, int) {
    (a.x.raw - b.x.raw, a.y.raw - b.y.raw, a.z.raw - b.z.raw)
}

/// The parameter at which the ray crosses the quad's plane; `None` for a ray that
/// runs nearly parallel to it. The parameter is `(d - normal . origin) / (normal .
/// direction)`, formed as `n . (q - origin) / (n . direction)` from the exact cross
/// product `n` of the edges.
pub open spec fn spec_plane_parameter(ray_in: Ray, quad_in: Quad) -> Option<Fixed> {
    let denom = Vector3::spec_dot_product(quad_in.normal, ray_in.direction);
    if denom.spec_abs().raw < PARALLEL {
        None
    } else {
        Some(
            spec_plane_ratio(
                spec_cross_raw(quad_in.u, quad_in.v),
                spec_difference_raw(quad_in.q, ray_in.origin),
                spec_difference_raw(ray_in.direction, Vector3::spec_zero()),
            ),
        )
    }
}

/// Two vectors of wide integers are halved together until every component of both is
/// below this magnitude: two to the power of 57.
pub const PLANAR_LIMIT: i128 = 0x200_0000_0000_0000;

/// Whether all three components are below [`PLANAR_LIMIT`] in magnitude.
pub open spec fn spec_within_planar_limit(n: (int, int, int)) -> bool {
    &&& -PLANAR_LIMIT < n.0 < PLANAR_LIMIT
    &&& -PLANAR_LIMIT < n.1 < PLANAR_LIMIT
    &&& -PLANAR_LIMIT < n.2 < PLANAR_LIMIT
}

/// Two vectors of wide integers, halved together until both are within the planar
/// limit. Halving both does not change the ratio of their products.
pub open spec fn spec_reduced_pair(n: (int, int, int), x: (int, int, int)) -> (
    (int, int, int),
    (int, int, int),
)
    decreases spec_size(n.0) + spec_size(n.1) + spec_size(n.2) + spec_size(x.0) + spec_size(x.1)
        + spec_size(x.2),
{
    if spec_within_planar_limit(n) && spec_within_planar_limit(x) {
        (n, x)
    } else {
        spec_reduced_pair((n.0 / 2, n.1 / 2, n.2 / 2), (x.0 / 2, x.1 / 2, x.2 / 2))
    }
}

/// The coordinate of a vector of the plane along one edge of the quad: with `n` the
/// exact cross product of the edges and `x` the exact cross product of the vector
/// with the other edge, `(n . x) / (n . n)`, formed from the two vectors halved
/// together until they are within the planar limit, and rounded down once.
pub open spec fn spec_planar_coordinate(n: (int, int, int), x: (int, int, int)) -> Fixed {
    let pair = spec_reduced_pair(n, x);
    let a = pair.0.0 * pair.1.0 + pair.0.1 * pair.1.1 + pair.0.2 * pair.1.2;
    let b = pair.0.0 * pair.0.0 + pair.0.1 * pair.0.1 + pair.0.2 * pair.0.2;
    spec_wide_quotient(a * SCALE, b)
}

/// The coordinates of the ray's point at `t` in the basis of the quad's edges `u` and
/// `v`: for the vector `p` from the corner to the point, `(p x v) . n / (n . n)` and
/// `(u x p) . n / (n . n)` with `n = u x v`.
pub open spec fn spec_planar_coordinates(ray_in: Ray, quad_in: Quad, t: Fixed) -> (Fixed, Fixed) {
    let planar_hitpt_vector = spec_at(ray_in, t).spec_sub(quad_in.q);
    let n = spec_cross_raw(quad_in.u, quad_in.v);
    (
        spec_planar_coordinate(n, spec_cross_raw(planar_hitpt_vector, quad_in.v)),
        spec_planar_coordinate(n, spec_cross_raw(quad_in.u, planar_hitpt_vector)),
    )
}

/// A planar coordinate is the exact quotient rounded down: where the edges span a
/// plane and the coordinate `c` (in raw units) is not at an end of the number range,
/// `(n . n) c <= (n . x) SCALE < (n . n) (c + 1)` for the reduced vectors.
pub proof fn lemma_planar_coordinate_bracketed(n: (int, int, int), x: (int, int, int))
    ensures
        ({
            let pair = spec_reduced_pair(n, x);
            let a = pair.0.0 * pair.1.0 + pair.0.1 * pair.1.1 + pair.0.2 * pair.1.2;
            let b = pair.0.0 * pair.0.0 + pair.0.1 * pair.0.1 + pair.0.2 * pair.0.2;
            let c = spec_planar_coordinate(n, x).raw;
            b > 0 && i64::MIN < c < i64::MAX ==> b * c <= a * SCALE < b * c + b
        }),
{
    let pair = spec_reduced_pair(n, x);
    let a = pair.0.0 * pair.1.0 + pair.0.1 * pair.1.1 + pair.0.2 * pair.1.2;
    let b = pair.0.0 * pair.0.0 + pair.0.1 * pair.0.1 + pair.0.2 * pair.0.2;
    if b > 0 {
        lemma_floor_div_bounds(a * SCALE, b);
        let q = floor_div(a * SCALE, b);
        assert(q * b == b * q) by (nonlinear_arith);
    }
}

fn within_planar_limit(n: (i128, i128, i128)) -> (r: bool)
    ensures
        r == spec_within_planar_limit((n.0 as int, n.1 as int, n.2 as int)),
{
    -PLANAR_LIMIT < n.0 && n.0 < PLANAR_LIMIT && -PLANAR_LIMIT < n.1 && n.1 < PLANAR_LIMIT
        && -PLANAR_LIMIT < n.2 && n.2 < PLANAR_LIMIT
}

fn planar_product(a: i128, b: i128) -> (p: i128)
    requires
        -PLANAR_LIMIT < a < PLANAR_LIMIT,
        -PLANAR_LIMIT < b < PLANAR_LIMIT,
    ensures
        p == a * b,
        -0x4_0000_0000_0000_0000_0000_0000_0000 < p < 0x4_0000_0000_0000_0000_0000_0000_0000,
{
    assert(-0x4_0000_0000_0000_0000_0000_0000_0000 < a * b
        < 0x4_0000_0000_0000_0000_0000_0000_0000) by (nonlinear_arith)
        requires
            -0x200_0000_0000_0000 < a < 0x200_0000_0000_0000,
            -0x200_0000_0000_0000 < b < 0x200_0000_0000_0000,
    ;
    a * b
}

/// Halves two vectors of wide integers together until both are within the planar
/// limit.
fn reduced_pair(n: (i128, i128, i128), x: (i128, i128, i128)) -> (r: (
    (i128, i128, i128),
    (i128, i128, i128),
))
    requires
        i128::MIN < n.0 && i128::MIN < n.1 && i128::MIN < n.2,
        i128::MIN < x.0 && i128::MIN < x.1 && i128::MIN < x.2,
    ensures
        ((r.0.0 as int, r.0.1 as int, r.0.2 as int), (r.1.0 as int, r.1.1 as int, r.1.2 as int))
            == spec_reduced_pair(
            (n.0 as int, n.1 as int, n.2 as int),
            (x.0 as int, x.1 as int, x.2 as int),
        ),
        spec_within_planar_limit((r.0.0 as int, r.0.1 as int, r.0.2 as int)),
        spec_within_planar_limit((r.1.0 as int, r.1.1 as int, r.1.2 as int)),
{
    let mut n1 = n;
    let mut x1 = x;
    while !(within_planar_limit(n1) && within_planar_limit(x1))
        invariant
            i128::MIN < n1.0 && i128::MIN < n1.1 && i128::MIN < n1.2,
            i128::MIN < x1.0 && i128::MIN < x1.1 && i128::MIN < x1.2,
            spec_reduced_pair(
                (n1.0 as int, n1.1 as int, n1.2 as int),
                (x1.0 as int, x1.1 as int, x1.2 as int),
            ) == spec_reduced_pair(
                (n.0 as int, n.1 as int, n.2 as int),
                (x.0 as int, x.1 as int, x.2 as int),
            ),
        decreases
            spec_size(n1.0 as int) + spec_size(n1.1 as int) + spec_size(n1.2 as int) + spec_size(
                x1.0 as int,
            ) + spec_size(x1.1 as int) + spec_size(x1.2 as int),
    {
        n1 = (floor_div_wide(n1.0, 2), floor_div_wide(n1.1, 2), floor_div_wide(n1.2, 2));
        x1 = (floor_div_wide(x1.0, 2), floor_div_wide(x1.1, 2), floor_div_wide(x1.2, 2));
    }
    (n1, x1)
}

/// The dot product of two vectors of wide integers within the planar limit.
fn planar_dot(a: (i128, i128, i128), b: (i128, i128, i128)) -> (p: i128)
    requires
        spec_within_planar_limit((a.0 as int, a.1 as int, a.2 as int)),
        spec_within_planar_limit((b.0 as int, b.1 as int, b.2 as int)),
    ensures
        p == a.0 * b.0 + a.1 * b.1 + a.2 * b.2,
        -RATIO_LIMIT < p < RATIO_LIMIT,
{
    planar_product(a.0, b.0) + planar_product(a.1, b.1) + planar_product(a.2, b.2)
}

/// Computes the coordinate of a vector of the plane along one edge.
fn planar_coordinate(n: (i128, i128, i128), x: (i128, i128, i128)) -> (r: Fixed)
    requires
        i128::MIN < n.0 && i128::MIN < n.1 && i128::MIN < n.2,
        i128::MIN < x.0 && i128::MIN < x.1 && i128::MIN < x.2,
    ensures
        r == spec_planar_coordinate(
            (n.0 as int, n.1 as int, n.2 as int),
            (x.0 as int, x.1 as int, x.2 as int),
        ),
{
    let (n1, x1) = reduced_pair(n, x);
    let a: i128 = planar_dot(n1, x1);
    let b: i128 = planar_dot(n1, n1);
    assert(b >= 0) by (nonlinear_arith)
        requires
            b == n1.0 * n1.0 + n1.1 * n1.1 + n1.2 * n1.2,
    ;
    wide_ratio(a, b)
}

/// The parameter at which a line crosses a plane: with `n` a normal of the plane, `w`
/// the vector from the line's origin to a point of the plane and `d` the line's
/// direction, `(n . w) / (n . d)`, rounded down once. The normal is halved until it
/// is within the planar limit, and so are `w` and `d` together; neither moves the
/// quotient.
pub open spec fn spec_plane_ratio(n: (int, int, int), w: (int, int, int), d: (int, int, int))
    -> Fixed {
    let normal = spec_reduced_pair(n, (0, 0, 0)).0;
    let pair = spec_reduced_pair(w, d);
    spec_wide_quotient(
        (normal.0 * pair.0.0 + normal.1 * pair.0.1 + normal.2 * pair.0.2) * SCALE,
        normal.0 * pair.1.0 + normal.1 * pair.1.1 + normal.2 * pair.1.2,
    )
}

fn plane_ratio(n: (i128, i128, i128), w: (i128, i128, i128), d: (i128, i128, i128)) -> (r: Fixed)
    requires
        i128::MIN < n.0 && i128::MIN < n.1 && i128::MIN < n.2,
        i128::MIN < w.0 && i128::MIN < w.1 && i128::MIN < w.2,
        i128::MIN < d.0 && i128::MIN < d.1 && i128::MIN < d.2,
    ensures
        r == spec_plane_ratio(
            (n.0 as int, n.1 as int, n.2 as int),
            (w.0 as int, w.1 as int, w.2 as int),
            (d.0 as int, d.1 as int, d.2 as int),
        ),
{
    let (normal, _) = reduced_pair(n, (0, 0, 0));
    let (w1, d1) = reduced_pair(w, d);
    let a: i128 = planar_dot(normal, w1);
    let b: i128 = planar_dot(normal, d1);
    if b < 0 {
        assert((-a) * SCALE == -(a * SCALE)) by (nonlinear_arith);
        wide_ratio(-a, -b)
    } else {
        wide_ratio(a, b)
    }
}

/// Whether a planar coordinate falls on the quad, edges included.
pub open spec fn spec_in_unit(c: Fixed) -> bool {
    0 <= c.raw <= SCALE
}

/// The meeting of the ray with the quad at a parameter from `tmin` to `tmax`, both
/// included.
pub open spec fn spec_hit_quad(ray_in: Ray, quad_in: Quad, tmin: Fixed, tmax: Fixed) -> Option<
    HitRecord,
> {
    match spec_plane_parameter(ray_in, quad_in) {
        None => None,
        Some(t) => {
            let ab = spec_planar_coordinates(ray_in, quad_in, t);
            if tmin.raw <= t.raw <= tmax.raw && spec_in_unit(ab.0) && spec_in_unit(ab.1) {
                Some(HitRecord::spec_new(ray_in, quad_in.normal, t, quad_in.material, ab.0, ab.1))
            } else {
                None
            }
        },
    }
}

/// Intersects a ray with a quad. The bounds are inclusive, unlike a sphere's.
pub fn hit_quad(ray_in: &Ray, quad_in: &Quad, tmin: Fixed, tmax: Fixed) -> (r: Option<HitRecord>)
    ensures
        r == spec_hit_quad(*ray_in, *quad_in, tmin, tmax),
        r matches Some(rec) ==> tmin.raw <= rec.t.raw <= tmax.raw && rec.material
            == quad_in.material && spec_in_unit(rec.u) && spec_in_unit(rec.v),
{
    let denom = Vector3::dot_product(&quad_in.normal, &ray_in.direction);
    if denom.abs().raw < PARALLEL {
        return None;
    }
    let n = cross_raw(&quad_in.u, &quad_in.v);
    let t = plane_ratio(
        n,
        (
            quad_in.q.x.raw as i128 - ray_in.origin.x.raw as i128,
            quad_in.q.y.raw as i128 - ray_in.origin.y.raw as i128,
            quad_in.q.z.raw as i128 - ray_in.origin.z.raw as i128,
        ),
        (
            ray_in.direction.x.raw as i128,
            ray_in.direction.y.raw as i128,
            ray_in.direction.z.raw as i128,
        ),
    );
    if t.raw > tmax.raw || t.raw < tmin.raw {
        return None;
    }
    let intersection = at(ray_in, t);
    let planar_hitpt_vector = intersection.sub(quad_in.q);
    let alpha = planar_coordinate(n, cross_raw(&planar_hitpt_vector, &quad_in.v));
    let beta = planar_coordinate(n, cross_raw(&quad_in.u, &planar_hitpt_vector));
    if alpha.raw < 0 || alpha.raw > SCALE || beta.raw < 0 || beta.raw > SCALE {
        return None;
    }
    Some(HitRecord::new(ray_in, quad_in.normal, t, quad_in.material, alpha, beta))
}

/// How the result depends on the upper bound: a hit found up to a bound `c` is also
/// found, unchanged, up to any larger bound `tmax`; a hit found up to `tmax` whose
/// parameter is below `c` is also found up to `c`; and a hit lies between the bounds.
pub proof fn lemma_hit_quad_range(ray_in: Ray, quad_in: Quad, tmin: Fixed, c: Fixed, tmax: Fixed)
    requires
        c.raw <= tmax.raw,
    ensures
        spec_hit_quad(ray_in, quad_in, tmin, c) matches Some(h) ==> tmin.raw <= h.t.raw <= c.raw
            && spec_hit_quad(ray_in, quad_in, tmin, tmax) == Some(h),
        spec_hit_quad(ray_in, quad_in, tmin, tmax) matches Some(g) ==> (g.t.raw < c.raw
            ==> spec_hit_quad(ray_in, quad_in, tmin, c) == Some(g)),
{
}

impl crate::hittable::Hittable for Quad {
    open spec fn outcome(&self, r: Ray, ray_tmin: Fixed, ray_tmax: Fixed) -> Option<HitRecord> {
        spec_hit_quad(r, *self, ray_tmin, ray_tmax)
    }

    fn hit(&self, r: &Ray, ray_tmin: Fixed, ray_tmax: Fixed, rec: &mut HitRecord) -> (found: bool) {
        match hit_quad(r, self, ray_tmin, ray_tmax) {
            Some(record) => {
                *rec = record;
                true
            },
            None => false,
        }
    }
}

} // verus!
