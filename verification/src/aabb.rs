//! Axis-aligned bounding boxes and the slab test.
use vstd::prelude::*;
use crate::ray::Ray;
use crate::scalar::{
    floor_div_wide, lemma_floor_div_compare, lemma_floor_div_monotone, Fixed, SCALE,
};
use crate::vector::Vector3;

verus! {

/// The least extent of a box along any axis, in raw units: one ten-thousandth.
pub const MIN_EXTENT: i64 = 100_000;

/// A box given by its lower and upper bound on each axis.
#[derive(Clone, Copy, Debug, PartialEq, Eq, Structural)]
pub struct Aabb {
    pub x0: Fixed,
    pub x1: Fixed,
    pub y0: Fixed,
    pub y1: Fixed,
    pub z0: Fixed,
    pub z1: Fixed,
}

/// An interval widened by `delta` in all, half at each end.
pub open spec fn spec_expand(min: Fixed, max: Fixed, delta: Fixed) -> (Fixed, Fixed) {
    let padding = Fixed { raw: (delta.raw as int / 2) as i64 };
    (min.spec_sub(padding), max.spec_add(padding))
}

/// An interval that is widened when it is narrower than the least extent.
pub open spec fn spec_pad_axis(min: Fixed, max: Fixed) -> (Fixed, Fixed) {
    if max.spec_sub(min).raw < MIN_EXTENT {
        spec_expand(min, max, Fixed { raw: MIN_EXTENT })
    } else {
        (min, max)
    }
}

/// Whether padding an interval at `v` cannot run into an end of the number range.
pub open spec fn paddable(v: Fixed) -> bool {
    i64::MIN + MIN_EXTENT / 2 <= v.raw <= i64::MAX - MIN_EXTENT / 2
}

impl Aabb {
    /// Lower bounds do not exceed upper bounds.
    pub open spec fn ordered(self) -> bool {
        &&& self.x0.raw <= self.x1.raw
        &&& self.y0.raw <= self.y1.raw
        &&& self.z0.raw <= self.z1.raw
    }

    /// The box is ordered and at least [`MIN_EXTENT`] wide along every axis.
    pub open spec fn well_formed(self) -> bool {
        &&& self.x1.raw - self.x0.raw >= MIN_EXTENT
        &&& self.y1.raw - self.y0.raw >= MIN_EXTENT
        &&& self.z1.raw - self.z0.raw >= MIN_EXTENT
    }

    /// Each axis padded on its own.
    pub open spec fn spec_pad(self) -> Aabb {
        let x = spec_pad_axis(self.x0, self.x1);
        let y = spec_pad_axis(self.y0, self.y1);
        let z = spec_pad_axis(self.z0, self.z1);
        Aabb { x0: x.0, x1: x.1, y0: y.0, y1: y.1, z0: z.0, z1: z.1 }
    }

    /// The padded box spanned by two corner points, given in any order.
    pub open spec fn spec_new(a: Vector3, b: Vector3) -> Aabb {
        (Aabb {
            x0: a.x.spec_min(b.x),
            x1: a.x.spec_max(b.x),
            y0: a.y.spec_min(b.y),
            y1: a.y.spec_max(b.y),
            z0: a.z.spec_min(b.z),
            z1: a.z.spec_max(b.z),
        }).spec_pad()
    }

    /// The padded union of two boxes.
    pub open spec fn spec_from_boxes(a: Aabb, b: Aabb) -> Aabb {
        (Aabb {
            x0: a.x0.spec_min(b.x0),
            x1: a.x1.spec_max(b.x1),
            y0: a.y0.spec_min(b.y0),
            y1: a.y1.spec_max(b.y1),
            z0: a.z0.spec_min(b.z0),
            z1: a.z1.spec_max(b.z1),
        }).spec_pad()
    }

    /// Whether `inner` lies within this box.
    pub open spec fn encloses(self, inner: Aabb) -> bool {
        &&& self.x0.raw <= inner.x0.raw && inner.x1.raw <= self.x1.raw
        &&& self.y0.raw <= inner.y0.raw && inner.y1.raw <= self.y1.raw
        &&& self.z0.raw <= inner.z0.raw && inner.z1.raw <= self.z1.raw
    }

    /// Whether the point lies within this box, faces included.
    pub open spec fn contains_point(self, p: Vector3) -> bool {
        &&& self.x0.raw <= p.x.raw <= self.x1.raw
        &&& self.y0.raw <= p.y.raw <= self.y1.raw
        &&& self.z0.raw <= p.z.raw <= self.z1.raw
    }

    /// The box with corners `a` and `b`. No side of the result is narrower than
    /// [`MIN_EXTENT`], unless a corner sits within half of it of an end of the number range.
    pub fn new(a: Vector3, b: Vector3) -> (r: Aabb)
        ensures
            r == Self::spec_new(a, b),
            r.ordered(),
            r.contains_point(a),
            r.contains_point(b),
            paddable(a.x) && paddable(a.y) && paddable(a.z) && paddable(b.x) && paddable(b.y)
                && paddable(b.z) ==> r.well_formed(),
    {
        let (x0, x1) = if a.x.raw <= b.x.raw { (a.x, b.x) } else { (b.x, a.x) };
        let (y0, y1) = if a.y.raw <= b.y.raw { (a.y, b.y) } else { (b.y, a.y) };
        let (z0, z1) = if a.z.raw <= b.z.raw { (a.z, b.z) } else { (b.z, a.z) };
        let mut result = Aabb { x0, x1, y0, y1, z0, z1 };
        result.pad();
        result
    }

    /// The smallest box around `a` and `b`, padded like a new one.
    pub fn from_boxes(a: &Aabb, b: &Aabb) -> (r: Aabb)
        ensures
            r == Self::spec_from_boxes(*a, *b),
            a.ordered() || b.ordered() ==> r.ordered(),
            r.encloses(*a),
            r.encloses(*b),
            a.well_formed() || b.well_formed() ==> r.well_formed(),
    {
        let x0 = if a.x0.raw <= b.x0.raw { a.x0 } else { b.x0 };
        let x1 = if a.x1.raw >= b.x1.raw { a.x1 } else { b.x1 };
        let y0 = if a.y0.raw <= b.y0.raw { a.y0 } else { b.y0 };
        let y1 = if a.y1.raw >= b.y1.raw { a.y1 } else { b.y1 };
        let z0 = if a.z0.raw <= b.z0.raw { a.z0 } else { b.z0 };
        let z1 = if a.z1.raw >= b.z1.raw { a.z1 } else { b.z1 };
        let mut result = Aabb { x0, x1, y0, y1, z0, z1 };
        result.pad();
        result
    }

    fn expand(min: Fixed, max: Fixed, delta: Fixed) -> (r: (Fixed, Fixed))
        ensures
            r == spec_expand(min, max, delta),
    {
        let padding = Fixed { raw: floor_div_wide(delta.raw as i128, 2) as i64 };
        (min.sub(padding), max.add(padding))
    }

    /// Widens every side that is narrower than [`MIN_EXTENT`] by that amount.
    fn pad(&mut self)
        ensures
            *final(self) == old(self).spec_pad(),
    {
        let epsilon = Fixed { raw: MIN_EXTENT };
        if self.x1.sub(self.x0).raw < epsilon.raw {
            let (lo, hi) = Self::expand(self.x0, self.x1, epsilon);
            self.x0 = lo;
            self.x1 = hi;
        }
        if self.y1.sub(self.y0).raw < epsilon.raw {
            let (lo, hi) = Self::expand(self.y0, self.y1, epsilon);
            self.y0 = lo;
            self.y1 = hi;
        }
        if self.z1.sub(self.z0).raw < epsilon.raw {
            let (lo, hi) = Self::expand(self.z0, self.z1, epsilon);
            self.z0 = lo;
            self.z1 = hi;
        }
    }
}

/// The parameters at which a ray's coordinate `origin + t * direction` crosses the two
/// planes of a slab, smaller first. A coordinate that does not move never crosses: the
/// interval is then the whole range when the origin lies strictly between the planes,
/// and empty or a single end of the range otherwise.
pub open spec fn spec_slab(axis_min: Fixed, axis_max: Fixed, origin: Fixed, direction: Fixed) -> (
    Fixed,
    Fixed,
) {
    let t0 = Fixed::spec_div_diff(axis_min, origin, direction);
    let t1 = Fixed::spec_div_diff(axis_max, origin, direction);
    (t0.spec_min(t1), t0.spec_max(t1))
}

fn slab(axis_min: Fixed, axis_max: Fixed, origin: Fixed, direction: Fixed) -> (r: (Fixed, Fixed))
    ensures
        r == spec_slab(axis_min, axis_max, origin, direction),
{
    let t0 = Fixed::div_diff(axis_min, origin, direction);
    let t1 = Fixed::div_diff(axis_max, origin, direction);
    if t0.raw < t1.raw {
        (t0, t1)
    } else {
        (t1, t0)
    }
}

/// The parameter at which the ray has entered all three slabs, but not before `tmin`.
pub open spec fn spec_entry(b: Aabb, r: Ray, tmin: Fixed) -> Fixed {
    tmin.spec_max(spec_slab(b.x0, b.x1, r.origin.x, r.direction.x).0).spec_max(
        spec_slab(b.y0, b.y1, r.origin.y, r.direction.y).0,
    ).spec_max(spec_slab(b.z0, b.z1, r.origin.z, r.direction.z).0)
}

/// The parameter at which the ray leaves the first of the three slabs, but not after `tmax`.
pub open spec fn spec_exit(b: Aabb, r: Ray, tmax: Fixed) -> Fixed {
    tmax.spec_min(spec_slab(b.x0, b.x1, r.origin.x, r.direction.x).1).spec_min(
        spec_slab(b.y0, b.y1, r.origin.y, r.direction.y).1,
    ).spec_min(spec_slab(b.z0, b.z1, r.origin.z, r.direction.z).1)
}

/// The slab test: the ray is inside all three slabs at once over a stretch of
/// parameters of positive length within `(tmin, tmax)`.
#[verifier::opaque]
pub open spec fn spec_hit_aabb(b: Aabb, r: Ray, tmin: Fixed, tmax: Fixed) -> bool {
    spec_entry(b, r, tmin).raw < spec_exit(b, r, tmax).raw
}

/// Whether the ray meets the box for some parameter between `tmin` and `tmax`.
pub fn hit_aabb(bounding_box: &Aabb, r: &Ray, tmin: Fixed, tmax: Fixed) -> (hit: bool)
    ensures
        hit == spec_hit_aabb(*bounding_box, *r, tmin, tmax),
{
    reveal(spec_hit_aabb);
    let mut tmin = tmin;
    let mut tmax = tmax;

    let (lo, hi) = slab(bounding_box.x0, bounding_box.x1, r.origin.x, r.direction.x);
    tmin = tmin.max(lo);
    tmax = tmax.min(hi);
    if tmax.raw <= tmin.raw {
        return false;
    }
    let (lo, hi) = slab(bounding_box.y0, bounding_box.y1, r.origin.y, r.direction.y);
    tmin = tmin.max(lo);
    tmax = tmax.min(hi);
    if tmax.raw <= tmin.raw {
        return false;
    }
    let (lo, hi) = slab(bounding_box.z0, bounding_box.z1, r.origin.z, r.direction.z);
    tmin = tmin.max(lo);
    tmax = tmax.min(hi);
    if tmax.raw <= tmin.raw {
        return false;
    }
    true
}

/// The exact coordinate of a ray at parameter `t`, in units of one over `SCALE` squared.
pub open spec fn position_scaled(origin: Fixed, direction: Fixed, t: Fixed) -> int {
    origin.raw * SCALE + direction.raw * t.raw
}

/// Whether the ray's exact coordinate at `t` lies strictly between the planes of a slab.
pub open spec fn strictly_within(
    axis_min: Fixed,
    axis_max: Fixed,
    origin: Fixed,
    direction: Fixed,
    t: Fixed,
) -> bool {
    axis_min.raw * SCALE < position_scaled(origin, direction, t) < axis_max.raw * SCALE
}

/// Whether the ray's exact coordinate lies on one outer side of a slab both at `tmin`
/// and at `tmax`, and so everywhere between them.
pub open spec fn stays_outside(
    axis_min: Fixed,
    axis_max: Fixed,
    origin: Fixed,
    direction: Fixed,
    tmin: Fixed,
    tmax: Fixed,
) -> bool {
    ||| (position_scaled(origin, direction, tmin) < axis_min.raw * SCALE && position_scaled(
        origin,
        direction,
        tmax,
    ) < axis_min.raw * SCALE)
    ||| (position_scaled(origin, direction, tmin) > axis_max.raw * SCALE && position_scaled(
        origin,
        direction,
        tmax,
    ) > axis_max.raw * SCALE)
}

/// A parameter at which the coordinate is strictly inside the slab lies in the slab's
/// parameter interval, above its lower end.
pub proof fn lemma_slab_contains(
    axis_min: Fixed,
    axis_max: Fixed,
    origin: Fixed,
    direction: Fixed,
    t: Fixed,
)
    requires
        strictly_within(axis_min, axis_max, origin, direction, t),
        t.raw > i64::MIN,
    ensures
        spec_slab(axis_min, axis_max, origin, direction).0.raw < t.raw,
        t.raw <= spec_slab(axis_min, axis_max, origin, direction).1.raw,
{
    let d = direction.raw as int;
    let a = (axis_min.raw - origin.raw) * SCALE;
    let b = (axis_max.raw - origin.raw) * SCALE;
    assert(a < d * t.raw < b) by (nonlinear_arith)
        requires
            axis_min.raw * SCALE < origin.raw * SCALE + direction.raw * t.raw,
            origin.raw * SCALE + direction.raw * t.raw < axis_max.raw * SCALE,
            a == (axis_min.raw - origin.raw) * SCALE,
            b == (axis_max.raw - origin.raw) * SCALE,
            d == direction.raw,
    ;
    if d == 0 {
        assert(d * t.raw == 0) by (nonlinear_arith)
            requires
                d == 0,
        ;
        assert(axis_min.raw - origin.raw < 0 && axis_max.raw - origin.raw > 0) by (nonlinear_arith)
            requires
                a < 0,
                b > 0,
                a == (axis_min.raw - origin.raw) * SCALE,
                b == (axis_max.raw - origin.raw) * SCALE,
                SCALE == 1_000_000_000,
        ;
    } else {
        lemma_floor_div_compare(a, d, t.raw as int);
        lemma_floor_div_compare(b, d, t.raw as int);
    }
}

/// When the coordinate stays on one outer side of a slab from `tmin` to `tmax`, the
/// slab's parameter interval begins at or after `tmax` or ends at or before `tmin`.
pub proof fn lemma_slab_excludes(
    axis_min: Fixed,
    axis_max: Fixed,
    origin: Fixed,
    direction: Fixed,
    tmin: Fixed,
    tmax: Fixed,
)
    requires
        axis_min.raw <= axis_max.raw,
        stays_outside(axis_min, axis_max, origin, direction, tmin, tmax),
    ensures
        spec_slab(axis_min, axis_max, origin, direction).0.raw >= tmax.raw || spec_slab(
            axis_min,
            axis_max,
            origin,
            direction,
        ).1.raw <= tmin.raw,
{
    let d = direction.raw as int;
    let a = (axis_min.raw - origin.raw) * SCALE;
    let b = (axis_max.raw - origin.raw) * SCALE;
    let below = position_scaled(origin, direction, tmin) < axis_min.raw * SCALE && position_scaled(
        origin,
        direction,
        tmax,
    ) < axis_min.raw * SCALE;
    assert(a <= b) by (nonlinear_arith)
        requires
            axis_min.raw <= axis_max.raw,
            a == (axis_min.raw - origin.raw) * SCALE,
            b == (axis_max.raw - origin.raw) * SCALE,
            SCALE == 1_000_000_000,
    ;
    assert(a == axis_min.raw * SCALE - origin.raw * SCALE) by (nonlinear_arith)
        requires
            a == (axis_min.raw - origin.raw) * SCALE,
    ;
    assert(b == axis_max.raw * SCALE - origin.raw * SCALE) by (nonlinear_arith)
        requires
            b == (axis_max.raw - origin.raw) * SCALE,
    ;
    if d == 0 {
        assert(d * tmin.raw == 0 && d * tmax.raw == 0) by (nonlinear_arith)
            requires
                d == 0,
        ;
        if below {
            assert(axis_min.raw - origin.raw > 0) by (nonlinear_arith)
                requires
                    a > 0,
                    a == (axis_min.raw - origin.raw) * SCALE,
                    SCALE == 1_000_000_000,
            ;
        } else {
            assert(axis_max.raw - origin.raw < 0) by (nonlinear_arith)
                requires
                    b < 0,
                    b == (axis_max.raw - origin.raw) * SCALE,
                    SCALE == 1_000_000_000,
            ;
        }
    } else {
        lemma_floor_div_monotone(a, b, d);
        lemma_floor_div_compare(a, d, tmin.raw as int);
        lemma_floor_div_compare(a, d, tmax.raw as int);
        lemma_floor_div_compare(b, d, tmin.raw as int);
        lemma_floor_div_compare(b, d, tmax.raw as int);
    }
}

/// Whether the ray's exact point at `t` lies strictly inside the box.
pub open spec fn strictly_inside(b: Aabb, r: Ray, t: Fixed) -> bool {
    &&& strictly_within(b.x0, b.x1, r.origin.x, r.direction.x, t)
    &&& strictly_within(b.y0, b.y1, r.origin.y, r.direction.y, t)
    &&& strictly_within(b.z0, b.z1, r.origin.z, r.direction.z, t)
}

/// A point strictly inside a box is strictly inside every box that encloses it.
pub proof fn lemma_strictly_inside_enclosing(outer: Aabb, inner: Aabb, r: Ray, t: Fixed)
    requires
        outer.encloses(inner),
        strictly_inside(inner, r, t),
    ensures
        strictly_inside(outer, r, t),
{
    assert(forall|a: int, b: int| a <= b ==> #[trigger] (a * SCALE) <= #[trigger] (b * SCALE))
        by (nonlinear_arith)
        requires
            SCALE == 1_000_000_000,
    ;
}

/// A ray that is strictly inside the box at some parameter between `tmin` and `tmax`
/// passes the slab test.
pub proof fn lemma_hit_aabb_through_interior(b: Aabb, r: Ray, tmin: Fixed, tmax: Fixed, t: Fixed)
    requires
        tmin.raw < t.raw < tmax.raw,
        strictly_inside(b, r, t),
    ensures
        spec_hit_aabb(b, r, tmin, tmax),
{
    reveal(spec_hit_aabb);
    lemma_slab_contains(b.x0, b.x1, r.origin.x, r.direction.x, t);
    lemma_slab_contains(b.y0, b.y1, r.origin.y, r.direction.y, t);
    lemma_slab_contains(b.z0, b.z1, r.origin.z, r.direction.z, t);
}

/// A ray that stays on one outer side of the box along some axis, from `tmin` to
/// `tmax`, fails the slab test. A ray parallel to a face and outside its slab is the
/// case of a zero direction component.
pub proof fn lemma_hit_aabb_separated(b: Aabb, r: Ray, tmin: Fixed, tmax: Fixed)
    requires
        b.ordered(),
        stays_outside(b.x0, b.x1, r.origin.x, r.direction.x, tmin, tmax) || stays_outside(
            b.y0,
            b.y1,
            r.origin.y,
            r.direction.y,
            tmin,
            tmax,
        ) || stays_outside(b.z0, b.z1, r.origin.z, r.direction.z, tmin, tmax),
    ensures
        !spec_hit_aabb(b, r, tmin, tmax),
{
    reveal(spec_hit_aabb);
    if stays_outside(b.x0, b.x1, r.origin.x, r.direction.x, tmin, tmax) {
        lemma_slab_excludes(b.x0, b.x1, r.origin.x, r.direction.x, tmin, tmax);
    } else if stays_outside(b.y0, b.y1, r.origin.y, r.direction.y, tmin, tmax) {
        lemma_slab_excludes(b.y0, b.y1, r.origin.y, r.direction.y, tmin, tmax);
    } else {
        lemma_slab_excludes(b.z0, b.z1, r.origin.z, r.direction.z, tmin, tmax);
    }
}

/// Merging does not depend on the order of the two boxes.
pub proof fn lemma_from_boxes_commutative(a: Aabb, b: Aabb)
    ensures
        Aabb::spec_from_boxes(a, b) == Aabb::spec_from_boxes(b, a),
{
}

/// Merging three well-formed boxes gives the same box however they are grouped.
pub proof fn lemma_from_boxes_associative(a: Aabb, b: Aabb, c: Aabb)
    requires
        a.well_formed(),
        b.well_formed(),
        c.well_formed(),
    ensures
        Aabb::spec_from_boxes(Aabb::spec_from_boxes(a, b), c) == Aabb::spec_from_boxes(
            a,
            Aabb::spec_from_boxes(b, c),
        ),
{
}

/// Merging a box into a well-formed box that already encloses it changes nothing.
pub proof fn lemma_from_boxes_absorbs(a: Aabb, b: Aabb)
    requires
        b.well_formed(),
        b.encloses(a),
    ensures
        Aabb::spec_from_boxes(a, b) == b,
        Aabb::spec_from_boxes(b, a) == b,
{
}

/// Every box made from corner points, or by merging boxes one of which is well
/// formed, is well formed unless padding runs into an end of the number range.
pub proof fn lemma_constructed_boxes_well_formed(p: Vector3, q: Vector3, a: Aabb, b: Aabb)
    ensures
        paddable(p.x) && paddable(p.y) && paddable(p.z) && paddable(q.x) && paddable(q.y)
            && paddable(q.z) ==> Aabb::spec_new(p, q).well_formed(),
        Aabb::spec_new(p, q).ordered(),
        a.well_formed() || b.well_formed() ==> Aabb::spec_from_boxes(a, b).well_formed(),
{
}

} // verus!
