//! Three-component vectors for points, directions and colours.
use vstd::prelude::*;
use crate::scalar::{
    clamp, is_isqrt, isqrt, isqrt_full, lemma_floor_div_compare, lemma_isqrt_exists, lemma_isqrt_unique,
    scaled_sum, spec_wide_quotient, wide_ok, wide_product, wide_quotient, Fixed, SCALE,
};

verus! {

/// A triple of fixed-point components.
#[derive(Clone, Copy, Debug, PartialEq, Eq, Structural)]
pub struct Vector3 {
    pub x: Fixed,
    pub y: Fixed,
    pub z: Fixed,
}

/// Colours are vectors whose components are the red, green and blue channels.
pub type Color = Vector3;

/// The cross product `a x b`: each component is the exact difference of two products,
/// rounded down once and saturated.
pub open spec fn spec_cross_product(a: Vector3, b: Vector3) -> Vector3 {
    Vector3 {
        x: Fixed { raw: clamp((a.y.raw * b.z.raw - a.z.raw * b.y.raw) / (SCALE as int)) as i64 },
        y: Fixed { raw: clamp((a.z.raw * b.x.raw - a.x.raw * b.z.raw) / (SCALE as int)) as i64 },
        z: Fixed { raw: clamp((a.x.raw * b.y.raw - a.y.raw * b.x.raw) / (SCALE as int)) as i64 },
    }
}

pub fn calc_cross_product(a: &Vector3, b: &Vector3) -> (r: Vector3)
    ensures
        r == spec_cross_product(*a, *b),
{
    Vector3 {
        x: scaled_sum(wide_product(a.y.raw, b.z.raw), -wide_product(a.z.raw, b.y.raw), 0),
        y: scaled_sum(wide_product(a.z.raw, b.x.raw), -wide_product(a.x.raw, b.z.raw), 0),
        z: scaled_sum(wide_product(a.x.raw, b.y.raw), -wide_product(a.y.raw, b.x.raw), 0),
    }
}

/// The exact cross product of the raw components, in units of one over `SCALE`
/// squared.
pub open spec fn spec_cross_raw(a: Vector3, b: Vector3) -> (int, int, int) {
    (
        a.y.raw * b.z.raw - a.z.raw * b.y.raw,
        a.z.raw * b.x.raw - a.x.raw * b.z.raw,
        a.x.raw * b.y.raw - a.y.raw * b.x.raw,
    )
}

pub fn cross_raw(a: &Vector3, b: &Vector3) -> (r: (i128, i128, i128))
    ensures
        (r.0 as int, r.1 as int, r.2 as int) == spec_cross_raw(*a, *b),
        i128::MIN < r.0 && i128::MIN < r.1 && i128::MIN < r.2,
{
    (
        wide_product(a.y.raw, b.z.raw) - wide_product(a.z.raw, b.y.raw),
        wide_product(a.z.raw, b.x.raw) - wide_product(a.x.raw, b.z.raw),
        wide_product(a.x.raw, b.y.raw) - wide_product(a.y.raw, b.x.raw),
    )
}

impl Vector3 {
    pub fn new(x: Fixed, y: Fixed, z: Fixed) -> (r: Vector3)
        ensures
            r == (Vector3 { x, y, z }),
    {
        Vector3 { x, y, z }
    }

    /// The vector with all components zero.
    pub open spec fn spec_zero() -> Vector3 {
        Vector3 { x: Fixed { raw: 0 }, y: Fixed { raw: 0 }, z: Fixed { raw: 0 } }
    }

    pub fn zero() -> (r: Vector3)
        ensures
            r == Self::spec_zero(),
    {
        Vector3 { x: Fixed { raw: 0 }, y: Fixed { raw: 0 }, z: Fixed { raw: 0 } }
    }

    /// Componentwise sum.
    pub open spec fn spec_add(self, rhs: Vector3) -> Vector3 {
        Vector3 { x: self.x.spec_add(rhs.x), y: self.y.spec_add(rhs.y), z: self.z.spec_add(rhs.z) }
    }

    pub fn add(self, rhs: Vector3) -> (r: Vector3)
        ensures
            r == self.spec_add(rhs),
    {
        Vector3 { x: self.x.add(rhs.x), y: self.y.add(rhs.y), z: self.z.add(rhs.z) }
    }

    /// Componentwise difference.
    pub open spec fn spec_sub(self, rhs: Vector3) -> Vector3 {
        Vector3 { x: self.x.spec_sub(rhs.x), y: self.y.spec_sub(rhs.y), z: self.z.spec_sub(rhs.z) }
    }

    pub fn sub(self, rhs: Vector3) -> (r: Vector3)
        ensures
            r == self.spec_sub(rhs),
    {
        Vector3 { x: self.x.sub(rhs.x), y: self.y.sub(rhs.y), z: self.z.sub(rhs.z) }
    }

    /// The opposite vector.
    pub open spec fn spec_neg(self) -> Vector3 {
        Vector3 { x: self.x.spec_neg(), y: self.y.spec_neg(), z: self.z.spec_neg() }
    }

    pub fn neg(self) -> (r: Vector3)
        ensures
            r == self.spec_neg(),
    {
        Vector3 { x: self.x.neg(), y: self.y.neg(), z: self.z.neg() }
    }

    /// Every component multiplied by `k`.
    pub open spec fn spec_scale(self, k: Fixed) -> Vector3 {
        Vector3 { x: k.spec_mul(self.x), y: k.spec_mul(self.y), z: k.spec_mul(self.z) }
    }

    pub fn scale(self, k: Fixed) -> (r: Vector3)
        ensures
            r == self.spec_scale(k),
    {
        Vector3 { x: k.mul(self.x), y: k.mul(self.y), z: k.mul(self.z) }
    }

    /// Every component divided by `k`.
    pub open spec fn spec_unscale(self, k: Fixed) -> Vector3 {
        Vector3 { x: self.x.spec_div(k), y: self.y.spec_div(k), z: self.z.spec_div(k) }
    }

    pub fn unscale(self, k: Fixed) -> (r: Vector3)
        ensures
            r == self.spec_unscale(k),
    {
        Vector3 { x: self.x.div(k), y: self.y.div(k), z: self.z.div(k) }
    }

    /// Componentwise product, used to attenuate one colour by another.
    pub open spec fn spec_hadamard(self, rhs: Vector3) -> Vector3 {
        Vector3 { x: self.x.spec_mul(rhs.x), y: self.y.spec_mul(rhs.y), z: self.z.spec_mul(rhs.z) }
    }

    pub fn hadamard(self, rhs: Vector3) -> (r: Vector3)
        ensures
            r == self.spec_hadamard(rhs),
    {
        Vector3 { x: self.x.mul(rhs.x), y: self.y.mul(rhs.y), z: self.z.mul(rhs.z) }
    }

    /// The exact dot product of the raw components, in units of one over `SCALE`
    /// squared.
    pub open spec fn spec_dot_raw(a: Vector3, b: Vector3) -> int {
        a.x.raw * b.x.raw + a.y.raw * b.y.raw + a.z.raw * b.z.raw
    }

    /// The dot product `a . b`: the exact sum of the three products, rounded down once
    /// and saturated.
    pub open spec fn spec_dot_product(a: Vector3, b: Vector3) -> Fixed {
        Fixed { raw: clamp(Self::spec_dot_raw(a, b) / (SCALE as int)) as i64 }
    }

    pub fn dot_product(a: &Vector3, b: &Vector3) -> (r: Fixed)
        ensures
            r == Self::spec_dot_product(*a, *b),
    {
        scaled_sum(
            wide_product(a.x.raw, b.x.raw),
            wide_product(a.y.raw, b.y.raw),
            wide_product(a.z.raw, b.z.raw),
        )
    }

    /// The exact sum of the squares of the raw components.
    pub open spec fn spec_sum_squares(self) -> int {
        self.x.raw * self.x.raw + self.y.raw * self.y.raw + self.z.raw * self.z.raw
    }

    /// The exact sum of the squares of the raw components.
    pub fn sum_squares(&self) -> (r: u128)
        ensures
            r == self.spec_sum_squares(),
    {
        let x: i128 = wide_product(self.x.raw, self.x.raw);
        let y: i128 = wide_product(self.y.raw, self.y.raw);
        let z: i128 = wide_product(self.z.raw, self.z.raw);
        assert(x >= 0 && y >= 0 && z >= 0) by (nonlinear_arith)
            requires
                x == self.x.raw * self.x.raw,
                y == self.y.raw * self.y.raw,
                z == self.z.raw * self.z.raw,
        ;
        x as u128 + y as u128 + z as u128
    }

    /// The squared length: the exact sum of squares, rounded down once and saturated.
    pub open spec fn spec_magnitude_squared(self) -> Fixed {
        Self::spec_dot_product(self, self)
    }

    pub fn magnitude_squared(&self) -> (r: Fixed)
        ensures
            r == self.spec_magnitude_squared(),
            r.raw >= 0,
    {
        assert(Self::spec_dot_raw(*self, *self) >= 0) by (nonlinear_arith);
        Self::dot_product(self, self)
    }

    /// The length in raw units: the integer square root of the exact sum of squares.
    pub open spec fn spec_length_raw(self) -> int {
        isqrt(self.spec_sum_squares())
    }

    /// The length, saturated: with `r` the raw length, `r * r` is not above the exact
    /// sum of squares and `(r + 1) * (r + 1)` is.
    pub open spec fn spec_magnitude(self) -> Fixed {
        Fixed { raw: clamp(self.spec_length_raw()) as i64 }
    }

    pub fn magnitude(&self) -> (r: Fixed)
        ensures
            r == self.spec_magnitude(),
            r.raw >= 0,
            r.raw < i64::MAX ==> r.raw * r.raw <= self.spec_sum_squares() < (r.raw + 1) * (r.raw
                + 1),
            r.raw == 0 <==> *self == Self::spec_zero(),
    {
        let root: u128 = isqrt_full(self.sum_squares());
        proof {
            lemma_zero_length(*self);
        }
        if root > i64::MAX as u128 {
            Fixed { raw: i64::MAX }
        } else {
            Fixed { raw: root as i64 }
        }
    }

    /// The vector divided by its length. So that short vectors lose nothing, the
    /// vector is first doubled as often as [`spec_widened`] says; each component of
    /// the result is the doubled component times `SCALE` over the integer length of
    /// the doubled vector, rounded down. Every component lies between minus one and
    /// one, and the zero vector stays zero.
    pub open spec fn spec_normalized(self) -> Vector3 {
        let wide = spec_widened(self.spec_sum_squares(), 1);
        let m = isqrt(wide.0);
        Vector3 {
            x: spec_wide_quotient(self.x.raw * wide.1 * SCALE, m),
            y: spec_wide_quotient(self.y.raw * wide.1 * SCALE, m),
            z: spec_wide_quotient(self.z.raw * wide.1 * SCALE, m),
        }
    }

    pub fn calc_normalized_vector(v: &Vector3) -> (r: Vector3)
        ensures
            r == v.spec_normalized(),
            -SCALE <= r.x.raw <= SCALE,
            -SCALE <= r.y.raw <= SCALE,
            -SCALE <= r.z.raw <= SCALE,
    {
        let squares: u128 = v.sum_squares();
        let (wide, factor) = widened(squares);
        let m: i128 = isqrt_full(wide) as i128;
        proof {
            lemma_normalized_in_unit(*v);
            lemma_widened(squares as int, 1, squares as int);
            assert(v.x.raw * v.x.raw <= squares && v.y.raw * v.y.raw <= squares && v.z.raw
                * v.z.raw <= squares) by (nonlinear_arith)
                requires
                    squares == v.x.raw * v.x.raw + v.y.raw * v.y.raw + v.z.raw * v.z.raw,
            ;
            lemma_component_fits(v.x.raw as int, factor as int, squares as int, wide as int);
            lemma_component_fits(v.y.raw as int, factor as int, squares as int, wide as int);
            lemma_component_fits(v.z.raw as int, factor as int, squares as int, wide as int);
        }
        Vector3 {
            x: wide_quotient((v.x.raw as i128) * factor * (SCALE as i128), m),
            y: wide_quotient((v.y.raw as i128) * factor * (SCALE as i128), m),
            z: wide_quotient((v.z.raw as i128) * factor * (SCALE as i128), m),
        }
    }

    /// Replaces the vector by its normalised form.
    pub fn normalize(&mut self)
        ensures
            *final(self) == old(self).spec_normalized(),
    {
        let n: Vector3 = Self::calc_normalized_vector(self);
        *self = n;
    }
}

/// Only the zero vector has the length zero.
pub proof fn lemma_zero_length(v: Vector3)
    ensures
        v.spec_length_raw() >= 0,
        v.spec_length_raw() == 0 <==> v == Vector3::spec_zero(),
        v.spec_length_raw() * v.spec_length_raw() <= v.spec_sum_squares() < (v.spec_length_raw()
            + 1) * (v.spec_length_raw() + 1),
{
    let n = v.spec_sum_squares();
    assert(n >= 0) by (nonlinear_arith)
        requires
            n == v.x.raw * v.x.raw + v.y.raw * v.y.raw + v.z.raw * v.z.raw,
    ;
    lemma_isqrt_exists(n);
    let r = isqrt(n);
    if v == Vector3::spec_zero() {
        assert(n == 0);
        lemma_isqrt_unique(0, 0);
    } else {
        assert(n >= 1) by (nonlinear_arith)
            requires
                n == v.x.raw * v.x.raw + v.y.raw * v.y.raw + v.z.raw * v.z.raw,
                v.x.raw != 0 || v.y.raw != 0 || v.z.raw != 0,
        ;
        assert(r != 0) by {
            if r == 0 {
                assert(is_isqrt(n, r));
                assert((r + 1) * (r + 1) == 1) by (nonlinear_arith)
                    requires
                        r == 0,
                ;
            }
        }
    }
}

/// One component over the length lies between minus one and one.
pub proof fn lemma_component_in_unit(c: int, m: int, n: int)
    requires
        0 <= m,
        m * m <= n < (m + 1) * (m + 1),
        c * c <= n,
    ensures
        -SCALE <= spec_wide_quotient(c * SCALE, m).raw <= SCALE,
{
    assert(-m <= c <= m) by (nonlinear_arith)
        requires
            0 <= m,
            c * c < (m + 1) * (m + 1),
    ;
    if m > 0 {
        assert(m * (-SCALE) <= c * SCALE && c * SCALE < m * (SCALE + 1)) by (nonlinear_arith)
            requires
                -m <= c <= m,
                m > 0,
                SCALE == 1_000_000_000,
        ;
        lemma_floor_div_compare(c * SCALE, m, -SCALE as int);
        lemma_floor_div_compare(c * SCALE, m, SCALE + 1);
    } else {
        assert(c * SCALE == 0) by (nonlinear_arith)
            requires
                c == 0,
        ;
    }
}

/// A sum of squares is widened until it is at least this: two to the power of 124.
pub const WIDE_ENOUGH: u128 = 0x1000_0000_0000_0000_0000_0000_0000_0000;

/// How far a sum of squares is below [`WIDE_ENOUGH`].
pub open spec fn spec_room(sum: int) -> int {
    if sum >= WIDE_ENOUGH {
        0
    } else {
        WIDE_ENOUGH - sum
    }
}

/// A positive sum of squares times four, and the factor of its vector times two, as
/// often as the sum stays below [`WIDE_ENOUGH`]: the sum of squares of the vector
/// doubled as often as 128 bits allow.
pub open spec fn spec_widened(sum: int, factor: int) -> (int, int)
    decreases spec_room(sum),
{
    if sum <= 0 || sum >= WIDE_ENOUGH {
        (sum, factor)
    } else {
        spec_widened(4 * sum, 2 * factor)
    }
}

/// A widened sum is the sum of squares of the vector times the factor.
pub proof fn lemma_widened(sum: int, factor: int, squares: int)
    requires
        factor >= 1,
        sum == squares * factor * factor,
    ensures
        spec_widened(sum, factor).1 >= 1,
        spec_widened(sum, factor).0 == squares * spec_widened(sum, factor).1 * spec_widened(
            sum,
            factor,
        ).1,
    decreases spec_room(sum),
{
    if !(sum <= 0 || sum >= WIDE_ENOUGH) {
        assert(4 * sum == squares * (2 * factor) * (2 * factor)) by (nonlinear_arith)
            requires
                sum == squares * factor * factor,
        ;
        lemma_widened(4 * sum, 2 * factor, squares);
    }
}

/// Widens a sum of squares; see [`spec_widened`].
pub fn widened(squares: u128) -> (r: (u128, i128))
    ensures
        (r.0 as int, r.1 as int) == spec_widened(squares as int, 1),
        1 <= r.1 <= 0x8000_0000_0000_0000,
        r.0 == squares * r.1 * r.1,
{
    let mut sum: u128 = squares;
    let mut factor: i128 = 1;
    while sum > 0 && sum < WIDE_ENOUGH
        invariant
            1 <= factor <= 0x8000_0000_0000_0000,
            sum == squares * factor * factor,
            spec_widened(sum as int, factor as int) == spec_widened(squares as int, 1),
        decreases spec_room(sum as int),
    {
        proof {
            assert(factor < 0x4000_0000_0000_0000) by (nonlinear_arith)
                requires
                    sum == squares * factor * factor,
                    0 < sum < 0x1000_0000_0000_0000_0000_0000_0000_0000,
                    factor >= 1,
                    squares >= 0,
            ;
            assert(4 * sum == squares * (2 * factor) * (2 * factor)) by (nonlinear_arith)
                requires
                    sum == squares * factor * factor,
            ;
        }
        sum = 4 * sum;
        factor = 2 * factor;
    }
    (sum, factor)
}

/// A component of the widened vector, times `SCALE`, fits a wide integer.
pub proof fn lemma_component_fits(c: int, factor: int, squares: int, wide: int)
    requires
        c * c <= squares,
        1 <= factor,
        wide == squares * factor * factor,
        wide < 0x1_0000_0000_0000_0000_0000_0000_0000_0000,
    ensures
        wide_ok(c * factor * SCALE),
        (c * factor) * (c * factor) <= wide,
{
    assert((c * factor) * (c * factor) <= wide) by (nonlinear_arith)
        requires
            c * c <= squares,
            1 <= factor,
            wide == squares * factor * factor,
    ;
    let x = c * factor;
    assert(-0x1_0000_0000_0000_0000 < x < 0x1_0000_0000_0000_0000) by (nonlinear_arith)
        requires
            x * x <= wide,
            wide < 0x1_0000_0000_0000_0000_0000_0000_0000_0000,
    ;
    assert(wide_ok(x * SCALE)) by (nonlinear_arith)
        requires
            -0x1_0000_0000_0000_0000 < x < 0x1_0000_0000_0000_0000,
            SCALE == 1_000_000_000,
    ;
}

/// Every component of a normalised vector lies between minus one and one.
pub proof fn lemma_normalized_in_unit(v: Vector3)
    ensures
        -SCALE <= v.spec_normalized().x.raw <= SCALE,
        -SCALE <= v.spec_normalized().y.raw <= SCALE,
        -SCALE <= v.spec_normalized().z.raw <= SCALE,
{
    let squares = v.spec_sum_squares();
    assert(squares >= 0 && v.x.raw * v.x.raw <= squares && v.y.raw * v.y.raw <= squares
        && v.z.raw * v.z.raw <= squares) by (nonlinear_arith)
        requires
            squares == v.x.raw * v.x.raw + v.y.raw * v.y.raw + v.z.raw * v.z.raw,
    ;
    lemma_widened(squares, 1, squares);
    let wide = spec_widened(squares, 1);
    assert(wide.0 >= 0) by (nonlinear_arith)
        requires
            wide.0 == squares * wide.1 * wide.1,
            squares >= 0,
    ;
    lemma_isqrt_exists(wide.0);
    let m = isqrt(wide.0);
    assert((v.x.raw * wide.1) * (v.x.raw * wide.1) <= wide.0 && (v.y.raw * wide.1) * (v.y.raw
        * wide.1) <= wide.0 && (v.z.raw * wide.1) * (v.z.raw * wide.1) <= wide.0)
        by (nonlinear_arith)
        requires
            wide.0 == squares * wide.1 * wide.1,
            wide.1 >= 1,
            v.x.raw * v.x.raw <= squares,
            v.y.raw * v.y.raw <= squares,
            v.z.raw * v.z.raw <= squares,
    ;
    lemma_component_in_unit(v.x.raw * wide.1, m, wide.0);
    lemma_component_in_unit(v.y.raw * wide.1, m, wide.0);
    lemma_component_in_unit(v.z.raw * wide.1, m, wide.0);
}

/// Whether every component lies in `[0, 1]`, as the channels of a colour do.
pub open spec fn spec_in_unit(c: Vector3) -> bool {
    &&& 0 <= c.x.raw <= SCALE
    &&& 0 <= c.y.raw <= SCALE
    &&& 0 <= c.z.raw <= SCALE
}

/// The product of a number that is not negative with a number in `[0, 1]` lies
/// between zero and the first number; the product with one is the number itself.
pub proof fn lemma_product_with_unit(a: Fixed, b: Fixed)
    requires
        0 <= a.raw,
        0 <= b.raw <= SCALE,
    ensures
        0 <= a.spec_mul(b).raw <= a.raw,
        0 <= b.spec_mul(a).raw <= a.raw,
        b.raw == SCALE ==> a.spec_mul(b) == a && b.spec_mul(a) == a,
{
    let p = a.raw * b.raw;
    assert(0 <= p <= a.raw * SCALE && p == b.raw * a.raw) by (nonlinear_arith)
        requires
            p == a.raw * b.raw,
            0 <= a.raw,
            0 <= b.raw <= SCALE,
    ;
    assert(0 <= p / (SCALE as int) <= a.raw) by (nonlinear_arith)
        requires
            0 <= p <= a.raw * SCALE,
            SCALE == 1_000_000_000,
    ;
    if b.raw == SCALE {
        assert(p / (SCALE as int) == a.raw) by (nonlinear_arith)
            requires
                p == a.raw * SCALE,
                SCALE == 1_000_000_000,
        ;
    }
}

/// A colour attenuated by a colour is a colour.
pub proof fn lemma_hadamard_in_unit(a: Vector3, b: Vector3)
    requires
        spec_in_unit(a),
        spec_in_unit(b),
    ensures
        spec_in_unit(a.spec_hadamard(b)),
{
    lemma_product_with_unit(a.x, b.x);
    lemma_product_with_unit(a.y, b.y);
    lemma_product_with_unit(a.z, b.z);
}

} // verus!
