//! Trigonometric functions by polynomial approximation.
//!
//! The polynomials are the classical minimax fits; angles are in radians. The inverse
//! functions are exact on the axes and at the ends of their domains, and in between
//! they follow the arctangent polynomial, whose fit is good to about five decimal
//! places; sine and cosine are good to about eight on the quarter turn. The library
//! has no model of the true functions to state these errors against.
use vstd::prelude::*;
use crate::scalar::{lemma_isqrt_unique, Fixed, MINUS_ONE, SCALE};

verus! {

/// The half-turn, in raw units.
pub const PI: i64 = 3_141_592_654;

/// The quarter-turn, in raw units.
pub const HALF_PI: i64 = 1_570_796_327;

/// The full turn, in raw units.
pub const TWO_PI: i64 = 6_283_185_307;

/// Coefficients of the arctangent polynomial, from the linear term up.
pub const ATAN_1: i64 = 999_866_000;

pub const ATAN_3: i64 = -330_299_500;

pub const ATAN_5: i64 = 180_141_000;

pub const ATAN_7: i64 = -85_133_000;

pub const ATAN_9: i64 = 20_835_100;

/// The arctangent of `z` for `z` in `[0, 1]`, by an odd polynomial of degree nine.
pub open spec fn spec_atan_unit(z: Fixed) -> Fixed {
    let z2 = z.spec_mul(z);
    let p = Fixed { raw: ATAN_9 };
    let p = p.spec_mul(z2).spec_add(Fixed { raw: ATAN_7 });
    let p = p.spec_mul(z2).spec_add(Fixed { raw: ATAN_5 });
    let p = p.spec_mul(z2).spec_add(Fixed { raw: ATAN_3 });
    let p = p.spec_mul(z2).spec_add(Fixed { raw: ATAN_1 });
    p.spec_mul(z)
}

pub fn atan_unit(z: Fixed) -> (r: Fixed)
    ensures
        r == spec_atan_unit(z),
{
    let z2 = z.mul(z);
    let p = Fixed { raw: ATAN_9 };
    let p = p.mul(z2).add(Fixed { raw: ATAN_7 });
    let p = p.mul(z2).add(Fixed { raw: ATAN_5 });
    let p = p.mul(z2).add(Fixed { raw: ATAN_3 });
    let p = p.mul(z2).add(Fixed { raw: ATAN_1 });
    p.mul(z)
}

/// The angle of the point `(x, y)` from the positive x axis, in `[-pi, pi]`; zero at
/// the origin. The smaller coordinate's magnitude over the larger one's is sent
/// through [`spec_atan_unit`], and the result is unfolded by octant and kept within
/// the half-turn. On the axes the angle is exact: zero, a quarter turn, or a
/// half-turn.
pub open spec fn spec_atan2(y: Fixed, x: Fixed) -> Fixed {
    let ax = x.spec_abs();
    let ay = y.spec_abs();
    if ax.raw == 0 && ay.raw == 0 {
        Fixed { raw: 0 }
    } else {
        let first = if ax.raw >= ay.raw {
            spec_atan_unit(ay.spec_div(ax))
        } else {
            Fixed { raw: HALF_PI }.spec_sub(spec_atan_unit(ax.spec_div(ay)))
        };
        let upper = if x.raw < 0 {
            Fixed { raw: PI }.spec_sub(first)
        } else {
            first
        }.spec_max(Fixed { raw: 0 }).spec_min(Fixed { raw: PI });
        if y.raw < 0 {
            upper.spec_neg()
        } else {
            upper
        }
    }
}

pub fn atan2(y: Fixed, x: Fixed) -> (r: Fixed)
    ensures
        r == spec_atan2(y, x),
        -PI <= r.raw <= PI,
{
    let ax = x.abs();
    let ay = y.abs();
    if ax.raw == 0 && ay.raw == 0 {
        return Fixed { raw: 0 };
    }
    let first = if ax.raw >= ay.raw {
        atan_unit(ay.div(ax))
    } else {
        Fixed { raw: HALF_PI }.sub(atan_unit(ax.div(ay)))
    };
    let upper = if x.raw < 0 {
        Fixed { raw: PI }.sub(first)
    } else {
        first
    }.max(Fixed { raw: 0 }).min(Fixed { raw: PI });
    if y.raw < 0 {
        upper.neg()
    } else {
        upper
    }
}

/// The arccosine of `x`, in `[0, pi]`: a quarter turn less the angle of the point
/// `(sqrt(1 - x^2), x)`. Arguments beyond `[-1, 1]` are taken at the nearer end. At
/// zero the result is exactly the quarter turn, at one zero, at minus one the
/// half-turn.
pub open spec fn spec_acos(x: Fixed) -> Fixed {
    let c = x.spec_max(Fixed { raw: MINUS_ONE }).spec_min(Fixed { raw: SCALE });
    let across = Fixed { raw: SCALE }.spec_sub(c.spec_mul(c)).spec_sqrt();
    Fixed { raw: HALF_PI }.spec_sub(spec_atan2(c, across)).spec_max(Fixed { raw: 0 }).spec_min(
        Fixed { raw: PI },
    )
}

pub fn acos(x: Fixed) -> (r: Fixed)
    ensures
        r == spec_acos(x),
        0 <= r.raw <= PI,
{
    let c = x.max(Fixed { raw: MINUS_ONE }).min(Fixed { raw: SCALE });
    let across = Fixed { raw: SCALE }.sub(c.mul(c)).sqrt();
    Fixed { raw: HALF_PI }.sub(atan2(c, across)).max(Fixed { raw: 0 }).min(Fixed { raw: PI })
}

/// The arctangent polynomial vanishes at zero.
pub proof fn lemma_atan_unit_at_zero()
    ensures
        spec_atan_unit(Fixed { raw: 0 }) == (Fixed { raw: 0 }),
{
    assert(forall|p: int| #[trigger] (p * 0) == 0) by (nonlinear_arith);
}

/// On the axes the angle is exact.
pub proof fn lemma_atan2_on_axes(d: Fixed)
    requires
        d.raw > 0,
    ensures
        spec_atan2(Fixed { raw: 0 }, d) == (Fixed { raw: 0 }),
        spec_atan2(d, Fixed { raw: 0 }) == (Fixed { raw: HALF_PI }),
        spec_atan2(d.spec_neg(), Fixed { raw: 0 }).raw == -HALF_PI,
        spec_atan2(Fixed { raw: 0 }, d.spec_neg()) == (Fixed { raw: PI }),
{
    lemma_atan_unit_at_zero();
    let zero = Fixed { raw: 0 };
    assert(zero.spec_div(d) == zero) by {
        assert(0int * SCALE == 0) by (nonlinear_arith);
    }
    assert(zero.spec_div(d.spec_neg().spec_abs()) == zero) by {
        assert(0int * SCALE == 0) by (nonlinear_arith);
    }
}

/// The arccosine is exact at zero and at both ends.
pub proof fn lemma_acos_exact()
    ensures
        spec_acos(Fixed { raw: 0 }) == (Fixed { raw: HALF_PI }),
        spec_acos(Fixed { raw: SCALE }) == (Fixed { raw: 0 }),
        spec_acos(Fixed { raw: MINUS_ONE }) == (Fixed { raw: PI }),
{
    let zero = Fixed { raw: 0 };
    let one = Fixed { raw: SCALE };
    let minus = Fixed { raw: MINUS_ONE };
    assert(zero.spec_mul(zero) == zero) by {
        assert(0int * 0int == 0) by (nonlinear_arith);
    }
    assert(one.spec_mul(one) == one && minus.spec_mul(minus) == one) by {
        assert(1_000_000_000int * 1_000_000_000int == 1_000_000_000_000_000_000int);
        assert((-1_000_000_000int) * (-1_000_000_000int) == 1_000_000_000_000_000_000int);
    }
    assert(one.spec_sqrt() == one) by {
        assert(1_000_000_000int * 1_000_000_000int == 1_000_000_000_000_000_000int);
        assert(1_000_000_001int * 1_000_000_001int == 1_000_000_002_000_000_001int);
        lemma_isqrt_unique(1_000_000_000_000_000_000, 1_000_000_000);
    }
    lemma_atan2_on_axes(one);
}

/// Coefficients of the sine polynomial in the square of the angle, from the second
/// term up; the first is one.
pub const SIN_2: i64 = -166_666_666;

pub const SIN_4: i64 = 8_333_332;

pub const SIN_6: i64 = -198_409;

pub const SIN_8: i64 = 2_753;

pub const SIN_10: i64 = -24;

/// Coefficients of the cosine polynomial in the square of the angle, from the second
/// term up; the first is one.
pub const COS_2: i64 = -499_999_996;

pub const COS_4: i64 = 41_666_642;

pub const COS_6: i64 = -1_388_840;

pub const COS_8: i64 = 24_761;

pub const COS_10: i64 = -261;

/// The half-turn in degrees, in raw units.
pub const HALF_TURN_DEGREES: i64 = 180_000_000_000;

/// An angle in degrees, in radians.
pub open spec fn spec_degrees_to_radians(degrees: Fixed) -> Fixed {
    degrees.spec_mul(Fixed { raw: PI }).spec_div(Fixed { raw: HALF_TURN_DEGREES })
}

pub fn degrees_to_radians(degrees: Fixed) -> (r: Fixed)
    ensures
        r == spec_degrees_to_radians(degrees),
{
    degrees.mul(Fixed { raw: PI }).div(Fixed { raw: HALF_TURN_DEGREES })
}

/// A number brought into `[0, 1]`.
pub open spec fn spec_unit_interval(x: Fixed) -> Fixed {
    x.spec_max(Fixed { raw: 0 }).spec_min(Fixed { raw: SCALE })
}

/// The sine of an angle in the first quarter turn, in `[0, 1]`: the angle times an
/// even polynomial of degree ten, kept within the unit interval. At zero it is
/// exactly zero.
pub open spec fn spec_sin_quarter(x: Fixed) -> Fixed {
    let x2 = x.spec_mul(x);
    let p = Fixed { raw: SIN_10 };
    let p = p.spec_mul(x2).spec_add(Fixed { raw: SIN_8 });
    let p = p.spec_mul(x2).spec_add(Fixed { raw: SIN_6 });
    let p = p.spec_mul(x2).spec_add(Fixed { raw: SIN_4 });
    let p = p.spec_mul(x2).spec_add(Fixed { raw: SIN_2 });
    let p = p.spec_mul(x2).spec_add(Fixed { raw: SCALE });
    spec_unit_interval(p.spec_mul(x))
}

pub fn sin_quarter(x: Fixed) -> (r: Fixed)
    ensures
        r == spec_sin_quarter(x),
        0 <= r.raw <= SCALE,
{
    let x2 = x.mul(x);
    let p = Fixed { raw: SIN_10 };
    let p = p.mul(x2).add(Fixed { raw: SIN_8 });
    let p = p.mul(x2).add(Fixed { raw: SIN_6 });
    let p = p.mul(x2).add(Fixed { raw: SIN_4 });
    let p = p.mul(x2).add(Fixed { raw: SIN_2 });
    let p = p.mul(x2).add(Fixed { raw: SCALE });
    p.mul(x).max(Fixed { raw: 0 }).min(Fixed { raw: SCALE })
}

/// The cosine of an angle in the first quarter turn, in `[0, 1]`: an even polynomial
/// of degree ten, kept within the unit interval. At zero it is exactly one.
pub open spec fn spec_cos_quarter(x: Fixed) -> Fixed {
    let x2 = x.spec_mul(x);
    let p = Fixed { raw: COS_10 };
    let p = p.spec_mul(x2).spec_add(Fixed { raw: COS_8 });
    let p = p.spec_mul(x2).spec_add(Fixed { raw: COS_6 });
    let p = p.spec_mul(x2).spec_add(Fixed { raw: COS_4 });
    let p = p.spec_mul(x2).spec_add(Fixed { raw: COS_2 });
    spec_unit_interval(p.spec_mul(x2).spec_add(Fixed { raw: SCALE }))
}

pub fn cos_quarter(x: Fixed) -> (r: Fixed)
    ensures
        r == spec_cos_quarter(x),
        0 <= r.raw <= SCALE,
{
    let x2 = x.mul(x);
    let p = Fixed { raw: COS_10 };
    let p = p.mul(x2).add(Fixed { raw: COS_8 });
    let p = p.mul(x2).add(Fixed { raw: COS_6 });
    let p = p.mul(x2).add(Fixed { raw: COS_4 });
    let p = p.mul(x2).add(Fixed { raw: COS_2 });
    p.mul(x2).add(Fixed { raw: SCALE }).max(Fixed { raw: 0 }).min(Fixed { raw: SCALE })
}

/// The tangent of an angle in the first quarter turn: sine over cosine, which is not
/// negative. At zero it is exactly zero.
pub open spec fn spec_tan_quarter(x: Fixed) -> Fixed {
    spec_sin_quarter(x).spec_div(spec_cos_quarter(x))
}

pub fn tan_quarter(x: Fixed) -> (r: Fixed)
    ensures
        r == spec_tan_quarter(x),
        r.raw >= 0,
{
    let sine = sin_quarter(x);
    let cosine = cos_quarter(x);
    proof {
        if cosine.raw > 0 {
            assert(0 <= sine.raw * SCALE) by (nonlinear_arith)
                requires
                    0 <= sine.raw,
                    SCALE == 1_000_000_000,
            ;
            crate::scalar::lemma_floor_div_compare(sine.raw * SCALE, cosine.raw as int, 0);
            assert(cosine.raw * 0 == 0) by (nonlinear_arith);
        }
    }
    sine.div(cosine)
}

/// At the angle zero the sine and the tangent are zero and the cosine is one, exactly.
pub proof fn lemma_quarter_at_zero()
    ensures
        spec_sin_quarter(Fixed { raw: 0 }) == (Fixed { raw: 0 }),
        spec_cos_quarter(Fixed { raw: 0 }) == (Fixed { raw: SCALE }),
        spec_tan_quarter(Fixed { raw: 0 }) == (Fixed { raw: 0 }),
{
    assert(forall|p: int| #[trigger] (p * 0) == 0) by (nonlinear_arith);
    assert(0int * SCALE == 0) by (nonlinear_arith);
}

} // verus!
