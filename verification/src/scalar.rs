//! Saturating decimal fixed-point numbers.
use vstd::prelude::*;

verus! {

/// Number of raw units in the value one.
pub const SCALE: i64 = 1_000_000_000;

/// The number two, in raw units.
pub const TWO: i64 = 2_000_000_000;

/// The number three, in raw units.
pub const THREE: i64 = 3_000_000_000;

/// One half, in raw units.
pub const HALF: i64 = 500_000_000;

/// Minus one, in raw units.
pub const MINUS_ONE: i64 = -1_000_000_000;

/// Minus one half, in raw units.
pub const MINUS_HALF: i64 = -500_000_000;

/// A fixed-point number: `raw` counts billionths.
#[derive(Clone, Copy, Debug, PartialEq, Eq, Structural)]
pub struct Fixed {
    pub raw: i64,
}

/// The nearest representable raw value to `x`.
pub open spec fn clamp(x: int) -> int {
    if x < i64::MIN as int {
        i64::MIN as int
    } else if x > i64::MAX as int {
        i64::MAX as int
    } else {
        x
    }
}

/// The greatest integer not above `n / d`, for `d != 0`.
pub open spec fn floor_div(n: int, d: int) -> int {
    if d > 0 {
        n / d
    } else {
        (-n) / (-d)
    }
}

/// Brings a wide intermediate back into the 64-bit range.
pub fn clamp_wide(x: i128) -> (r: i64)
    ensures
        r as int == clamp(x as int),
{
    if x < i64::MIN as i128 {
        i64::MIN
    } else if x > i64::MAX as i128 {
        i64::MAX
    } else {
        x as i64
    }
}

/// Bound on the magnitude of the wide intermediates that arise from 64-bit operands.
pub open spec fn wide_ok(x: int) -> bool {
    -0x4000_0000_0000_0000_0000_0000_0000_0000 <= x <= 0x4000_0000_0000_0000_0000_0000_0000_0000
}

/// For a negative dividend, flooring is rounding the magnitude's quotient up.
pub proof fn lemma_floor_div_negative(m: int, d: int)
    requires
        m > 0,
        d > 0,
    ensures
        (-m) / d == -((m + d - 1) / d),
{
    let c = (m + d - 1) / d;
    assert(c * d <= m + d - 1 < c * d + d) by (nonlinear_arith)
        requires
            c == (m + d - 1) / d,
            d > 0,
    ;
    assert((-m) / d == -c) by (nonlinear_arith)
        requires
            c * d <= m + d - 1 < c * d + d,
            d > 0,
    ;
}

/// The floor quotient `q` of `a` by `d` brackets `a` between `q * d` and `(q + 1) * d`.
pub proof fn lemma_floor_div_bounds(a: int, d: int)
    requires
        d != 0,
    ensures
        d > 0 ==> floor_div(a, d) * d <= a < floor_div(a, d) * d + d,
        d < 0 ==> floor_div(a, d) * d >= a > floor_div(a, d) * d + d,
{
    if d > 0 {
        let q = a / d;
        assert(q * d <= a < q * d + d) by (nonlinear_arith)
            requires
                q == a / d,
                d > 0,
        ;
    } else {
        let e = -d;
        let q = (-a) / e;
        assert(q * e <= -a < q * e + e) by (nonlinear_arith)
            requires
                q == (-a) / e,
                e > 0,
        ;
        assert(q * d == -(q * e)) by (nonlinear_arith)
            requires
                e == -d,
        ;
    }
}

/// For a positive divisor `d`, the floor quotient of `a` is below every integer `t`
/// with `a < d * t` and at least every integer `t` with `d * t <= a`; for a negative
/// divisor the comparisons of `a` with `d * t` turn round.
pub proof fn lemma_floor_div_compare(a: int, d: int, t: int)
    requires
        d != 0,
    ensures
        d > 0 && a < d * t ==> floor_div(a, d) < t,
        d > 0 && d * t <= a ==> floor_div(a, d) >= t,
        d < 0 && d * t < a ==> floor_div(a, d) < t,
        d < 0 && a <= d * t ==> floor_div(a, d) >= t,
{
    lemma_floor_div_bounds(a, d);
    let q = floor_div(a, d);
    if d > 0 {
        if a < d * t {
            assert(q < t) by (nonlinear_arith)
                requires
                    q * d <= a,
                    a < d * t,
                    d > 0,
            ;
        }
        if d * t <= a {
            assert(q >= t) by (nonlinear_arith)
                requires
                    a < q * d + d,
                    d * t <= a,
                    d > 0,
            ;
        }
    } else {
        if a <= d * t {
            assert(q >= t) by (nonlinear_arith)
                requires
                    a > q * d + d,
                    a <= d * t,
                    d < 0,
            ;
        }
        if d * t < a {
            assert(q < t) by (nonlinear_arith)
                requires
                    q * d >= a,
                    d * t < a,
                    d < 0,
            ;
        }
    }
}

/// The floor quotient grows with the dividend for a positive divisor and shrinks
/// with it for a negative one.
pub proof fn lemma_floor_div_monotone(a: int, b: int, d: int)
    requires
        d != 0,
        a <= b,
    ensures
        d > 0 ==> floor_div(a, d) <= floor_div(b, d),
        d < 0 ==> floor_div(a, d) >= floor_div(b, d),
{
    lemma_floor_div_bounds(a, d);
    let q = floor_div(a, d);
    if d > 0 {
        assert(d * q <= b) by (nonlinear_arith)
            requires
                q * d <= a,
                a <= b,
        ;
        lemma_floor_div_compare(b, d, q);
    } else {
        lemma_floor_div_bounds(b, d);
        let p = floor_div(b, d);
        assert(p <= q) by (nonlinear_arith)
            requires
                p * d >= b,
                b >= a,
                a > q * d + d,
                d < 0,
        ;
    }
}

/// Floor division of wide integers.
pub fn floor_div_wide(n: i128, d: i128) -> (q: i128)
    requires
        d != 0,
        i128::MIN < n,
        i128::MIN < d,
    ensures
        q as int == floor_div(n as int, d as int),
{
    let nn: i128 = if d > 0 { n } else { -n };
    let dd: i128 = if d > 0 { d } else { -d };
    let du: u128 = dd as u128;
    if nn >= 0 {
        let q: u128 = (nn as u128) / du;
        q as i128
    } else {
        let m: u128 = (-nn) as u128;
        let c: u128 = (m + (du - 1)) / du;
        proof {
            lemma_floor_div_negative(m as int, du as int);
            assert(c <= m) by (nonlinear_arith)
                requires
                    c == (m + (du - 1)) / (du as int),
                    du >= 1,
                    m >= 1,
            ;
        }
        -(c as i128)
    }
}

/// Whether `r` is the integer square root of `n`.
pub open spec fn is_isqrt(n: int, r: int) -> bool {
    0 <= r && r * r <= n < (r + 1) * (r + 1)
}

/// The integer square root: the unique `r >= 0` with `r * r <= n < (r + 1) * (r + 1)`.
pub open spec fn isqrt(n: int) -> int {
    choose|r: int| is_isqrt(n, r)
}

/// Any value that brackets `n` between its square and its successor's square is the root.
pub proof fn lemma_isqrt_unique(n: int, r: int)
    requires
        0 <= r,
        r * r <= n < (r + 1) * (r + 1),
    ensures
        isqrt(n) == r,
{
    let s = isqrt(n);
    assert(is_isqrt(n, r));
    assert(is_isqrt(n, s));
    assert(s == r) by (nonlinear_arith)
        requires
            0 <= r,
            0 <= s,
            r * r <= n < (r + 1) * (r + 1),
            s * s <= n < (s + 1) * (s + 1),
    ;
}

/// Every natural number has an integer square root.
pub proof fn lemma_isqrt_exists(n: int)
    requires
        n >= 0,
    ensures
        is_isqrt(n, isqrt(n)),
    decreases n,
{
    if n == 0 {
        assert(is_isqrt(0, 0));
    } else {
        lemma_isqrt_exists(n - 1);
        let r = isqrt(n - 1);
        if n < (r + 1) * (r + 1) {
            assert(is_isqrt(n, r));
        } else {
            assert((r + 2) * (r + 2) > (r + 1) * (r + 1)) by (nonlinear_arith)
                requires
                    r >= 0,
            ;
            assert(is_isqrt(n, r + 1));
        }
    }
}

/// The integer square root grows with its argument.
pub proof fn lemma_isqrt_monotone(a: int, b: int)
    requires
        0 <= a <= b,
    ensures
        isqrt(a) <= isqrt(b),
{
    lemma_isqrt_exists(a);
    lemma_isqrt_exists(b);
    let ra = isqrt(a);
    let rb = isqrt(b);
    assert(is_isqrt(a, ra) && is_isqrt(b, rb));
    assert(ra < rb + 1) by (nonlinear_arith)
        requires
            0 <= ra,
            0 <= rb,
            ra * ra <= a,
            a <= b,
            b < (rb + 1) * (rb + 1),
    ;
}

/// Integer square root by bisection.
pub fn isqrt_wide(n: u128) -> (r: u128)
    requires
        n < 0x4000_0000_0000_0000_0000_0000,
    ensures
        r as int == isqrt(n as int),
        r * r <= n < (r + 1) * (r + 1),
        r < 0x8000_0000_0000,
{
    let mut lo: u128 = 0;
    let mut hi: u128 = 0x8000_0000_0000;
    assert(0x8000_0000_0000u128 * 0x8000_0000_0000u128 == 0x4000_0000_0000_0000_0000_0000u128);
    while hi - lo > 1
        invariant
            lo < hi <= 0x8000_0000_0000,
            lo * lo <= n < hi * hi,
        decreases hi - lo,
    {
        let mid: u128 = lo + (hi - lo) / 2;
        assert(mid * mid < 0x4000_0000_0000_0000_0000_0000) by (nonlinear_arith)
            requires
                mid < 0x8000_0000_0000,
        ;
        if mid * mid <= n {
            lo = mid;
        } else {
            hi = mid;
        }
    }
    proof {
        lemma_isqrt_unique(n as int, lo as int);
    }
    lo
}

/// Integer square root of any 128-bit number, by bisection.
pub fn isqrt_full(n: u128) -> (r: u128)
    ensures
        r as int == isqrt(n as int),
        r * r <= n < (r + 1) * (r + 1),
        r < 0x1_0000_0000_0000_0000,
{
    let mut lo: u128 = 0;
    let mut hi: u128 = 0x1_0000_0000_0000_0000;
    assert(0x1_0000_0000_0000_0000int * 0x1_0000_0000_0000_0000int
        == 0x1_0000_0000_0000_0000_0000_0000_0000_0000int);
    while hi - lo > 1
        invariant
            lo < hi <= 0x1_0000_0000_0000_0000,
            lo * lo <= n < hi * hi,
        decreases hi - lo,
    {
        let mid: u128 = lo + (hi - lo) / 2;
        assert(mid * mid < 0x1_0000_0000_0000_0000_0000_0000_0000_0000) by (nonlinear_arith)
            requires
                mid < 0x1_0000_0000_0000_0000,
        ;
        if mid * mid <= n {
            lo = mid;
        } else {
            hi = mid;
        }
    }
    proof {
        lemma_isqrt_unique(n as int, lo as int);
    }
    lo
}

/// The quotient of two wide integers as a number: rounded down and saturated. A zero
/// divisor sends a positive dividend to the top of the range, a negative one to the
/// bottom, and zero to zero.
pub open spec fn spec_wide_quotient(n: int, d: int) -> Fixed {
    if d == 0 {
        if n > 0 {
            Fixed { raw: i64::MAX }
        } else if n < 0 {
            Fixed { raw: i64::MIN }
        } else {
            Fixed { raw: 0 }
        }
    } else {
        Fixed { raw: clamp(floor_div(n, d)) as i64 }
    }
}

pub fn wide_quotient(n: i128, d: i128) -> (r: Fixed)
    requires
        wide_ok(n as int),
        wide_ok(d as int),
    ensures
        r == spec_wide_quotient(n as int, d as int),
{
    if d == 0 {
        if n > 0 {
            Fixed { raw: i64::MAX }
        } else if n < 0 {
            Fixed { raw: i64::MIN }
        } else {
            Fixed { raw: 0 }
        }
    } else {
        Fixed { raw: clamp_wide(floor_div_wide(n, d)) }
    }
}

/// The product of two 64-bit numbers as a wide integer.
pub fn wide_product(a: i64, b: i64) -> (p: i128)
    ensures
        p == a * b,
        -0x3fff_ffff_ffff_ffff_8000_0000_0000_0000 <= p <= 0x4000_0000_0000_0000_0000_0000_0000_0000,
{
    assert(-0x3fff_ffff_ffff_ffff_8000_0000_0000_0000 <= a * b
        <= 0x4000_0000_0000_0000_0000_0000_0000_0000) by (nonlinear_arith)
        requires
            -0x8000_0000_0000_0000 <= a <= 0x7fff_ffff_ffff_ffff,
            -0x8000_0000_0000_0000 <= b <= 0x7fff_ffff_ffff_ffff,
    ;
    (a as i128) * (b as i128)
}

/// The sum of three wide products over `SCALE`, rounded down once and saturated.
pub fn scaled_sum(first: i128, second: i128, third: i128) -> (r: Fixed)
    requires
        wide_ok(first as int),
        wide_ok(second as int),
        wide_ok(third as int),
    ensures
        r.raw == clamp((first + second + third) / (SCALE as int)),
{
    let unit: i128 = SCALE as i128;
    let whole_first: i128 = floor_div_wide(first, unit);
    let whole_second: i128 = floor_div_wide(second, unit);
    let whole_third: i128 = floor_div_wide(third, unit);
    proof {
        lemma_floor_div_bounds(first as int, unit as int);
        lemma_floor_div_bounds(second as int, unit as int);
        lemma_floor_div_bounds(third as int, unit as int);
        assert(wide_ok(whole_first as int) && wide_ok(whole_second as int) && wide_ok(whole_third as int)) by (nonlinear_arith)
            requires
                wide_ok(first as int),
                wide_ok(second as int),
                wide_ok(third as int),
                whole_first * unit <= first < whole_first * unit + unit,
                whole_second * unit <= second < whole_second * unit + unit,
                whole_third * unit <= third < whole_third * unit + unit,
                unit == 1_000_000_000,
        ;
        assert(whole_first * unit == unit * whole_first && whole_second * unit == unit * whole_second && whole_third * unit == unit * whole_third)
            by (nonlinear_arith);
    }
    let rest_first: i128 = first - whole_first * unit;
    let rest_second: i128 = second - whole_second * unit;
    let rest_third: i128 = third - whole_third * unit;
    let carry: i128 = ((rest_first + rest_second + rest_third) as u128 / (unit as u128)) as i128;
    let whole: i128 = whole_first + whole_second + whole_third + carry;
    proof {
        vstd::arithmetic::div_mod::lemma_hoist_over_denominator(
            rest_first + rest_second + rest_third,
            whole_first + whole_second + whole_third,
            unit as nat,
        );
        assert((rest_first + rest_second + rest_third) + (whole_first + whole_second + whole_third) * unit == first + second + third) by (nonlinear_arith)
            requires
                rest_first == first - whole_first * unit,
                rest_second == second - whole_second * unit,
                rest_third == third - whole_third * unit,
        ;
    }
    Fixed { raw: clamp_wide(whole) }
}

/// The bound on both operands of [`wide_ratio`]: two to the power of 116.
pub const RATIO_LIMIT: i128 = 0x10_0000_0000_0000_0000_0000_0000_0000;

/// Long division by one digit: with `x = d * b + m`, the quotient of `x * rest` by `b`
/// is `d * rest` plus the quotient of `m * rest` by `b`.
pub proof fn lemma_long_division_step(x: int, d: int, m: int, b: int, rest: int)
    requires
        b > 0,
        x == d * b + m,
    ensures
        (x * rest) / b == d * rest + (m * rest) / b,
{
    vstd::arithmetic::div_mod::lemma_hoist_over_denominator(m * rest, d * rest, b as nat);
    assert(m * rest + (d * rest) * b == x * rest) by (nonlinear_arith)
        requires
            x == d * b + m,
    ;
}

/// The ratio of two wide integers as a number: `a * SCALE / b`, rounded down once and
/// saturated, by long division in three digits of a thousand.
pub fn wide_ratio(a: i128, b: i128) -> (r: Fixed)
    requires
        -RATIO_LIMIT < a < RATIO_LIMIT,
        0 <= b < RATIO_LIMIT,
    ensures
        r == spec_wide_quotient(a * SCALE, b as int),
{
    if b == 0 {
        assert(a > 0 ==> a * SCALE > 0) by (nonlinear_arith)
            requires
                SCALE == 1_000_000_000,
        ;
        assert(a < 0 ==> a * SCALE < 0) by (nonlinear_arith)
            requires
                SCALE == 1_000_000_000,
        ;
        assert(a == 0 ==> a * SCALE == 0) by (nonlinear_arith);
        return if a > 0 {
            Fixed { raw: i64::MAX }
        } else if a < 0 {
            Fixed { raw: i64::MIN }
        } else {
            Fixed { raw: 0 }
        };
    }
    let q: i128 = floor_div_wide(a, b);
    proof {
        lemma_floor_div_bounds(a as int, b as int);
        if q >= 0 {
            assert(q <= q * b) by (nonlinear_arith)
                requires
                    q >= 0,
                    b >= 1,
            ;
        } else {
            assert((q + 1) * b <= q + 1 && (q + 1) * b == q * b + b) by (nonlinear_arith)
                requires
                    q + 1 <= 0,
                    b >= 1,
            ;
        }
        assert(-RATIO_LIMIT <= q <= RATIO_LIMIT);
        assert(-2 * RATIO_LIMIT <= q * b <= RATIO_LIMIT);
    }
    let m0: i128 = a - q * b;
    let x1: i128 = m0 * 1000;
    let d1: i128 = ((x1 as u128) / (b as u128)) as i128;
    proof {
        lemma_floor_div_bounds(x1 as int, b as int);
        assert(0 <= d1 < 1000 && 0 <= d1 * b <= x1) by (nonlinear_arith)
            requires
                d1 * b <= x1 < d1 * b + b,
                0 <= x1 < 1000 * b,
                b > 0,
        ;
    }
    let m1: i128 = x1 - d1 * b;
    let x2: i128 = m1 * 1000;
    let d2: i128 = ((x2 as u128) / (b as u128)) as i128;
    proof {
        lemma_floor_div_bounds(x2 as int, b as int);
        assert(0 <= d2 < 1000 && 0 <= d2 * b <= x2) by (nonlinear_arith)
            requires
                d2 * b <= x2 < d2 * b + b,
                0 <= x2 < 1000 * b,
                b > 0,
        ;
    }
    let m2: i128 = x2 - d2 * b;
    let x3: i128 = m2 * 1000;
    let d3: i128 = ((x3 as u128) / (b as u128)) as i128;
    proof {
        lemma_floor_div_bounds(x3 as int, b as int);
        assert(0 <= d3 < 1000 && 0 <= d3 * b <= x3) by (nonlinear_arith)
            requires
                d3 * b <= x3 < d3 * b + b,
                0 <= x3 < 1000 * b,
                b > 0,
        ;
        let m3 = x3 - d3 * b;
        assert(m3 / (b as int) == 0) by (nonlinear_arith)
            requires
                0 <= m3 < b,
        ;
        lemma_long_division_step(a as int, q as int, m0 as int, b as int, SCALE as int);
        lemma_long_division_step(x1 as int, d1 as int, m1 as int, b as int, 1_000_000);
        lemma_long_division_step(x2 as int, d2 as int, m2 as int, b as int, 1_000);
        lemma_long_division_step(x3 as int, d3 as int, m3, b as int, 1);
        assert(m0 * SCALE == x1 * 1_000_000 && m1 * 1_000_000 == x2 * 1_000 && m2 * 1_000 == x3
            * 1) by (nonlinear_arith)
            requires
                x1 == m0 * 1000,
                x2 == m1 * 1000,
                x3 == m2 * 1000,
                SCALE == 1_000_000_000,
        ;
        assert((a * SCALE) / (b as int) == q * SCALE + d1 * 1_000_000 + d2 * 1_000 + d3);
    }
    let fraction: i128 = d1 * 1_000_000 + d2 * 1_000 + d3;
    if q > 0x1_0000_0000_0000_0000 {
        assert(q * SCALE + fraction > i64::MAX) by (nonlinear_arith)
            requires
                q > 0x1_0000_0000_0000_0000,
                fraction >= 0,
                SCALE == 1_000_000_000,
        ;
        Fixed { raw: i64::MAX }
    } else if q < -0x1_0000_0000_0000_0000 {
        assert(q * SCALE + fraction < i64::MIN) by (nonlinear_arith)
            requires
                q < -0x1_0000_0000_0000_0000,
                fraction < 1_000_000_000,
                SCALE == 1_000_000_000,
        ;
        Fixed { raw: i64::MIN }
    } else {
        assert(wide_ok(q * SCALE)) by (nonlinear_arith)
            requires
                -0x1_0000_0000_0000_0000 <= q <= 0x1_0000_0000_0000_0000,
                SCALE == 1_000_000_000,
        ;
        Fixed { raw: clamp_wide(q * (SCALE as i128) + fraction) }
    }
}

impl Fixed {
    /// The number zero.
    pub fn zero() -> (r: Fixed)
        ensures
            r.raw == 0,
    {
        Fixed { raw: 0 }
    }

    /// The number one.
    pub fn one() -> (r: Fixed)
        ensures
            r.raw == SCALE,
    {
        Fixed { raw: SCALE }
    }

    /// The whole number `n`, saturated.
    pub open spec fn spec_from_int(n: i64) -> Fixed {
        Fixed { raw: clamp(n * SCALE) as i64 }
    }

    pub fn from_int(n: i64) -> (r: Fixed)
        ensures
            r == Self::spec_from_int(n),
    {
        assert(wide_ok(n * SCALE)) by (nonlinear_arith)
            requires
                -0x8000_0000_0000_0000 <= n <= 0x7fff_ffff_ffff_ffff,
                SCALE == 1_000_000_000,
        ;
        let wide: i128 = (n as i128) * (SCALE as i128);
        Fixed { raw: clamp_wide(wide) }
    }

    /// Saturating sum.
    pub open spec fn spec_add(self, rhs: Fixed) -> Fixed {
        Fixed { raw: clamp(self.raw + rhs.raw) as i64 }
    }

    pub fn add(self, rhs: Fixed) -> (r: Fixed)
        ensures
            r == self.spec_add(rhs),
    {
        Fixed { raw: clamp_wide(self.raw as i128 + rhs.raw as i128) }
    }

    /// Saturating difference.
    pub open spec fn spec_sub(self, rhs: Fixed) -> Fixed {
        Fixed { raw: clamp(self.raw - rhs.raw) as i64 }
    }

    pub fn sub(self, rhs: Fixed) -> (r: Fixed)
        ensures
            r == self.spec_sub(rhs),
    {
        Fixed { raw: clamp_wide(self.raw as i128 - rhs.raw as i128) }
    }

    /// Saturating negation.
    pub open spec fn spec_neg(self) -> Fixed {
        Fixed { raw: clamp(-self.raw) as i64 }
    }

    pub fn neg(self) -> (r: Fixed)
        ensures
            r == self.spec_neg(),
    {
        Fixed { raw: clamp_wide(-(self.raw as i128)) }
    }

    /// Saturating magnitude.
    pub open spec fn spec_abs(self) -> Fixed {
        if self.raw < 0 {
            self.spec_neg()
        } else {
            self
        }
    }

    pub fn abs(self) -> (r: Fixed)
        ensures
            r == self.spec_abs(),
            r.raw >= 0,
    {
        if self.raw < 0 {
            self.neg()
        } else {
            self
        }
    }

    /// The smaller of two numbers.
    pub open spec fn spec_min(self, rhs: Fixed) -> Fixed {
        if self.raw <= rhs.raw {
            self
        } else {
            rhs
        }
    }

    pub fn min(self, rhs: Fixed) -> (r: Fixed)
        ensures
            r == self.spec_min(rhs),
    {
        if self.raw <= rhs.raw {
            self
        } else {
            rhs
        }
    }

    /// The larger of two numbers.
    pub open spec fn spec_max(self, rhs: Fixed) -> Fixed {
        if self.raw >= rhs.raw {
            self
        } else {
            rhs
        }
    }

    pub fn max(self, rhs: Fixed) -> (r: Fixed)
        ensures
            r == self.spec_max(rhs),
    {
        if self.raw >= rhs.raw {
            self
        } else {
            rhs
        }
    }

    /// Saturating product, rounded down to a whole number of raw units.
    pub open spec fn spec_mul(self, rhs: Fixed) -> Fixed {
        Fixed { raw: clamp((self.raw * rhs.raw) / (SCALE as int)) as i64 }
    }

    pub fn mul(self, rhs: Fixed) -> (r: Fixed)
        ensures
            r == self.spec_mul(rhs),
    {
        assert(wide_ok(self.raw * rhs.raw)) by (nonlinear_arith)
            requires
                -0x8000_0000_0000_0000 <= self.raw <= 0x7fff_ffff_ffff_ffff,
                -0x8000_0000_0000_0000 <= rhs.raw <= 0x7fff_ffff_ffff_ffff,
        ;
        let wide: i128 = (self.raw as i128) * (rhs.raw as i128);
        Fixed { raw: clamp_wide(floor_div_wide(wide, SCALE as i128)) }
    }

    /// The quotient `(num - origin) / den` of an exact difference, rounded down and
    /// saturated. A zero divisor sends a positive dividend to the top of the range,
    /// a negative one to the bottom, and zero to zero.
    pub open spec fn spec_div_diff(num: Fixed, origin: Fixed, den: Fixed) -> Fixed {
        let n = num.raw - origin.raw;
        if den.raw == 0 {
            if n > 0 {
                Fixed { raw: i64::MAX }
            } else if n < 0 {
                Fixed { raw: i64::MIN }
            } else {
                Fixed { raw: 0 }
            }
        } else {
            Fixed { raw: clamp(floor_div(n * SCALE, den.raw as int)) as i64 }
        }
    }

    pub fn div_diff(num: Fixed, origin: Fixed, den: Fixed) -> (r: Fixed)
        ensures
            r == Self::spec_div_diff(num, origin, den),
    {
        let n: i128 = num.raw as i128 - origin.raw as i128;
        if den.raw == 0 {
            if n > 0 {
                Fixed { raw: i64::MAX }
            } else if n < 0 {
                Fixed { raw: i64::MIN }
            } else {
                Fixed { raw: 0 }
            }
        } else {
            let wide: i128 = n * (SCALE as i128);
            Fixed { raw: clamp_wide(floor_div_wide(wide, den.raw as i128)) }
        }
    }

    /// Saturating quotient, rounded down; see [`Fixed::spec_div_diff`] for a zero divisor.
    pub open spec fn spec_div(self, rhs: Fixed) -> Fixed {
        Self::spec_div_diff(self, Fixed { raw: 0 }, rhs)
    }

    pub fn div(self, rhs: Fixed) -> (r: Fixed)
        ensures
            r == self.spec_div(rhs),
    {
        Self::div_diff(self, Fixed { raw: 0 }, rhs)
    }

    /// The square root, rounded down; zero for a negative number.
    pub open spec fn spec_sqrt(self) -> Fixed {
        if self.raw <= 0 {
            Fixed { raw: 0 }
        } else {
            Fixed { raw: isqrt(self.raw * SCALE) as i64 }
        }
    }

    pub fn sqrt(self) -> (r: Fixed)
        ensures
            r == self.spec_sqrt(),
            r.raw >= 0,
            self.raw > 0 ==> r.raw * r.raw <= self.raw * SCALE < (r.raw + 1) * (r.raw + 1),
    {
        if self.raw <= 0 {
            Fixed { raw: 0 }
        } else {
            let wide: u128 = (self.raw as u128) * (SCALE as u128);
            let root: u128 = isqrt_wide(wide);
            Fixed { raw: root as i64 }
        }
    }

    /// The greatest whole number not above this one.
    pub open spec fn spec_floor(self) -> i64 {
        (self.raw as int / SCALE as int) as i64
    }

    pub fn floor(self) -> (r: i64)
        ensures
            r == self.spec_floor(),
            r * SCALE <= self.raw < (r + 1) * SCALE,
            -9_223_372_037 <= r <= 9_223_372_036,
    {
        let q: i128 = floor_div_wide(self.raw as i128, SCALE as i128);
        q as i64
    }

    /// The part above the floor: a number in `[0, 1)`.
    pub open spec fn spec_fract(self) -> Fixed {
        Fixed { raw: (self.raw as int % SCALE as int) as i64 }
    }

    pub fn fract(self) -> (r: Fixed)
        ensures
            r == self.spec_fract(),
            0 <= r.raw < SCALE,
    {
        let q: i64 = self.floor();
        let wide: i128 = self.raw as i128 - (q as i128) * (SCALE as i128);
        Fixed { raw: wide as i64 }
    }
}

} // verus!
