use raytrace::scalar::{Fixed, SCALE};

fn fx(v: f64) -> Fixed {
    Fixed { raw: (v * 1e9).round() as i64 }
}

#[test]
fn add_saturates_at_both_ends() {
    let top = Fixed { raw: i64::MAX };
    let bottom = Fixed { raw: i64::MIN };
    assert_eq!(top.add(Fixed::one()).raw, i64::MAX);
    assert_eq!(bottom.sub(Fixed::one()).raw, i64::MIN);
    assert_eq!(fx(1.5).add(fx(2.25)), fx(3.75));
    assert_eq!(fx(1.5).sub(fx(2.25)), fx(-0.75));
}

#[test]
fn mul_rounds_down() {
    assert_eq!(fx(1.5).mul(fx(-2.0)), fx(-3.0));
    assert_eq!(Fixed { raw: 1 }.mul(Fixed { raw: 1 }).raw, 0);
    assert_eq!(Fixed { raw: -1 }.mul(Fixed { raw: 1 }).raw, -1);
    assert_eq!(Fixed { raw: i64::MAX }.mul(fx(2.0)).raw, i64::MAX);
    assert_eq!(Fixed { raw: i64::MAX }.mul(fx(-2.0)).raw, i64::MIN);
}

#[test]
fn div_by_zero_goes_to_the_end_of_the_range() {
    assert_eq!(fx(1.0).div(Fixed::zero()).raw, i64::MAX);
    assert_eq!(fx(-1.0).div(Fixed::zero()).raw, i64::MIN);
    assert_eq!(Fixed::zero().div(Fixed::zero()).raw, 0);
    assert_eq!(fx(1.0).div(fx(4.0)), fx(0.25));
    assert_eq!(fx(-1.0).div(fx(3.0)).raw, -333_333_334);
    assert_eq!(fx(1.0).div(fx(-3.0)).raw, -333_333_334);
    assert_eq!(Fixed::div_diff(fx(5.0), fx(1.0), fx(2.0)), fx(2.0));
}

#[test]
fn sqrt_is_the_floor_of_the_root() {
    assert_eq!(fx(4.0).sqrt(), fx(2.0));
    assert_eq!(fx(2.0).sqrt().raw, 1_414_213_562);
    assert_eq!(fx(-4.0).sqrt().raw, 0);
    assert_eq!(Fixed::zero().sqrt().raw, 0);
    let r = Fixed { raw: i64::MAX }.sqrt().raw as i128;
    let n = i64::MAX as i128 * SCALE as i128;
    assert!(r * r <= n && n < (r + 1) * (r + 1));
}

#[test]
fn floor_and_fract_split_a_number() {
    assert_eq!(fx(2.75).floor(), 2);
    assert_eq!(fx(2.75).fract(), fx(0.75));
    assert_eq!(fx(-2.75).floor(), -3);
    assert_eq!(fx(-2.75).fract(), fx(0.25));
    assert_eq!(Fixed::from_int(7), fx(7.0));
    assert_eq!(Fixed::from_int(i64::MAX).raw, i64::MAX);
}

#[test]
fn abs_neg_min_max() {
    assert_eq!(fx(-2.0).abs(), fx(2.0));
    assert_eq!(Fixed { raw: i64::MIN }.abs().raw, i64::MAX);
    assert_eq!(fx(2.0).neg(), fx(-2.0));
    assert_eq!(fx(2.0).min(fx(3.0)), fx(2.0));
    assert_eq!(fx(2.0).max(fx(3.0)), fx(3.0));
}
