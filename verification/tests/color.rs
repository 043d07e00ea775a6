use raytrace::color::{channel_byte, color_bytes, linear_to_gamma, push_decimal, write_color, write_header};
use raytrace::scalar::Fixed;
use raytrace::vector::Vector3;

fn fx(v: f64) -> Fixed {
    Fixed { raw: (v * 1e9).round() as i64 }
}

fn vec3(x: f64, y: f64, z: f64) -> Vector3 {
    Vector3 { x: fx(x), y: fx(y), z: fx(z) }
}

#[test]
fn gamma_is_the_square_root() {
    assert_eq!(linear_to_gamma(fx(0.25)), fx(0.5));
    assert_eq!(linear_to_gamma(fx(1.0)), fx(1.0));
    assert_eq!(linear_to_gamma(fx(0.0)), fx(0.0));
    assert_eq!(linear_to_gamma(fx(-0.5)), fx(0.0));
}

#[test]
fn channels_become_bytes() {
    assert_eq!(channel_byte(fx(0.0)), 0);
    assert_eq!(channel_byte(fx(-1.0)), 0);
    assert_eq!(channel_byte(fx(0.25)), 127);
    assert_eq!(channel_byte(fx(0.5)), 181);
    assert_eq!(channel_byte(fx(1.0)), 255);
    assert_eq!(channel_byte(fx(100.0)), 255);
    assert_eq!(channel_byte(Fixed { raw: i64::MAX }), 255);
    assert_eq!(color_bytes(&vec3(1.0, 0.25, 0.0)), (255, 127, 0));
}

#[test]
fn numbers_are_written_in_decimal() {
    let mut out = vec![b'x'];
    push_decimal(&mut out, 0);
    out.push(b' ');
    push_decimal(&mut out, 7);
    out.push(b' ');
    push_decimal(&mut out, 10);
    out.push(b' ');
    push_decimal(&mut out, 4294967295);
    assert_eq!(out, b"x0 7 10 4294967295".to_vec());
}

#[test]
fn a_colour_is_one_line() {
    let mut out = Vec::new();
    write_color(&mut out, &vec3(1.0, 0.25, 0.0));
    write_color(&mut out, &vec3(0.5, 0.5, 0.5));
    assert_eq!(out, b"255 127 0\n181 181 181\n".to_vec());
}

#[test]
fn the_head_names_the_size() {
    let mut out = Vec::new();
    write_header(&mut out, 400, 225);
    let mut expected = vec![b'P', b'3', b'\n'];
    expected.extend_from_slice(b"400 225\n255\n");
    assert_eq!(out, expected);
}
