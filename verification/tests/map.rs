use raytrace::map::{get_map_value, CheckerData, ImageData, ImageError, Texture};
use raytrace::perlin::Perlin;
use raytrace::scalar::Fixed;
use raytrace::vector::Vector3;
use std::rc::Rc;

fn fx(v: f64) -> Fixed {
    Fixed { raw: (v * 1e9).round() as i64 }
}

fn vec3(x: f64, y: f64, z: f64) -> Vector3 {
    Vector3 { x: fx(x), y: fx(y), z: fx(z) }
}

fn val(f: Fixed) -> f64 {
    f.raw as f64 / 1e9
}

fn jpeg() -> Vec<u8> {
    vec![
        255, 216, 255, 219, 0, 67, 0, 1, 1, 1, 1, 1, 1, 1, 1, 1, 1, 1, 1, 1, 1, 1, 1, 1, 1, 1, 1, 1, 1, 1, 1, 1, 1, 1, 1, 1, 1, 1, 1, 1, 1, 1, 1, 1, 1, 1, 1, 1, 1, 1, 1, 1, 1, 1, 1, 1, 1, 1, 1, 1, 1, 1, 1, 1, 1, 1, 1, 1, 1, 1, 1, 255, 192, 0, 17, 8, 0, 8, 0, 8, 3, 1, 17, 0, 2, 17, 0, 3, 17, 0, 255, 196, 0, 31, 0, 0, 1, 5, 1, 1, 1, 1, 1, 1, 0, 0, 0, 0, 0, 0, 0, 0, 1, 2, 3, 4, 5, 6, 7, 8, 9, 10, 11, 255, 196, 0, 20, 16, 0, 1, 0, 0, 0, 0, 0, 0, 0, 0, 0, 0, 0, 0, 0, 0, 0, 255, 218, 0, 12, 3, 1, 0, 2, 0, 3, 0, 0, 63, 0, 250, 192, 248, 124, 253, 160, 63, 255, 217,
    ]
}

fn picture() -> ImageData {
    let pixels = vec![
        255, 0, 0, 0, 255, 0, 0, 0, 255, //
        51, 102, 153, 0, 0, 0, 255, 255, 255,
    ];
    match ImageData::from_pixels(pixels, 3, 2) {
        Ok(image) => image,
        Err(_) => panic!("three bytes per pixel were given"),
    }
}

#[test]
fn a_colour_is_the_same_everywhere() {
    let texture = Texture::Color(vec3(0.1, 0.2, 0.3));
    assert_eq!(get_map_value(&texture, fx(0.3), fx(0.9), vec3(5.0, -4.0, 3.0)), vec3(0.1, 0.2, 0.3));
}

#[test]
fn a_checker_alternates_between_cells() {
    let even = Rc::new(Texture::Color(vec3(1.0, 1.0, 1.0)));
    let odd = Rc::new(Texture::Color(vec3(0.0, 0.0, 0.0)));
    let data = CheckerData::new(fx(0.5), even, odd);
    assert_eq!(data.inv_scale, fx(2.0));
    assert!(data.is_even(vec3(0.1, 0.1, 0.1)));
    assert!(!data.is_even(vec3(0.6, 0.1, 0.1)));
    assert!(data.is_even(vec3(0.6, 0.6, 0.1)));
    assert!(!data.is_even(vec3(-0.1, 0.1, 0.1)));
    assert!(data.is_even(vec3(-0.1, -0.1, 0.1)));
    let texture = Texture::Checker(data);
    assert_eq!(get_map_value(&texture, fx(0.0), fx(0.0), vec3(0.1, 0.1, 0.1)), vec3(1.0, 1.0, 1.0));
    assert_eq!(get_map_value(&texture, fx(0.0), fx(0.0), vec3(0.6, 0.1, 0.1)), vec3(0.0, 0.0, 0.0));
}

#[test]
fn a_checker_may_hold_checkers_and_share_them() {
    let white = Rc::new(Texture::Color(vec3(1.0, 1.0, 1.0)));
    let black = Rc::new(Texture::Color(vec3(0.0, 0.0, 0.0)));
    let fine = Rc::new(Texture::Checker(CheckerData::new(fx(0.25), white.clone(), black)));
    let coarse = Texture::Checker(CheckerData::new(fx(1.0), fine.clone(), white));
    assert_eq!(get_map_value(&coarse, fx(0.0), fx(0.0), vec3(0.1, 0.1, 0.1)), vec3(1.0, 1.0, 1.0));
    assert_eq!(get_map_value(&coarse, fx(0.0), fx(0.0), vec3(0.3, 0.1, 0.1)), vec3(0.0, 0.0, 0.0));
    assert_eq!(get_map_value(&coarse, fx(0.0), fx(0.0), vec3(1.3, 0.1, 0.1)), vec3(1.0, 1.0, 1.0));
}

#[test]
fn a_picture_is_addressed_from_the_bottom_left() {
    let image = picture();
    assert_eq!(image.size(), (3, 2));
    assert_eq!(image.value(fx(0.0), fx(1.0)), vec3(1.0, 0.0, 0.0));
    assert_eq!(image.value(fx(0.4), fx(0.9)), vec3(0.0, 1.0, 0.0));
    assert_eq!(image.value(fx(0.9), fx(0.6)), vec3(0.0, 0.0, 1.0));
    assert_eq!(image.value(fx(0.0), fx(0.2)), vec3(0.2, 0.4, 0.6));
    assert_eq!(image.value(fx(0.5), fx(0.0)), vec3(0.0, 0.0, 0.0));
    assert_eq!(image.value(fx(1.0), fx(0.0)), vec3(1.0, 1.0, 1.0));
}

#[test]
fn surface_coordinates_are_brought_into_the_unit_square() {
    let image = picture();
    assert_eq!(image.value(fx(-3.0), fx(7.0)), vec3(1.0, 0.0, 0.0));
    assert_eq!(image.value(fx(2.0), fx(-1.0)), vec3(1.0, 1.0, 1.0));
    let texture = Texture::Image(image);
    assert_eq!(get_map_value(&texture, fx(0.0), fx(0.2), vec3(9.0, 9.0, 9.0)), vec3(0.2, 0.4, 0.6));
}

#[test]
fn a_picture_needs_three_bytes_for_each_pixel() {
    assert!(matches!(ImageData::from_pixels(vec![0; 17], 3, 2), Err(ImageError::NotRgb)));
    assert!(matches!(ImageData::from_pixels(vec![0; 6], 3, 2), Err(ImageError::NotRgb)));
    assert!(ImageData::from_pixels(vec![0; 18], 3, 2).is_ok());
    assert!(ImageData::from_pixels(Vec::new(), 0, 0).is_ok());
}

#[test]
fn what_a_decoder_delivers_becomes_a_picture_or_an_error() {
    assert!(matches!(ImageData::from_decoded(None), Err(ImageError::Undecodable)));
    assert!(matches!(ImageData::from_decoded(Some((vec![0; 5], 1, 2))), Err(ImageError::NotRgb)));
    let image = match ImageData::from_decoded(Some((vec![255, 0, 51, 0, 255, 102], 1, 2))) {
        Ok(image) => image,
        Err(_) => panic!("three bytes per pixel were delivered"),
    };
    assert_eq!(image.size(), (1, 2));
    assert_eq!(image.value(fx(0.5), fx(0.9)), vec3(1.0, 0.0, 0.2));
    assert_eq!(image.value(fx(0.5), fx(0.1)), vec3(0.0, 1.0, 0.4));
}

#[test]
fn a_picture_without_rows_is_magenta() {
    let empty = match ImageData::from_pixels(Vec::new(), 5, 0) {
        Ok(image) => image,
        Err(_) => panic!("no bytes are right for no pixels"),
    };
    assert_eq!(empty.value(fx(0.5), fx(0.5)), vec3(1.0, 0.0, 1.0));
}

#[test]
fn a_jpeg_file_is_decoded() {
    let image = match ImageData::new(&jpeg()) {
        Ok(image) => image,
        Err(_) => panic!("the file is a valid jpeg"),
    };
    assert_eq!(image.size(), (8, 8));
    for (u, v) in [(0.0, 0.0), (0.5, 0.5), (1.0, 1.0)].iter() {
        let colour = image.value(fx(*u), fx(*v));
        assert!((val(colour.x) * 255.0 - 223.0).abs() <= 3.0);
        assert!((val(colour.y) * 255.0 - 122.0).abs() <= 3.0);
        assert!((val(colour.z) * 255.0 - 100.0).abs() <= 3.0);
    }
}

#[test]
fn bytes_that_are_no_jpeg_are_refused() {
    assert!(matches!(ImageData::new(&vec![1, 2, 3, 4, 5]), Err(ImageError::Undecodable)));
    assert!(matches!(ImageData::new(&Vec::new()), Err(ImageError::Undecodable)));
    let mut cut = jpeg();
    cut.truncate(40);
    assert!(matches!(ImageData::new(&cut), Err(ImageError::Undecodable)));
}

#[test]
fn noise_is_grey() {
    let texture = Texture::Noise(Perlin::new());
    for i in 0..50 {
        let p = vec3(0.37 * i as f64, -1.1 * i as f64, 0.05 * i as f64);
        let colour = get_map_value(&texture, fx(0.0), fx(0.0), p);
        assert_eq!(colour.x, colour.y);
        assert_eq!(colour.y, colour.z);
        assert!(val(colour.x).abs() <= 1.0);
    }
}
