use raytrace::camera::{
    pixel_color, random_in_unit_disk, ray_color, render, sky_color, Camera,
};
use raytrace::hittables::{Hittable, Hittables};
use raytrace::map::Texture;
use raytrace::material::Material;
use raytrace::ray::Ray;
use raytrace::scalar::Fixed;
use raytrace::sphere::Sphere;
use raytrace::vector::Vector3;

fn fx(v: f64) -> Fixed {
    Fixed { raw: (v * 1e9).round() as i64 }
}

fn vec3(x: f64, y: f64, z: f64) -> Vector3 {
    Vector3 { x: fx(x), y: fx(y), z: fx(z) }
}

fn val(f: Fixed) -> f64 {
    f.raw as f64 / 1e9
}

fn close(a: Vector3, b: Vector3, tolerance: f64) -> bool {
    (val(a.x) - val(b.x)).abs() <= tolerance
        && (val(a.y) - val(b.y)).abs() <= tolerance
        && (val(a.z) - val(b.z)).abs() <= tolerance
}

fn no_offset() -> (Fixed, Fixed) {
    (fx(0.0), fx(0.0))
}

fn camera(image_width: i32, samples: i32) -> Camera {
    Camera::new(
        vec3(0.0, 0.0, 0.0),
        vec3(0.0, 0.0, -1.0),
        vec3(0.0, 1.0, 0.0),
        fx(0.0),
        fx(1.0),
        Fixed::from_int(16).div(Fixed::from_int(9)),
        image_width,
        fx(90.0),
        samples,
    )
}

fn one_sphere() -> (Hittables, Vec<Material>) {
    let mut scene = Hittables::new();
    scene.add_object(Hittable::Sphere(Sphere::new(vec3(0.0, 0.0, -1.0), fx(0.5), 0)));
    (scene, vec![Material::Diffuse(Texture::Color(vec3(0.8, 0.3, 0.3)))])
}

fn is_sky(colour: Vector3) -> bool {
    colour.z == fx(1.0)
        && colour.x.raw >= 500_000_000
        && colour.x.raw <= colour.y.raw
        && colour.y.raw <= colour.z.raw
}

fn parse(text: &[u8]) -> (usize, usize, Vec<(u8, u8, u8)>) {
    let text = String::from_utf8(text.to_vec()).unwrap();
    let mut lines = text.lines();
    assert_eq!(lines.next().map(|l| l.as_bytes().to_vec()), Some(vec![b'P', b'3']));
    let size: Vec<usize> = lines.next().unwrap().split(' ').map(|w| w.parse().unwrap()).collect();
    assert_eq!(lines.next(), Some("255"));
    let mut pixels = Vec::new();
    for line in lines {
        let c: Vec<u8> = line.split(' ').map(|w| w.parse().unwrap()).collect();
        assert_eq!(c.len(), 3);
        pixels.push((c[0], c[1], c[2]));
    }
    assert!(text.ends_with('\n'));
    (size[0], size[1], pixels)
}

#[test]
fn new_lays_the_pixels_out_on_the_focus_plane() {
    let cam = camera(400, 1);
    assert_eq!(cam.image_width, 400);
    assert_eq!(cam.image_height, 225);
    assert_eq!(cam.center, vec3(0.0, 0.0, 0.0));
    assert_eq!(cam.pixel_sample_count, 1);
    assert_eq!(cam.one_over_pixel_sample_count, fx(1.0));
    let height = 2.0;
    let width = height * 400.0 / 225.0;
    assert!(close(cam.pixel_spacing_u, vec3(width / 400.0, 0.0, 0.0), 1e-7));
    assert!(close(cam.pixel_spacing_v, vec3(0.0, -height / 225.0, 0.0), 1e-7));
    let corner = vec3(-width / 2.0 + width / 800.0, height / 2.0 - height / 450.0, -1.0);
    assert!(close(cam.top_left_pixel, corner, 1e-6));
}

#[test]
fn the_rows_follow_the_ratio_whichever_neighbour_stands_for_it() {
    for ratio in [1_777_777_777i64, 1_777_777_778].iter() {
        let cam = Camera::new(
            vec3(0.0, 0.0, 0.0),
            vec3(0.0, 0.0, -1.0),
            vec3(0.0, 1.0, 0.0),
            fx(0.0),
            fx(1.0),
            Fixed { raw: *ratio },
            400,
            fx(90.0),
            1,
        );
        assert_eq!(cam.image_height, 225);
    }
    for (ratio, width, rows) in [(1.5, 100, 66), (3.0, 100, 33), (2.0, 3, 1), (0.5, 7, 14)].iter() {
        let cam = Camera::new(
            vec3(0.0, 0.0, 0.0),
            vec3(0.0, 0.0, -1.0),
            vec3(0.0, 1.0, 0.0),
            fx(0.0),
            fx(1.0),
            fx(*ratio),
            *width,
            fx(90.0),
            1,
        );
        assert_eq!(cam.image_height, *rows);
    }
}

#[test]
fn the_image_has_at_least_one_row() {
    assert_eq!(camera(1, 1).image_height, 1);
    assert_eq!(camera(0, 1).image_height, 1);
    assert_eq!(camera(16, 4).image_height, 9);
    assert_eq!(camera(16, 4).one_over_pixel_sample_count, fx(0.25));
}

#[test]
fn a_camera_may_look_along_any_axis() {
    let cam = Camera::new(
        vec3(13.0, 2.0, 3.0),
        vec3(0.0, 0.0, 0.0),
        vec3(0.0, 1.0, 0.0),
        fx(0.6),
        fx(10.0),
        Fixed::from_int(16).div(Fixed::from_int(9)),
        400,
        fx(20.0),
        100,
    );
    let middle = cam.ray_through(200, 112, no_offset(), no_offset(), fx(0.0));
    let towards = Vector3::calc_normalized_vector(&middle.direction);
    let expected = Vector3::calc_normalized_vector(&vec3(-13.0, -2.0, -3.0));
    assert!(close(towards, expected, 0.01));
    let radius = 10.0 * (0.3f64.to_radians()).tan();
    assert!((val(cam.defocus_disk_u.magnitude()) - radius).abs() < 1e-6);
    assert!((val(cam.defocus_disk_v.magnitude()) - radius).abs() < 1e-6);
}

#[test]
fn ray_through_aims_at_the_pixel() {
    let cam = camera(400, 1);
    let ray = cam.ray_through(0, 0, no_offset(), (fx(0.5), fx(0.5)), fx(0.75));
    assert_eq!(ray.origin, vec3(0.0, 0.0, 0.0));
    assert_eq!(ray.direction, cam.top_left_pixel);
    assert_eq!(ray.time, fx(0.75));
    let shifted = cam.ray_through(3, 2, (fx(0.5), fx(-0.5)), no_offset(), fx(0.0));
    let expected = cam.top_left_pixel
        .add(cam.pixel_spacing_u.scale(fx(3.5)))
        .add(cam.pixel_spacing_v.scale(fx(1.5)));
    assert_eq!(shifted.direction, expected);
}

#[test]
fn a_lens_moves_the_origin_of_the_ray() {
    let cam = Camera::new(
        vec3(0.0, 0.0, 0.0),
        vec3(0.0, 0.0, -1.0),
        vec3(0.0, 1.0, 0.0),
        fx(90.0),
        fx(2.0),
        fx(1.0),
        10,
        fx(90.0),
        1,
    );
    assert!(close(cam.defocus_disk_u, vec3(2.0, 0.0, 0.0), 1e-6));
    assert!(close(cam.defocus_disk_v, vec3(0.0, 2.0, 0.0), 1e-6));
    let ray = cam.ray_through(5, 5, (fx(-0.5), fx(-0.5)), (fx(0.5), fx(-0.25)), fx(0.0));
    assert!(close(ray.origin, vec3(1.0, -0.5, 0.0), 1e-6));
    assert!(close(ray.origin.add(ray.direction), vec3(0.0, 0.0, -2.0), 1e-6));
}

#[test]
fn the_sky_blends_white_and_blue() {
    let up = Ray { origin: vec3(0.0, 0.0, 0.0), direction: vec3(0.0, 5.0, 0.0), time: fx(0.0) };
    let level = Ray { origin: vec3(0.0, 0.0, 0.0), direction: vec3(2.0, 0.0, 0.0), time: fx(0.0) };
    let down = Ray { origin: vec3(0.0, 0.0, 0.0), direction: vec3(0.0, -0.5, 0.0), time: fx(0.0) };
    assert_eq!(sky_color(&up), vec3(0.5, 0.7, 1.0));
    assert_eq!(sky_color(&level), vec3(0.75, 0.85, 1.0));
    assert_eq!(sky_color(&down), vec3(1.0, 1.0, 1.0));
}

#[test]
fn the_sky_does_not_depend_on_the_length_of_the_direction() {
    let short = Ray { origin: vec3(0.0, 0.0, 0.0), direction: vec3(0.0, 0.00002, 0.0), time: fx(0.0) };
    assert_eq!(sky_color(&short), vec3(0.5, 0.7, 1.0));
    let mut scene = Hittables::new();
    let mut rng = rand::rng();
    assert_eq!(ray_color(&short, &mut scene, &mut rng, &Vec::new(), 1), vec3(0.5, 0.7, 1.0));
    let least = Vector3 { x: Fixed { raw: 1 }, y: Fixed { raw: 0 }, z: Fixed { raw: 0 } };
    let level = Ray { origin: vec3(0.0, 0.0, 0.0), direction: least, time: fx(0.0) };
    assert_eq!(sky_color(&level), vec3(0.75, 0.85, 1.0));
    let long = Ray { origin: vec3(0.0, 0.0, 0.0), direction: vec3(0.0, -4.0e9, 3.0e9), time: fx(0.0) };
    assert_eq!(sky_color(&long), vec3(0.95, 0.97, 1.0));
}

#[test]
fn an_empty_scene_shows_the_sky() {
    let cam = camera(40, 1);
    let mut scene = Hittables::new();
    let materials: Vec<Material> = Vec::new();
    let mut rng = rand::rng();
    for (x, y) in [(0, 0), (20, 11), (39, 21), (7, 3)].iter() {
        let ray = cam.ray_through(*x, *y, no_offset(), no_offset(), fx(0.0));
        assert_eq!(ray_color(&ray, &mut scene, &mut rng, &materials, 5), sky_color(&ray));
        assert_eq!(ray_color(&ray, &mut scene, &mut rng, &materials, 0), Vector3::zero());
    }
}

#[test]
fn the_light_along_a_ray_is_a_colour() {
    let mut scene = Hittables::new();
    scene.add_object(Hittable::Sphere(Sphere::new(vec3(0.0, 0.0, -1.0), fx(0.5), 0)));
    scene.add_object(Hittable::Sphere(Sphere::new(vec3(0.0, -100.5, -1.0), fx(100.0), 1)));
    scene.add_object(Hittable::Sphere(Sphere::new(vec3(1.0, 0.0, -1.0), fx(0.5), 2)));
    scene.add_object(Hittable::Sphere(Sphere::new(vec3(-1.0, 0.0, -1.0), fx(0.5), 3)));
    let materials = vec![
        Material::Diffuse(Texture::Color(vec3(0.1, 0.2, 0.5))),
        Material::Diffuse(Texture::Color(vec3(0.8, 0.8, 0.0))),
        Material::Metal(vec3(0.8, 0.6, 0.2), fx(0.3)),
        Material::Dielectric(fx(1.5)),
    ];
    let cam = camera(40, 1);
    let mut rng = rand::rng();
    for y in 0..22 {
        for x in 0..40 {
            let ray = cam.sample_ray(x, y, &mut rng);
            let colour = ray_color(&ray, &mut scene, &mut rng, &materials, 8);
            for channel in [colour.x, colour.y, colour.z].iter() {
                assert!(channel.raw >= 0 && channel.raw <= 1_000_000_000);
            }
        }
    }
}

#[test]
fn a_used_up_depth_is_black() {
    let (mut scene, materials) = one_sphere();
    let mut rng = rand::rng();
    let ray = Ray { origin: vec3(0.0, 0.0, 0.0), direction: vec3(0.0, 0.0, -1.0), time: fx(0.0) };
    assert_eq!(ray_color(&ray, &mut scene, &mut rng, &materials, 0), Vector3::zero());
    assert_eq!(ray_color(&ray, &mut scene, &mut rng, &materials, -3), Vector3::zero());
    assert_eq!(ray_color(&ray, &mut scene, &mut rng, &materials, 1), Vector3::zero());
}

#[test]
fn light_is_attenuated_by_the_surface() {
    let (mut scene, materials) = one_sphere();
    let mut rng = rand::rng();
    let ray = Ray { origin: vec3(0.0, 0.0, 0.0), direction: vec3(0.0, 0.0, -1.0), time: fx(0.0) };
    for _ in 0..20 {
        let colour = ray_color(&ray, &mut scene, &mut rng, &materials, 2);
        assert!(colour.z.raw <= 300_000_000 && colour.z.raw >= 0);
        assert!(colour.x.raw <= 800_000_000 && colour.x.raw >= 0);
        assert!(colour.x.raw >= colour.y.raw);
    }
}

#[test]
fn one_sphere_before_the_camera_covers_the_centre_and_not_the_corners() {
    let cam = camera(400, 1);
    assert_eq!(cam.image_height, 225);
    let (mut scene, materials) = one_sphere();
    assert!(scene.materials_below(materials.len()));
    let mut rng = rand::rng();
    let centre = pixel_color(&cam, 200, 112, &mut scene, &mut rng, &materials, 1);
    assert_eq!(centre, Vector3::zero());
    assert!(!is_sky(centre));
    for (x, y) in [(0, 0), (399, 0), (0, 224), (399, 224)].iter() {
        let corner = pixel_color(&cam, *x, *y, &mut scene, &mut rng, &materials, 1);
        assert!(is_sky(corner));
        assert_ne!(corner, vec3(0.8, 0.3, 0.3));
    }
    let ray = cam.ray_through(200, 112, no_offset(), no_offset(), fx(0.0));
    let rec = scene.get_hit_record(&ray, fx(0.001), Fixed { raw: i64::MAX }).unwrap();
    assert!((val(rec.t) - 0.5).abs() < 0.01);
}

#[test]
fn render_writes_one_line_for_each_pixel() {
    let cam = camera(32, 2);
    let (mut scene, materials) = one_sphere();
    let mut rng = rand::rng();
    let out = render(&cam, &mut scene, &mut rng, &materials, 1);
    let (width, height, pixels) = parse(&out);
    assert_eq!((width, height), (32, 18));
    assert_eq!(pixels.len(), 32 * 18);
    assert_eq!(pixels[9 * 32 + 16], (0, 0, 0));
    for corner in [0, 31, 17 * 32, 17 * 32 + 31].iter() {
        let (r, g, b) = pixels[*corner];
        assert_eq!(b, 255);
        assert!(r >= 181 && r <= g && g <= b);
    }
}

#[test]
fn render_of_an_empty_scene_is_all_sky() {
    let cam = camera(8, 1);
    let mut scene = Hittables::new();
    let mut rng = rand::rng();
    let out = render(&cam, &mut scene, &mut rng, &Vec::new(), 3);
    let (width, height, pixels) = parse(&out);
    assert_eq!((width, height), (8, 4));
    assert_eq!(pixels.len(), 32);
    for (r, g, b) in pixels.iter() {
        assert_eq!(*b, 255);
        assert!(*r >= 181 && r <= g && g <= b);
    }
}

#[test]
fn the_mean_of_sky_colours_is_a_sky_colour_for_any_number_of_samples() {
    let mut scene = Hittables::new();
    let mut rng = rand::rng();
    for samples in [1, 3, 7, 64].iter() {
        let cam = camera(8, *samples);
        for (x, y) in [(0, 0), (7, 3), (4, 2)].iter() {
            let colour = pixel_color(&cam, *x, *y, &mut scene, &mut rng, &Vec::new(), 2);
            assert_eq!(colour.z, fx(1.0));
            assert!(colour.x.raw >= 500_000_000 && colour.x.raw <= 1_000_000_000);
            assert!(colour.y.raw >= 700_000_000 && colour.y.raw <= 1_000_000_000);
        }
    }
    let none = camera(8, 0);
    assert_eq!(pixel_color(&none, 1, 1, &mut scene, &mut rng, &Vec::new(), 2), Vector3::zero());
}

#[test]
fn render_of_an_image_without_columns_is_only_the_head() {
    let cam = camera(0, 1);
    let mut scene = Hittables::new();
    let mut rng = rand::rng();
    let out = render(&cam, &mut scene, &mut rng, &Vec::new(), 3);
    let mut expected = vec![b'P', b'3', b'\n'];
    expected.extend_from_slice(b"0 1\n255\n");
    assert_eq!(out, expected);
}

#[test]
fn points_of_the_lens_lie_on_the_unit_disk() {
    let mut rng = rand::rng();
    for _ in 0..500 {
        let (x, y) = random_in_unit_disk(&mut rng);
        assert!(val(x) * val(x) + val(y) * val(y) < 1.0 + 1e-8);
    }
}

#[test]
fn sample_rays_pass_through_the_pixels_square() {
    let cam = camera(400, 1);
    let mut rng = rand::rng();
    for _ in 0..200 {
        let ray = cam.sample_ray(10, 20, &mut rng);
        assert_eq!(ray.origin, vec3(0.0, 0.0, 0.0));
        assert!(ray.time.raw >= 0 && ray.time.raw < 1_000_000_000);
        let centre = cam.ray_through(10, 20, no_offset(), no_offset(), fx(0.0)).direction;
        let off = ray.direction.sub(centre);
        assert!(val(off.x).abs() <= val(cam.pixel_spacing_u.x) / 2.0 + 1e-8);
        assert!(val(off.y).abs() <= -val(cam.pixel_spacing_v.y) / 2.0 + 1e-8);
    }
}
