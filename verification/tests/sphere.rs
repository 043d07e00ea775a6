use raytrace::aabb::Aabb;
use raytrace::ray::Ray;
use raytrace::scalar::Fixed;
use raytrace::sphere::{hit_sphere, Sphere};
use raytrace::vector::Vector3;

fn fx(v: f64) -> Fixed {
    Fixed { raw: (v * 1e9).round() as i64 }
}

fn vec3(x: f64, y: f64, z: f64) -> Vector3 {
    Vector3 { x: fx(x), y: fx(y), z: fx(z) }
}

fn val(f: Fixed) -> f64 {
    f.raw as f64 / 1e9
}

fn far() -> Fixed {
    Fixed { raw: i64::MAX }
}

fn ray(origin: Vector3, direction: Vector3) -> Ray {
    Ray { origin, direction, time: fx(0.0) }
}

#[test]
fn new_sets_the_box_around_the_sphere() {
    let s = Sphere::new(vec3(1.0, 2.0, 3.0), fx(0.5), 4);
    assert_eq!(s.bounding_box, Aabb::new(vec3(0.5, 1.5, 2.5), vec3(1.5, 2.5, 3.5)));
    assert_eq!(s.center.origin, vec3(1.0, 2.0, 3.0));
    assert_eq!(s.center.direction, Vector3::zero());
    assert_eq!(s.radius, fx(0.5));
    assert_eq!(s.material, 4);
}

#[test]
fn new_moving_sets_the_box_around_both_ends() {
    let s = Sphere::new_moving(vec3(0.0, 0.0, 0.0), vec3(0.0, 2.0, 0.0), fx(1.0), 0);
    assert_eq!(s.bounding_box, Aabb::new(vec3(-1.0, -1.0, -1.0), vec3(1.0, 3.0, 1.0)));
    assert_eq!(s.center.direction, vec3(0.0, 2.0, 0.0));
}

#[test]
fn a_ray_aimed_at_the_centre_from_outside_hits_with_an_outward_unit_normal() {
    let centres = [vec3(0.0, 0.0, -1.0), vec3(3.0, -2.0, 5.0), vec3(-7.5, 0.25, 0.5)];
    let origins = [vec3(0.0, 0.0, 0.0), vec3(10.0, 10.0, 10.0), vec3(-1.0, 4.0, -2.0)];
    for centre in centres.iter() {
        for origin in origins.iter() {
            let radius = 0.5;
            let sphere = Sphere::new(*centre, fx(radius), 1);
            let r = ray(*origin, centre.sub(*origin));
            let rec = hit_sphere(&r, &sphere, fx(0.001), far()).unwrap();
            assert!(rec.t.raw > 0);
            assert!(rec.front_face);
            assert!((val(rec.normal.magnitude()) - 1.0).abs() < 1e-6);
            let offset = rec.point.sub(*centre);
            assert!((val(Vector3::dot_product(&rec.normal, &offset)) - radius).abs() < 1e-6);
        }
    }
}

#[test]
fn the_bounds_are_exclusive() {
    let sphere = Sphere::new(vec3(0.0, 0.0, -1.0), fx(0.5), 1);
    let r = ray(vec3(0.0, 0.0, 0.0), vec3(0.0, 0.0, -1.0));
    let near = hit_sphere(&r, &sphere, fx(0.001), far()).unwrap();
    assert_eq!(near.t, fx(0.5));
    assert!(hit_sphere(&r, &sphere, fx(0.001), fx(0.5)).is_none());
    let beyond = hit_sphere(&r, &sphere, fx(0.5), far()).unwrap();
    assert_eq!(beyond.t, fx(1.5));
    assert!(!beyond.front_face);
    assert!(hit_sphere(&r, &sphere, fx(0.5), fx(1.5)).is_none());
    assert!(hit_sphere(&r, &sphere, fx(1.5), far()).is_none());
}

#[test]
fn the_nearer_root_is_taken_first() {
    let sphere = Sphere::new(vec3(0.0, 0.0, -5.0), fx(1.0), 1);
    let r = ray(vec3(0.0, 0.0, 0.0), vec3(0.0, 0.0, -2.0));
    let rec = hit_sphere(&r, &sphere, fx(0.001), far()).unwrap();
    assert_eq!(rec.t, fx(2.0));
    assert_eq!(rec.point, vec3(0.0, 0.0, -4.0));
    assert_eq!(rec.normal, vec3(0.0, 0.0, 1.0));
}

#[test]
fn a_ray_that_passes_by_misses() {
    let sphere = Sphere::new(vec3(0.0, 0.0, -1.0), fx(0.5), 1);
    assert!(hit_sphere(&ray(vec3(0.0, 0.0, 0.0), vec3(0.0, 1.0, 0.0)), &sphere, fx(0.001), far()).is_none());
    assert!(hit_sphere(&ray(vec3(0.0, 0.6, 0.0), vec3(0.0, 0.0, -1.0)), &sphere, fx(0.001), far()).is_none());
    assert!(hit_sphere(&ray(vec3(0.0, 0.0, 0.0), vec3(0.0, 0.0, 1.0)), &sphere, fx(0.001), far()).is_none());
}

#[test]
fn from_inside_the_normal_is_turned_against_the_ray() {
    let sphere = Sphere::new(vec3(0.0, 0.0, 0.0), fx(2.0), 1);
    let rec = hit_sphere(&ray(vec3(0.0, 0.0, 0.0), vec3(1.0, 0.0, 0.0)), &sphere, fx(0.001), far()).unwrap();
    assert_eq!(rec.t, fx(2.0));
    assert!(!rec.front_face);
    assert_eq!(rec.normal, vec3(-1.0, 0.0, 0.0));
}

#[test]
fn a_moving_sphere_is_met_where_it_is_at_the_rays_time() {
    let sphere = Sphere::new_moving(vec3(0.0, 0.0, -2.0), vec3(0.0, 4.0, -2.0), fx(0.5), 1);
    let at_start = Ray { origin: vec3(0.0, 0.0, 0.0), direction: vec3(0.0, 0.0, -1.0), time: fx(0.0) };
    let at_end = Ray { origin: vec3(0.0, 0.0, 0.0), direction: vec3(0.0, 0.0, -1.0), time: fx(1.0) };
    let raised = Ray { origin: vec3(0.0, 4.0, 0.0), direction: vec3(0.0, 0.0, -1.0), time: fx(1.0) };
    assert_eq!(hit_sphere(&at_start, &sphere, fx(0.001), far()).unwrap().t, fx(1.5));
    assert!(hit_sphere(&at_end, &sphere, fx(0.001), far()).is_none());
    assert_eq!(hit_sphere(&raised, &sphere, fx(0.001), far()).unwrap().t, fx(1.5));
}

#[test]
fn surface_coordinates_follow_the_angles() {
    let sphere = Sphere::new(vec3(0.0, 0.0, 0.0), fx(1.0), 1);
    let cases = [
        (vec3(0.0, 0.0, 3.0), 0.25, 0.5),
        (vec3(0.0, 0.0, -3.0), 0.75, 0.5),
        (vec3(3.0, 0.0, 0.0), 0.5, 0.5),
        (vec3(0.0, 3.0, 0.0), 0.5, 1.0),
        (vec3(0.0, -3.0, 0.0), 0.5, 0.0),
    ];
    for (origin, u, v) in cases.iter() {
        let rec = hit_sphere(&ray(*origin, origin.neg()), &sphere, fx(0.001), far()).unwrap();
        assert!((val(rec.v) - v).abs() < 1e-9);
        if *v == 0.5 {
            assert!((val(rec.u) - u).abs() < 1e-9);
        }
        assert!(rec.u.raw >= 0 && rec.u.raw <= 1_000_000_000);
        assert!(rec.v.raw >= 0 && rec.v.raw <= 1_000_000_000);
    }
}

#[test]
fn surface_coordinates_between_the_axes_follow_the_angles() {
    let sphere = Sphere::new(vec3(0.0, 0.0, 0.0), fx(1.0), 1);
    for i in 0..40 {
        for j in 1..20 {
            let phi = 0.157 * i as f64;
            let theta = 0.157 * j as f64;
            let n = (theta.sin() * phi.cos(), -theta.cos(), -theta.sin() * phi.sin());
            let origin = vec3(3.0 * n.0, 3.0 * n.1, 3.0 * n.2);
            let rec = hit_sphere(&ray(origin, origin.neg()), &sphere, fx(0.001), far()).unwrap();
            let u = (-n.2).atan2(n.0) + std::f64::consts::PI;
            assert!((val(rec.v) - theta / std::f64::consts::PI).abs() < 1e-5);
            assert!((val(rec.u) - u / (2.0 * std::f64::consts::PI)).abs() < 1e-5);
        }
    }
}

#[test]
fn the_sphere_before_the_camera_is_hit_at_its_near_pole() {
    let sphere = Sphere::new(vec3(0.0, 0.0, -1.0), fx(0.5), 0);
    let rec = hit_sphere(&ray(vec3(0.0, 0.0, 0.0), vec3(0.0, 0.0, -1.0)), &sphere, fx(0.001), far())
        .unwrap();
    assert_eq!(rec.t, fx(0.5));
    assert_eq!(rec.point, vec3(0.0, 0.0, -0.5));
    assert_eq!(rec.normal, vec3(0.0, 0.0, 1.0));
    assert!(rec.front_face);
    assert_eq!(rec.material, 0);
    assert_eq!(rec.u, fx(0.25));
    assert_eq!(rec.v, fx(0.5));
}

#[test]
fn a_sphere_of_a_hundred_thousandth_is_hit_on_its_surface() {
    let sphere = Sphere::new(vec3(0.0, 0.0, -1.0), fx(0.00001), 3);
    let rec = hit_sphere(&ray(vec3(0.0, 0.0, 0.0), vec3(0.0, 0.0, -1.0)), &sphere, fx(0.0), far())
        .unwrap();
    assert_eq!(rec.t, fx(0.99999));
    assert_eq!(rec.point, vec3(0.0, 0.0, -0.99999));
    assert_eq!(rec.normal, vec3(0.0, 0.0, 1.0));
    assert!(rec.front_face);
    let beyond = hit_sphere(&ray(vec3(0.0, 0.0, 0.0), vec3(0.0, 0.0, -1.0)), &sphere, fx(0.999995), far())
        .unwrap();
    assert_eq!(beyond.t, fx(1.00001));
    assert!(!beyond.front_face);
}

#[test]
fn small_and_distant_spheres_are_hit_where_the_quadratic_says() {
    let cases = [
        (vec3(30.0, -40.0, 120.0), 0.0001),
        (vec3(0.3, 0.4, -1.2), 0.00002),
        (vec3(-700.0, 10.0, 5.0), 0.5),
        (vec3(0.0, -1000.0, 0.0), 999.0),
    ];
    for (centre, radius) in cases.iter() {
        let sphere = Sphere::new(*centre, fx(*radius), 1);
        let r = ray(vec3(0.0, 0.0, 0.0), *centre);
        let rec = hit_sphere(&r, &sphere, fx(0.0), far()).unwrap();
        let distance = val(centre.magnitude());
        assert!((val(rec.t) - (1.0 - radius / distance)).abs() < 2e-9);
        assert!(rec.front_face);
        let off = val(rec.point.sub(*centre).magnitude());
        assert!((off - radius).abs() < 3e-9 * (1.0 + distance));
    }
}
