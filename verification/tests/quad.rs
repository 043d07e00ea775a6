use raytrace::aabb::Aabb;
use raytrace::quad::{hit_quad, Quad};
use raytrace::ray::Ray;
use raytrace::scalar::Fixed;
use raytrace::vector::Vector3;

fn fx(v: f64) -> Fixed {
    Fixed { raw: (v * 1e9).round() as i64 }
}

fn vec3(x: f64, y: f64, z: f64) -> Vector3 {
    Vector3 { x: fx(x), y: fx(y), z: fx(z) }
}

fn far() -> Fixed {
    Fixed { raw: i64::MAX }
}

fn ray(origin: Vector3, direction: Vector3) -> Ray {
    Ray { origin, direction, time: fx(0.0) }
}

fn wall() -> Quad {
    Quad::new(vec3(-1.0, -1.0, -2.0), vec3(2.0, 0.0, 0.0), vec3(0.0, 2.0, 0.0), 3)
}

#[test]
fn new_derives_the_plane() {
    let q = wall();
    assert_eq!(q.normal, vec3(0.0, 0.0, 1.0));
    assert_eq!(q.d, fx(-2.0));
    assert_eq!(q.w, vec3(0.0, 0.0, 0.25));
    assert_eq!(q.material, 3);
    assert_eq!(
        q.bounding_box,
        Aabb { x0: fx(-1.0), x1: fx(1.0), y0: fx(-1.0), y1: fx(1.0), z0: fx(-2.00005), z1: fx(-1.99995) }
    );
}

#[test]
fn a_ray_at_the_middle_hits() {
    let rec = hit_quad(&ray(vec3(0.0, 0.0, 0.0), vec3(0.0, 0.0, -1.0)), &wall(), fx(0.001), far()).unwrap();
    assert_eq!(rec.t, fx(2.0));
    assert_eq!(rec.point, vec3(0.0, 0.0, -2.0));
    assert_eq!(rec.normal, vec3(0.0, 0.0, 1.0));
    assert!(rec.front_face);
    assert_eq!(rec.u, fx(0.5));
    assert_eq!(rec.v, fx(0.5));
    assert_eq!(rec.material, 3);
}

#[test]
fn planar_coordinates_run_along_the_edges() {
    let rec = hit_quad(&ray(vec3(-0.5, 0.5, 0.0), vec3(0.0, 0.0, -1.0)), &wall(), fx(0.001), far()).unwrap();
    assert_eq!(rec.u, fx(0.25));
    assert_eq!(rec.v, fx(0.75));
    let corner = hit_quad(&ray(vec3(-1.0, -1.0, 0.0), vec3(0.0, 0.0, -1.0)), &wall(), fx(0.001), far()).unwrap();
    assert_eq!(corner.u, fx(0.0));
    assert_eq!(corner.v, fx(0.0));
    let opposite = hit_quad(&ray(vec3(1.0, 1.0, 0.0), vec3(0.0, 0.0, -1.0)), &wall(), fx(0.001), far()).unwrap();
    assert_eq!(opposite.u, fx(1.0));
    assert_eq!(opposite.v, fx(1.0));
}

#[test]
fn a_ray_beside_the_quad_misses() {
    assert!(hit_quad(&ray(vec3(1.5, 0.0, 0.0), vec3(0.0, 0.0, -1.0)), &wall(), fx(0.001), far()).is_none());
    assert!(hit_quad(&ray(vec3(0.0, -1.01, 0.0), vec3(0.0, 0.0, -1.0)), &wall(), fx(0.001), far()).is_none());
}

#[test]
fn a_parallel_ray_misses() {
    assert!(hit_quad(&ray(vec3(0.0, 0.0, 0.0), vec3(1.0, 0.0, 0.0)), &wall(), fx(0.001), far()).is_none());
    let nearly = Vector3 { x: fx(1.0), y: fx(0.0), z: Fixed { raw: -9 } };
    assert!(hit_quad(&ray(vec3(0.0, 0.0, 0.0), nearly), &wall(), fx(0.001), far()).is_none());
}

#[test]
fn the_bounds_are_inclusive() {
    let r = ray(vec3(0.0, 0.0, 0.0), vec3(0.0, 0.0, -1.0));
    assert!(hit_quad(&r, &wall(), fx(0.001), fx(2.0)).is_some());
    assert!(hit_quad(&r, &wall(), fx(2.0), far()).is_some());
    assert!(hit_quad(&r, &wall(), fx(0.001), fx(1.999999)).is_none());
    assert!(hit_quad(&r, &wall(), fx(2.000001), far()).is_none());
}

#[test]
fn from_behind_the_normal_is_turned() {
    let rec = hit_quad(&ray(vec3(0.0, 0.0, -5.0), vec3(0.0, 0.0, 1.0)), &wall(), fx(0.001), far()).unwrap();
    assert_eq!(rec.t, fx(3.0));
    assert!(!rec.front_face);
    assert_eq!(rec.normal, vec3(0.0, 0.0, -1.0));
}

#[test]
fn a_small_quad_is_hit_near_its_edge() {
    let q = Quad::new(vec3(0.0, 0.0, -1.0), vec3(0.015, 0.0, 0.0), vec3(0.0, 0.01, 0.0), 2);
    assert_eq!(q.normal, vec3(0.0, 0.0, 1.0));
    assert_eq!(q.d, fx(-1.0));
    let rec = hit_quad(&ray(vec3(0.01485, 0.005, 0.0), vec3(0.0, 0.0, -1.0)), &q, fx(0.001), far())
        .unwrap();
    assert_eq!(rec.t, fx(1.0));
    assert_eq!(rec.u, fx(0.99));
    assert_eq!(rec.v, fx(0.5));
    assert!(hit_quad(&ray(vec3(0.01515, 0.005, 0.0), vec3(0.0, 0.0, -1.0)), &q, fx(0.001), far())
        .is_none());
}

#[test]
fn the_normal_of_a_slanted_quad_has_unit_length() {
    let q = Quad::new(vec3(1.0, 2.0, 3.0), vec3(0.3, 0.0, 0.4), vec3(0.0, 0.002, 0.0), 2);
    let length = q.normal.magnitude().raw;
    assert!((length - 1_000_000_000).abs() <= 2);
    assert_eq!(q.normal, vec3(-0.8, 0.0, 0.6));
}

#[test]
fn quads_of_any_size_are_hit_at_the_coordinates_of_the_point() {
    for scale in [0.00001, 0.001, 1.0, 300.0, 20000.0].iter() {
        let u = vec3(3.0 * scale, 0.0, 4.0 * scale);
        let v = vec3(0.0, 2.0 * scale, 0.0);
        let q = Quad::new(vec3(1.0, 2.0, 3.0), u, v, 0);
        for (alpha, beta) in [(0.25, 0.5), (0.99, 0.01), (0.0, 1.0), (0.5, 0.5)].iter() {
            let target = vec3(1.0, 2.0, 3.0).add(u.scale(fx(*alpha))).add(v.scale(fx(*beta)));
            let origin = target.add(vec3(4.0, 0.0, -3.0));
            let rec = hit_quad(&ray(origin, vec3(-4.0, 0.0, 3.0)), &q, fx(0.001), far()).unwrap();
            let tolerance = (3.0e-9 / scale * 1e9) as i64 + 3;
            assert!((rec.u.raw - fx(*alpha).raw).abs() <= tolerance, "{} {} {:?}", scale, alpha, rec);
            assert!((rec.v.raw - fx(*beta).raw).abs() <= tolerance);
            assert!((rec.t.raw - 1_000_000_000).abs() <= 3);
        }
        let outside = vec3(1.0, 2.0, 3.0).add(u.scale(fx(1.01))).add(v.scale(fx(0.5)));
        let origin = outside.add(vec3(4.0, 0.0, -3.0));
        if *scale >= 0.001 {
            assert!(hit_quad(&ray(origin, vec3(-4.0, 0.0, 3.0)), &q, fx(0.001), far()).is_none());
        }
    }
}
