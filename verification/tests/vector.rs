use raytrace::ray::{at, Ray};
use raytrace::scalar::Fixed;
use raytrace::vector::{calc_cross_product, Vector3};
use raytrace::vector_raytrace::{near_zero, reflect, refract};

fn fx(v: f64) -> Fixed {
    Fixed { raw: (v * 1e9).round() as i64 }
}

fn vec3(x: f64, y: f64, z: f64) -> Vector3 {
    Vector3 { x: fx(x), y: fx(y), z: fx(z) }
}

fn val(f: Fixed) -> f64 {
    f.raw as f64 / 1e9
}

fn close(a: Vector3, b: Vector3, tolerance: f64) -> bool {
    (val(a.x) - val(b.x)).abs() <= tolerance
        && (val(a.y) - val(b.y)).abs() <= tolerance
        && (val(a.z) - val(b.z)).abs() <= tolerance
}

#[test]
fn componentwise_operations() {
    let a = vec3(1.0, 2.0, 3.0);
    let b = vec3(4.0, 5.0, 6.0);
    assert_eq!(a.add(b), vec3(5.0, 7.0, 9.0));
    assert_eq!(b.sub(a), vec3(3.0, 3.0, 3.0));
    assert_eq!(a.neg(), vec3(-1.0, -2.0, -3.0));
    assert_eq!(a.scale(fx(2.5)), vec3(2.5, 5.0, 7.5));
    assert_eq!(b.unscale(fx(2.0)), vec3(2.0, 2.5, 3.0));
    assert_eq!(a.hadamard(b), vec3(4.0, 10.0, 18.0));
    assert_eq!(Vector3::zero(), vec3(0.0, 0.0, 0.0));
    assert_eq!(Vector3::new(fx(1.0), fx(2.0), fx(3.0)), a);
}

#[test]
fn dot_and_cross_products() {
    let a = vec3(1.0, 2.0, 3.0);
    let b = vec3(4.0, 5.0, 6.0);
    assert_eq!(Vector3::dot_product(&a, &b), fx(32.0));
    assert_eq!(calc_cross_product(&a, &b), vec3(-3.0, 6.0, -3.0));
    assert_eq!(
        calc_cross_product(&vec3(1.0, 0.0, 0.0), &vec3(0.0, 1.0, 0.0)),
        vec3(0.0, 0.0, 1.0)
    );
}

#[test]
fn magnitude_and_normalisation() {
    let v = vec3(3.0, 4.0, 0.0);
    assert_eq!(v.magnitude_squared(), fx(25.0));
    assert_eq!(v.magnitude(), fx(5.0));
    assert_eq!(Vector3::calc_normalized_vector(&v), vec3(0.6, 0.8, 0.0));
    let mut w = vec3(0.0, -2.0, 0.0);
    w.normalize();
    assert_eq!(w, vec3(0.0, -1.0, 0.0));
    let unit = Vector3::calc_normalized_vector(&vec3(1.0, 2.0, -2.0));
    assert!((val(unit.magnitude()) - 1.0).abs() < 1e-8);
}

#[test]
fn normalising_the_zero_vector_leaves_it_zero() {
    let mut z = Vector3::zero();
    z.normalize();
    assert_eq!(z, Vector3::zero());
}

#[test]
fn near_zero_looks_at_every_component() {
    assert!(near_zero(Vector3::zero()));
    assert!(near_zero(Vector3 { x: Fixed { raw: 9 }, y: Fixed { raw: -9 }, z: Fixed { raw: 0 } }));
    assert!(!near_zero(Vector3 { x: Fixed { raw: 10 }, y: Fixed { raw: 0 }, z: Fixed { raw: 0 } }));
    assert!(!near_zero(Vector3 { x: Fixed { raw: 0 }, y: Fixed { raw: -10 }, z: Fixed { raw: 0 } }));
    assert!(!near_zero(vec3(0.0, 0.0, 1.0)));
}

#[test]
fn reflect_mirrors_in_the_surface() {
    let n = vec3(0.0, 1.0, 0.0);
    assert_eq!(reflect(&vec3(1.0, -1.0, 0.0), &n), vec3(1.0, 1.0, 0.0));
    assert_eq!(reflect(&vec3(0.0, -3.0, 0.0), &n), vec3(0.0, 3.0, 0.0));
    assert_eq!(reflect(&vec3(2.0, 0.0, -1.0), &n), vec3(2.0, 0.0, -1.0));
}

#[test]
fn refract_bends_towards_the_normal_in_a_denser_medium() {
    let n = vec3(0.0, 1.0, 0.0);
    let straight = refract(&vec3(0.0, -1.0, 0.0), &n, fx(1.0));
    assert_eq!(straight, vec3(0.0, -1.0, 0.0));
    let s = 0.5f64;
    let c = (1.0 - s * s).sqrt();
    let eta = 1.0 / 1.5;
    let bent = refract(&vec3(s, -c, 0.0), &n, fx(eta));
    let sin_out = s * eta;
    let expected = vec3(sin_out, -(1.0 - sin_out * sin_out).sqrt(), 0.0);
    assert!(close(bent, expected, 1e-7));
}

#[test]
fn at_walks_along_the_ray() {
    let ray = Ray { origin: vec3(1.0, 2.0, 3.0), direction: vec3(0.5, -1.0, 2.0), time: fx(0.0) };
    assert_eq!(at(&ray, fx(0.0)), vec3(1.0, 2.0, 3.0));
    assert_eq!(at(&ray, fx(1.0)), vec3(1.5, 1.0, 5.0));
    assert_eq!(at(&ray, fx(-2.0)), vec3(0.0, 4.0, -1.0));
}

#[test]
fn the_length_is_the_root_of_the_exact_sum_of_squares() {
    let tiny = Vector3 { x: Fixed { raw: 3 }, y: Fixed { raw: 4 }, z: Fixed { raw: 12 } };
    assert_eq!(tiny.magnitude().raw, 13);
    assert_eq!(Vector3::calc_normalized_vector(&tiny).y.raw, 307_692_307);
    let short = vec3(0.00002, 0.0, 0.0);
    assert_eq!(short.magnitude(), fx(0.00002));
    assert_eq!(Vector3::calc_normalized_vector(&short), vec3(1.0, 0.0, 0.0));
    let long = Vector3 { x: Fixed { raw: i64::MAX }, y: Fixed { raw: i64::MAX }, z: Fixed { raw: 0 } };
    assert_eq!(long.magnitude().raw, i64::MAX);
    let unit = Vector3::calc_normalized_vector(&long);
    assert_eq!(unit.x.raw, 707_106_781);
    assert_eq!(unit.x, unit.y);
    for v in [vec3(1.0, 2.0, 3.0), vec3(-0.001, 0.002, 0.0005), vec3(1e6, -3e7, 2.5e8)].iter() {
        let r = v.magnitude().raw as i128;
        let sum = (v.x.raw as i128).pow(2) + (v.y.raw as i128).pow(2) + (v.z.raw as i128).pow(2);
        assert!(r * r <= sum && sum < (r + 1) * (r + 1));
        assert!((val(Vector3::calc_normalized_vector(v).magnitude()) - 1.0).abs() < 1e-8);
    }
}

#[test]
fn products_are_rounded_once() {
    let a = Vector3 { x: Fixed { raw: 30_000 }, y: Fixed { raw: 30_000 }, z: Fixed { raw: 30_000 } };
    assert_eq!(Vector3::dot_product(&a, &a).raw, 2);
    assert_eq!(a.magnitude_squared().raw, 2);
    let u = Vector3 { x: Fixed { raw: 40_000 }, y: Fixed { raw: 0 }, z: Fixed { raw: 0 } };
    let v = Vector3 { x: Fixed { raw: 10_000 }, y: Fixed { raw: 40_000 }, z: Fixed { raw: 0 } };
    assert_eq!(calc_cross_product(&u, &v).z.raw, 1);
    assert_eq!(calc_cross_product(&v, &u).z.raw, -2);
}
