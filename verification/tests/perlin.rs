use raytrace::perlin::Perlin;
use raytrace::scalar::Fixed;
use raytrace::vector::Vector3;

fn fx(v: f64) -> Fixed {
    Fixed { raw: (v * 1e9).round() as i64 }
}

fn vec3(x: f64, y: f64, z: f64) -> Vector3 {
    Vector3 { x: fx(x), y: fx(y), z: fx(z) }
}

fn val(f: Fixed) -> f64 {
    f.raw as f64 / 1e9
}

fn identity() -> Vec<u8> {
    (0..=255u8).collect()
}

fn tables() -> Perlin {
    let mut gradients = vec![vec3(0.0, 0.0, 0.0); 256];
    gradients[0] = vec3(1.0, 0.0, 0.0);
    gradients[1] = vec3(-1.0, 0.0, 0.0);
    gradients[2] = vec3(0.0, 1.0, 0.0);
    gradients[255] = vec3(0.0, 0.0, 1.0);
    match Perlin::from_tables(gradients, identity(), identity(), identity()) {
        Some(perlin) => perlin,
        None => panic!("the tables are full"),
    }
}

#[test]
fn from_tables_wants_full_tables() {
    assert!(Perlin::from_tables(vec![vec3(0.0, 0.0, 0.0); 255], identity(), identity(), identity()).is_none());
    assert!(Perlin::from_tables(vec![vec3(0.0, 0.0, 0.0); 256], vec![0; 3], identity(), identity()).is_none());
    assert!(Perlin::from_tables(vec![vec3(0.0, 0.0, 0.0); 256], identity(), identity(), identity()).is_some());
}

#[test]
fn noise_vanishes_on_the_lattice() {
    let perlin = tables();
    assert_eq!(perlin.noise(&vec3(0.0, 0.0, 0.0)), fx(0.0));
    assert_eq!(perlin.noise(&vec3(1.0, 0.0, 0.0)), fx(0.0));
    assert_eq!(perlin.noise(&vec3(-3.0, 2.0, 7.0)), fx(0.0));
}

#[test]
fn noise_blends_the_gradients_of_the_corners() {
    let perlin = tables();
    assert_eq!(perlin.noise(&vec3(0.5, 0.0, 0.0)), fx(0.5));
    assert_eq!(perlin.noise(&vec3(0.25, 0.0, 0.0)), fx(0.25 * 0.84375 + 0.75 * 0.15625));
    assert_eq!(perlin.noise(&vec3(0.0, 0.5, 0.0)), fx(0.0));
    assert_eq!(perlin.noise(&vec3(0.0, 2.5, 0.0)), fx(0.25));
    assert_eq!(perlin.noise(&vec3(-1.0, 0.0, 0.5)), fx(0.25));
    assert_eq!(perlin.noise(&vec3(-0.5, 0.0, 0.0)), fx(-0.25));
    assert_eq!(perlin.noise(&vec3(255.0, 0.0, 0.5)), fx(0.25));
    assert_eq!(perlin.noise(&vec3(-1.0, 0.0, 0.0)), perlin.noise(&vec3(255.0, 0.0, 0.0)));
}

#[test]
fn the_lattice_repeats_after_the_period() {
    let perlin = Perlin::new();
    for i in 0..20 {
        let p = vec3(0.31 * i as f64 - 3.0, 0.77 * i as f64, -0.13 * i as f64);
        let q = vec3(0.31 * i as f64 - 3.0 + 256.0, 0.77 * i as f64 - 512.0, -0.13 * i as f64);
        assert_eq!(perlin.noise(&p), perlin.noise(&q));
    }
}

#[test]
fn random_noise_stays_between_minus_one_and_one() {
    let perlin = Perlin::new();
    let mut differs = false;
    for i in 0..200 {
        let p = vec3(0.37 * i as f64, -1.01 * i as f64, 0.05 * i as f64 + 0.5);
        let n = val(perlin.noise(&p));
        assert!(n >= -1.0 && n <= 1.0);
        differs = differs || n != 0.0;
    }
    assert!(differs);
}

#[test]
fn generate_perm_is_a_permutation() {
    let mut rng = rand::rng();
    let mut moved = false;
    for _ in 0..10 {
        let perm = Perlin::generate_perm(&mut rng);
        assert_eq!(perm.len(), 256);
        moved = moved || perm != identity();
        let mut sorted = perm.clone();
        sorted.sort();
        assert_eq!(sorted, identity());
        assert_ne!(perm[255], 255);
    }
    assert!(moved);
}

#[test]
fn given_draws_give_a_given_table() {
    let first: Vec<usize> = vec![0; 256];
    let rotated: Vec<u8> = (0..256usize).map(|i| ((i + 1) % 256) as u8).collect();
    assert_eq!(Perlin::perm_from_draws(&first), Some(rotated));
    let mut one = vec![0usize; 256];
    for i in 1..256 {
        one[i] = i - 1;
    }
    let table = Perlin::perm_from_draws(&one).unwrap();
    assert_eq!(table[0], 255);
    for i in 1..256 {
        assert_eq!(table[i] as usize, i - 1);
    }
}

#[test]
fn draws_must_name_earlier_positions() {
    assert_eq!(Perlin::perm_from_draws(&vec![0; 255]), None);
    let mut late = vec![0usize; 256];
    late[7] = 7;
    assert_eq!(Perlin::perm_from_draws(&late), None);
    late[7] = 6;
    assert!(Perlin::perm_from_draws(&late).is_some());
    late[0] = 1000;
    assert!(Perlin::perm_from_draws(&late).is_some());
}
