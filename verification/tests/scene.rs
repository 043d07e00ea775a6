use raytrace::aabb::Aabb;
use raytrace::bvh::{build_bvh, hit_bvh, split_partition, BvhNode, NodeData};
use raytrace::hit_record::HitRecord;
use raytrace::hittable::HittableList;
use raytrace::hittables::{bbox_from_objects, Hittable, Hittables};
use raytrace::quad::Quad;
use raytrace::ray::Ray;
use raytrace::scalar::Fixed;
use raytrace::sphere::{hit_sphere, Sphere};
use raytrace::vector::Vector3;

fn fx(v: f64) -> Fixed {
    Fixed { raw: (v * 1e9).round() as i64 }
}

fn vec3(x: f64, y: f64, z: f64) -> Vector3 {
    Vector3 { x: fx(x), y: fx(y), z: fx(z) }
}

fn val(f: Fixed) -> f64 {
    f.raw as f64 / 1e9
}

fn far() -> Fixed {
    Fixed { raw: i64::MAX }
}

fn blank() -> HitRecord {
    HitRecord {
        point: Vector3::zero(),
        normal: Vector3::zero(),
        t: fx(0.0),
        front_face: false,
        material: usize::MAX,
        u: fx(0.0),
        v: fx(0.0),
    }
}

struct Sequence(u64);

impl Sequence {
    fn next(&mut self) -> f64 {
        self.0 = self.0.wrapping_mul(6364136223846793005).wrapping_add(1442695040888963407);
        ((self.0 >> 11) as f64) / ((1u64 << 53) as f64)
    }

    fn between(&mut self, low: f64, high: f64) -> f64 {
        low + (high - low) * self.next()
    }
}

fn cluttered(count: usize, seed: u64) -> Vec<Hittable> {
    let mut seq = Sequence(seed);
    let mut objects = Vec::new();
    for i in 0..count {
        let centre = vec3(seq.between(-5.0, 5.0), seq.between(-5.0, 5.0), seq.between(-12.0, -2.0));
        if i % 4 == 3 {
            let u = vec3(seq.between(0.3, 1.0), 0.0, seq.between(-0.2, 0.2));
            let v = vec3(0.0, seq.between(0.3, 1.0), seq.between(-0.2, 0.2));
            objects.push(Hittable::Quad(Quad::new(centre, u, v, i)));
        } else if i % 4 == 2 {
            let shift = vec3(0.0, seq.between(0.0, 0.5), 0.0);
            objects.push(Hittable::Sphere(Sphere::new_moving(
                centre,
                centre.add(shift),
                fx(seq.between(0.2, 0.8)),
                i,
            )));
        } else {
            objects.push(Hittable::Sphere(Sphere::new(centre, fx(seq.between(0.2, 0.8)), i)));
        }
    }
    objects
}

fn rays(count: usize, seed: u64) -> Vec<Ray> {
    let mut seq = Sequence(seed);
    let mut out = Vec::new();
    for _ in 0..count {
        out.push(Ray {
            origin: vec3(seq.between(-1.0, 1.0), seq.between(-1.0, 1.0), seq.between(0.0, 2.0)),
            direction: vec3(seq.between(-0.7, 0.7), seq.between(-0.7, 0.7), -1.0),
            time: fx(seq.between(0.0, 1.0)),
        });
    }
    out.push(Ray { origin: vec3(0.0, 0.0, 0.0), direction: vec3(0.0, 0.0, 1.0), time: fx(0.0) });
    out.push(Ray { origin: vec3(0.0, 50.0, 0.0), direction: vec3(1.0, 0.0, 0.0), time: fx(0.5) });
    out
}

#[test]
fn ray_through_the_centre_hits_the_near_side() {
    let sphere = Sphere::new(vec3(0.0, 0.0, -1.0), fx(0.5), 7);
    let ray = Ray { origin: vec3(0.0, 0.0, 0.0), direction: vec3(0.0, 0.0, -1.0), time: fx(0.0) };
    let rec = hit_sphere(&ray, &sphere, fx(0.001), far()).unwrap();
    assert!((val(rec.t) - 0.5).abs() < 1e-6);
    assert!(rec.front_face);
    assert_eq!(rec.material, 7);
    assert!((val(rec.normal.z) - 1.0).abs() < 1e-6);
    assert!((val(rec.point.z) + 0.5).abs() < 1e-6);
}

#[test]
fn empty_scene_is_never_hit() {
    let mut scene = Hittables::new();
    assert_eq!(scene.len(), 0);
    for ray in rays(20, 5).iter() {
        assert!(scene.get_hit_record(ray, fx(0.001), far()).is_none());
    }
}

#[test]
fn nearest_of_many_spheres_is_found() {
    let mut scene = Hittables::new();
    for i in 0..20 {
        let z = -2.0 - i as f64;
        let handle = scene.add_object(Hittable::Sphere(Sphere::new(vec3(0.0, 0.0, z), fx(0.25), i)));
        assert_eq!(handle, i);
    }
    assert_eq!(scene.len(), 20);
    let ray = Ray { origin: vec3(0.0, 0.0, 0.0), direction: vec3(0.0, 0.0, -1.0), time: fx(0.0) };
    let rec = scene.get_hit_record(&ray, fx(0.001), far()).unwrap();
    assert_eq!(rec.material, 0);
    assert!((val(rec.t) - 1.75).abs() < 1e-6);
    let away = Ray { origin: vec3(0.0, 0.0, 0.0), direction: vec3(0.0, 1.0, 0.0), time: fx(0.0) };
    assert!(scene.get_hit_record(&away, fx(0.001), far()).is_none());
}

#[test]
fn the_upper_bound_cuts_the_search_off() {
    let mut scene = Hittables::new();
    scene.add_object(Hittable::Sphere(Sphere::new(vec3(0.0, 0.0, -3.0), fx(0.5), 0)));
    scene.add_object(Hittable::Sphere(Sphere::new(vec3(0.0, 0.0, -6.0), fx(0.5), 1)));
    scene.add_object(Hittable::Sphere(Sphere::new(vec3(0.0, 0.0, -9.0), fx(0.5), 2)));
    let ray = Ray { origin: vec3(0.0, 0.0, 0.0), direction: vec3(0.0, 0.0, -1.0), time: fx(0.0) };
    assert!(scene.get_hit_record(&ray, fx(0.001), fx(2.5)).is_none());
    assert_eq!(scene.get_hit_record(&ray, fx(0.001), fx(2.6)).unwrap().material, 0);
    assert_eq!(scene.get_hit_record(&ray, fx(4.0), far()).unwrap().material, 1);
    assert_eq!(scene.get_hit_record(&ray, fx(7.0), far()).unwrap().material, 2);
}

#[test]
fn a_scene_of_one_or_two_primitives_is_searched() {
    let ray = Ray { origin: vec3(0.0, 0.0, 0.0), direction: vec3(0.0, 0.0, -1.0), time: fx(0.0) };
    let mut one = Hittables::new();
    one.add_object(Hittable::Sphere(Sphere::new(vec3(0.0, 0.0, -3.0), fx(0.5), 4)));
    assert_eq!(one.get_hit_record(&ray, fx(0.001), far()).unwrap().material, 4);
    let mut two = Hittables::new();
    two.add_object(Hittable::Sphere(Sphere::new(vec3(0.0, 0.0, -6.0), fx(0.5), 5)));
    two.add_object(Hittable::Quad(Quad::new(
        vec3(-1.0, -1.0, -2.0),
        vec3(2.0, 0.0, 0.0),
        vec3(0.0, 2.0, 0.0),
        6,
    )));
    let rec = two.get_hit_record(&ray, fx(0.001), far()).unwrap();
    assert_eq!(rec.material, 6);
    assert_eq!(rec.t, fx(2.0));
}

#[test]
fn adding_a_primitive_rebuilds_the_hierarchy() {
    let ray = Ray { origin: vec3(0.0, 0.0, 0.0), direction: vec3(0.0, 0.0, -1.0), time: fx(0.0) };
    let mut scene = Hittables::new();
    for i in 0..5 {
        scene.add_object(Hittable::Sphere(Sphere::new(vec3(0.0, 0.0, -10.0 - i as f64), fx(0.4), i)));
    }
    assert_eq!(scene.get_hit_record(&ray, fx(0.001), far()).unwrap().material, 0);
    let handle = scene.add_object(Hittable::Sphere(Sphere::new(vec3(0.0, 0.0, -3.0), fx(0.4), 9)));
    assert_eq!(handle, 5);
    assert_eq!(scene.get_hit_record(&ray, fx(0.001), far()).unwrap().material, 9);
}

#[test]
fn the_hierarchy_agrees_with_a_scan_of_the_list() {
    for (count, seed) in [(1usize, 11u64), (2, 12), (3, 13), (7, 14), (40, 15), (150, 16)].iter() {
        let objects = cluttered(*count, *seed);
        let mut scene = Hittables::new();
        let mut list = HittableList { objects: Vec::new() };
        for object in objects.iter() {
            scene.add_object(*object);
            list.add(*object);
        }
        let mut hits = 0;
        for ray in rays(200, *seed + 100).iter() {
            let found = scene.get_hit_record(ray, fx(0.001), far());
            let mut scanned = blank();
            let any = list.hit(ray, fx(0.001), far(), &mut scanned);
            assert_eq!(found.is_some(), any);
            if let Some(rec) = found {
                hits += 1;
                assert_eq!(rec.t, scanned.t);
                assert_eq!(rec.material, scanned.material);
                assert_eq!(rec.point, scanned.point);
                assert_eq!(rec, scanned);
            }
        }
        if *count >= 40 {
            assert!(hits > 20);
        }
    }
}

#[test]
fn the_list_keeps_the_nearest_hit_and_leaves_the_record_on_a_miss() {
    let mut list = HittableList { objects: Vec::new() };
    list.add(Sphere::new(vec3(0.0, 0.0, -6.0), fx(0.5), 1));
    list.add(Sphere::new(vec3(0.0, 0.0, -3.0), fx(0.5), 2));
    list.add(Sphere::new(vec3(0.0, 0.0, -9.0), fx(0.5), 3));
    let ray = Ray { origin: vec3(0.0, 0.0, 0.0), direction: vec3(0.0, 0.0, -1.0), time: fx(0.0) };
    let mut rec = blank();
    assert!(list.hit(&ray, fx(0.001), far(), &mut rec));
    assert_eq!(rec.material, 2);
    assert_eq!(rec.t, fx(2.5));
    let away = Ray { origin: vec3(0.0, 0.0, 0.0), direction: vec3(0.0, 1.0, 0.0), time: fx(0.0) };
    let mut untouched = blank();
    assert!(!list.hit(&away, fx(0.001), far(), &mut untouched));
    assert_eq!(untouched, blank());
    list.clear();
    assert!(list.objects.is_empty());
    assert!(!list.hit(&ray, fx(0.001), far(), &mut untouched));
}

#[test]
fn set_face_normal_turns_the_normal_against_the_ray() {
    let ray = Ray { origin: vec3(0.0, 0.0, 0.0), direction: vec3(0.0, 0.0, -1.0), time: fx(0.0) };
    let mut rec = blank();
    rec.set_face_normal(&ray, &vec3(0.0, 0.0, 1.0));
    assert!(rec.front_face);
    assert_eq!(rec.normal, vec3(0.0, 0.0, 1.0));
    rec.set_face_normal(&ray, &vec3(0.0, 0.0, -1.0));
    assert!(!rec.front_face);
    assert_eq!(rec.normal, vec3(0.0, 0.0, 1.0));
    assert_eq!(rec.material, usize::MAX);
}

#[test]
fn split_partition_sorts_along_the_axis_and_halves() {
    let objects = vec![
        Hittable::Sphere(Sphere::new(vec3(5.0, 0.0, 1.0), fx(0.5), 0)),
        Hittable::Sphere(Sphere::new(vec3(1.0, 9.0, 5.0), fx(0.5), 1)),
        Hittable::Sphere(Sphere::new(vec3(3.0, 4.0, 2.0), fx(0.5), 2)),
        Hittable::Sphere(Sphere::new(vec3(2.0, 6.0, 4.0), fx(0.5), 3)),
        Hittable::Sphere(Sphere::new(vec3(4.0, 2.0, 3.0), fx(0.5), 4)),
    ];
    let all = vec![0usize, 1, 2, 3, 4];
    assert_eq!(split_partition(&objects, all.clone(), 0), (vec![1, 3], vec![2, 4, 0]));
    assert_eq!(split_partition(&objects, all.clone(), 1), (vec![0, 4], vec![2, 3, 1]));
    assert_eq!(split_partition(&objects, all.clone(), 2), (vec![0, 2], vec![4, 3, 1]));
    assert_eq!(split_partition(&objects, vec![4, 0], 0), (vec![4], vec![0]));
}

#[test]
fn split_partition_keeps_the_order_of_equal_keys() {
    let objects = vec![
        Hittable::Sphere(Sphere::new(vec3(1.0, 0.0, 0.0), fx(0.5), 0)),
        Hittable::Sphere(Sphere::new(vec3(1.0, 1.0, 0.0), fx(0.5), 1)),
        Hittable::Sphere(Sphere::new(vec3(0.0, 2.0, 0.0), fx(0.5), 2)),
        Hittable::Sphere(Sphere::new(vec3(1.0, 3.0, 0.0), fx(0.5), 3)),
    ];
    assert_eq!(split_partition(&objects, vec![3, 1, 0, 2], 0), (vec![2, 3], vec![1, 0]));
}

#[test]
fn bbox_from_objects_encloses_every_primitive() {
    let objects = cluttered(12, 3);
    let handles: Vec<usize> = (0..12).collect();
    let all = bbox_from_objects(&objects, &handles);
    for object in objects.iter() {
        let b = object.get_bounding_box();
        assert!(all.x0.raw <= b.x0.raw && b.x1.raw <= all.x1.raw);
        assert!(all.y0.raw <= b.y0.raw && b.y1.raw <= all.y1.raw);
        assert!(all.z0.raw <= b.z0.raw && b.z1.raw <= all.z1.raw);
    }
    assert_eq!(bbox_from_objects(&objects, &vec![5]), objects[5].get_bounding_box());
}

#[test]
fn build_bvh_puts_every_primitive_on_a_leaf_below_its_boxes() {
    let mut rng = rand::rng();
    for count in [1usize, 2, 3, 4, 5, 8, 33].iter() {
        let objects = cluttered(*count, 77);
        let nodes = build_bvh(&objects, &mut rng);
        let mut seen = vec![0usize; *count];
        let mut stack = vec![0usize];
        while let Some(i) = stack.pop() {
            match nodes[i] {
                BvhNode::Node(d) => {
                    assert!(d.left > i && d.right > i);
                    if d.left != d.right {
                        stack.push(d.right);
                    }
                    stack.push(d.left);
                }
                BvhNode::Object(k) => seen[k] += 1,
            }
        }
        assert!(seen.iter().all(|n| *n == 1));
        let ray = Ray { origin: vec3(0.0, 0.0, 0.0), direction: vec3(0.0, 0.0, -1.0), time: fx(0.0) };
        let mut list = HittableList { objects: objects.clone() };
        let mut scanned = blank();
        let any = list.hit(&ray, fx(0.001), far(), &mut scanned);
        let found = hit_bvh(&objects, &nodes, &ray, fx(0.001), far());
        assert_eq!(found.is_some(), any);
        list.clear();
    }
}

#[test]
fn a_hierarchy_over_one_or_two_primitives_is_a_root_and_leaves() {
    let mut rng = rand::rng();
    let one = vec![Hittable::Sphere(Sphere::new(vec3(1.0, 2.0, 3.0), fx(0.5), 0))];
    let nodes = build_bvh(&one, &mut rng);
    assert_eq!(
        nodes,
        vec![
            BvhNode::Node(NodeData { left: 1, right: 1, bbox: one[0].get_bounding_box() }),
            BvhNode::Object(0),
        ]
    );
    let two = vec![
        Hittable::Sphere(Sphere::new(vec3(1.0, 2.0, 3.0), fx(0.5), 0)),
        Hittable::Sphere(Sphere::new(vec3(-1.0, 2.0, 5.0), fx(1.0), 0)),
    ];
    let nodes = build_bvh(&two, &mut rng);
    let around = Aabb { x0: fx(-2.0), x1: fx(1.5), y0: fx(1.0), y1: fx(3.0), z0: fx(2.5), z1: fx(6.0) };
    assert_eq!(
        nodes,
        vec![
            BvhNode::Node(NodeData { left: 1, right: 2, bbox: around }),
            BvhNode::Object(0),
            BvhNode::Object(1),
        ]
    );
    let three = cluttered(3, 9);
    let nodes = build_bvh(&three, &mut rng);
    assert_eq!(nodes.len(), 6);
    assert!(matches!(nodes[0], BvhNode::Node(NodeData { left: 1, right: 2, .. })));
    assert!(matches!(nodes[1], BvhNode::Node(NodeData { left: 5, right: 5, .. })));
    assert!(matches!(nodes[2], BvhNode::Node(NodeData { left: 3, right: 4, .. })));
}

fn leaves_below(nodes: &[BvhNode], i: usize) -> Vec<usize> {
    match nodes[i] {
        BvhNode::Object(k) => vec![k],
        BvhNode::Node(d) => {
            let mut all = leaves_below(nodes, d.left);
            if d.right != d.left {
                all.extend(leaves_below(nodes, d.right));
            }
            all
        }
    }
}

#[test]
fn every_inner_node_halves_its_primitives_along_an_axis() {
    let mut rng = rand::rng();
    let objects = cluttered(37, 21);
    let nodes = build_bvh(&objects, &mut rng);
    let mut splits = 0;
    for i in 0..nodes.len() {
        if let BvhNode::Node(d) = nodes[i] {
            let all = leaves_below(&nodes, i);
            let handles: Vec<usize> = all.clone();
            assert_eq!(d.bbox, bbox_from_objects(&objects, &handles));
            if all.len() > 2 {
                splits += 1;
                let left = leaves_below(&nodes, d.left);
                let right = leaves_below(&nodes, d.right);
                assert_eq!(left.len(), all.len() / 2);
                assert_eq!(left.len() + right.len(), all.len());
                let along = (0..3u8).any(|axis| {
                    let key = |k: &usize| objects[*k].axis_key(axis);
                    left.iter().map(key).max().unwrap() <= right.iter().map(key).min().unwrap()
                });
                assert!(along);
            }
        }
    }
    assert!(splits >= 10);
}

#[test]
fn a_search_passes_over_handles_that_lead_nowhere() {
    let objects = vec![Hittable::Sphere(Sphere::new(vec3(0.0, 0.0, -3.0), fx(0.5), 4))];
    let ray = Ray { origin: vec3(0.0, 0.0, 0.0), direction: vec3(0.0, 0.0, -1.0), time: fx(0.0) };
    let everything = Aabb::new(vec3(-9.0, -9.0, -9.0), vec3(9.0, 9.0, 9.0));
    assert!(hit_bvh(&objects, &Vec::new(), &ray, fx(0.001), far()).is_none());
    let looped = vec![BvhNode::Node(NodeData { left: 0, right: 0, bbox: everything })];
    assert!(hit_bvh(&objects, &looped, &ray, fx(0.001), far()).is_none());
    let dangling = vec![
        BvhNode::Node(NodeData { left: 1, right: 7, bbox: everything }),
        BvhNode::Object(0),
    ];
    assert!(hit_bvh(&objects, &dangling, &ray, fx(0.001), far()).is_none());
    let stray = vec![
        BvhNode::Node(NodeData { left: 1, right: 2, bbox: everything }),
        BvhNode::Object(3),
        BvhNode::Object(0),
    ];
    assert_eq!(hit_bvh(&objects, &stray, &ray, fx(0.001), far()).unwrap().material, 4);
    assert_eq!(hit_bvh(&objects, &vec![BvhNode::Object(0)], &ray, fx(0.001), far()).unwrap().t, fx(2.5));
}

#[test]
fn materials_below_checks_every_handle() {
    let mut scene = Hittables::new();
    assert!(scene.materials_below(0));
    scene.add_object(Hittable::Sphere(Sphere::new(vec3(0.0, 0.0, -3.0), fx(0.5), 2)));
    scene.add_object(Hittable::Quad(Quad::new(
        vec3(-1.0, -1.0, -2.0),
        vec3(2.0, 0.0, 0.0),
        vec3(0.0, 2.0, 0.0),
        4,
    )));
    assert!(scene.materials_below(5));
    assert!(!scene.materials_below(4));
    assert!(!scene.materials_below(2));
}
