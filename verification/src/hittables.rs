//! The scene: a table of primitives and a bounding volume hierarchy over them.
use vstd::prelude::*;
use crate::aabb::Aabb;
use crate::bvh::{
    boxes_admit_hits, build_bvh, hit_bvh, is_built_hierarchy, is_hit_of_some,
    lemma_bvh_agrees_with_scan, lemma_bvh_hit_is_direct, spec_hit_bvh, tree_valid, BvhNode,
};
use crate::hit_record::HitRecord;
use crate::hittable::spec_scan;
use crate::quad::{hit_quad, lemma_hit_quad_range, spec_hit_quad, Quad};
use crate::random::thread_rng;
use crate::ray::Ray;
use crate::scalar::Fixed;
use crate::sphere::{hit_sphere, lemma_hit_sphere_range, spec_hit_sphere, Sphere};
use rand::rngs::ThreadRng;

verus! {

/// A primitive of the scene.
#[derive(Clone, Copy, Debug, PartialEq, Eq, Structural)]
pub enum Hittable {
    Sphere(Sphere),
    Quad(Quad),
}

impl Hittable {
    /// The box the primitive was given when it was made.
    pub open spec fn spec_bounding_box(self) -> Aabb {
        match self {
            Hittable::Sphere(sphere) => sphere.bounding_box,
            Hittable::Quad(quad) => quad.bounding_box,
        }
    }

    pub fn get_bounding_box(&self) -> (r: Aabb)
        ensures
            r == self.spec_bounding_box(),
    {
        match self {
            Hittable::Sphere(sphere) => sphere.bounding_box,
            Hittable::Quad(quad) => quad.bounding_box,
        }
    }

    /// The handle of the primitive's material.
    pub open spec fn spec_material(self) -> usize {
        match self {
            Hittable::Sphere(sphere) => sphere.material,
            Hittable::Quad(quad) => quad.material,
        }
    }

    /// The primitive's own intersection test.
    #[verifier::opaque]
    pub open spec fn spec_hit(self, ray_in: Ray, tmin: Fixed, tmax: Fixed) -> Option<HitRecord> {
        match self {
            Hittable::Sphere(sphere) => spec_hit_sphere(ray_in, sphere, tmin, tmax),
            Hittable::Quad(quad) => spec_hit_quad(ray_in, quad, tmin, tmax),
        }
    }

    pub fn hit(&self, ray_in: &Ray, tmin: Fixed, tmax: Fixed) -> (r: Option<HitRecord>)
        ensures
            r == self.spec_hit(*ray_in, tmin, tmax),
            r matches Some(rec) ==> rec.material == self.spec_material(),
    {
        reveal(Hittable::spec_hit);
        match self {
            Hittable::Sphere(sphere) => hit_sphere(ray_in, sphere, tmin, tmax),
            Hittable::Quad(quad) => hit_quad(ray_in, quad, tmin, tmax),
        }
    }

    /// The lower bound of the primitive's box along axis 0, 1 or 2 (x, y, z), by
    /// which partitions are sorted.
    pub open spec fn spec_axis_key(self, axis: u8) -> i64 {
        let b = self.spec_bounding_box();
        if axis == 0 {
            b.x0.raw
        } else if axis == 1 {
            b.y0.raw
        } else {
            b.z0.raw
        }
    }

    pub fn axis_key(&self, axis: u8) -> (r: i64)
        ensures
            r == self.spec_axis_key(axis),
    {
        let b = self.get_bounding_box();
        if axis == 0 {
            b.x0.raw
        } else if axis == 1 {
            b.y0.raw
        } else {
            b.z0.raw
        }
    }
}

/// The boxes of the primitives named by `handles`, merged from the left: the first
/// alone when there is one, else the first two merged and then every box merged in.
pub open spec fn spec_merge_boxes(objects: Seq<Hittable>, handles: Seq<usize>, acc: Aabb, from: int)
    -> Aabb
    decreases handles.len() - from,
{
    if 0 <= from < handles.len() {
        spec_merge_boxes(
            objects,
            handles,
            Aabb::spec_from_boxes(acc, objects[handles[from] as int].spec_bounding_box()),
            from + 1,
        )
    } else {
        acc
    }
}

/// The box around the primitives named by `handles`.
pub open spec fn spec_bbox_from_objects(objects: Seq<Hittable>, handles: Seq<usize>) -> Aabb {
    if handles.len() == 1 {
        objects[handles[0] as int].spec_bounding_box()
    } else {
        spec_merge_boxes(
            objects,
            handles,
            Aabb::spec_from_boxes(
                objects[handles[0] as int].spec_bounding_box(),
                objects[handles[1] as int].spec_bounding_box(),
            ),
            0,
        )
    }
}

/// Whether every handle names a primitive.
pub open spec fn handles_in_range(handles: Seq<usize>, count: int) -> bool {
    forall|j: int| 0 <= j < handles.len() ==> (#[trigger] handles[j]) < count
}

/// Constructs the box around a non-empty list of primitives.
pub fn bbox_from_objects(objects: &Vec<Hittable>, handles: &Vec<usize>) -> (r: Aabb)
    requires
        handles.len() >= 1,
        handles_in_range(handles@, objects.len() as int),
    ensures
        r == spec_bbox_from_objects(objects@, handles@),
        forall|j: int|
            0 <= j < handles.len() ==> r.encloses(
                #[trigger] objects[handles[j] as int].spec_bounding_box(),
            ),
{
    if handles.len() == 1 {
        objects[handles[0]].get_bounding_box()
    } else {
        let mut result = Aabb::from_boxes(
            &objects[handles[0]].get_bounding_box(),
            &objects[handles[1]].get_bounding_box(),
        );
        let ghost start = result;
        let mut i: usize = 0;
        while i < handles.len()
            invariant
                i <= handles.len(),
                handles_in_range(handles@, objects.len() as int),
                spec_merge_boxes(objects@, handles@, result, i as int) == spec_merge_boxes(
                    objects@,
                    handles@,
                    start,
                    0,
                ),
                forall|j: int|
                    0 <= j < i ==> result.encloses(
                        #[trigger] objects[handles[j] as int].spec_bounding_box(),
                    ),
            decreases handles.len() - i,
        {
            let merged = Aabb::from_boxes(&result, &objects[handles[i]].get_bounding_box());
            result = merged;
            i += 1;
        }
        result
    }
}

impl crate::hittable::Hittable for Hittable {
    open spec fn outcome(&self, r: Ray, ray_tmin: Fixed, ray_tmax: Fixed) -> Option<HitRecord> {
        self.spec_hit(r, ray_tmin, ray_tmax)
    }

    fn hit(&self, r: &Ray, ray_tmin: Fixed, ray_tmax: Fixed, rec: &mut HitRecord) -> (found: bool) {
        match Hittable::hit(self, r, ray_tmin, ray_tmax) {
            Some(record) => {
                *rec = record;
                true
            },
            None => false,
        }
    }
}

/// How a primitive's test depends on the upper bound: a hit found under a bound `c`
/// is also found, unchanged, under any larger bound `tmax`; a hit found under `tmax`
/// whose parameter is below `c` is also found under `c`; and a hit does not lie
/// beyond the bounds.
pub proof fn lemma_hit_range(object: Hittable, ray_in: Ray, tmin: Fixed, c: Fixed, tmax: Fixed)
    requires
        c.raw <= tmax.raw,
    ensures
        object.spec_hit(ray_in, tmin, c) matches Some(h) ==> tmin.raw <= h.t.raw <= c.raw
            && object.spec_hit(ray_in, tmin, tmax) == Some(h),
        object.spec_hit(ray_in, tmin, tmax) matches Some(g) ==> (g.t.raw < c.raw
            ==> object.spec_hit(ray_in, tmin, c) == Some(g)),
{
    reveal(Hittable::spec_hit);
    match object {
        Hittable::Sphere(sphere) => lemma_hit_sphere_range(ray_in, sphere, tmin, c, tmax),
        Hittable::Quad(quad) => lemma_hit_quad_range(ray_in, quad, tmin, c, tmax),
    }
}

/// A hit carries the material of the primitive that reports it.
pub proof fn lemma_hit_material(object: Hittable, ray_in: Ray, tmin: Fixed, tmax: Fixed)
    ensures
        object.spec_hit(ray_in, tmin, tmax) matches Some(rec) ==> rec.material
            == object.spec_material(),
{
    reveal(Hittable::spec_hit);
}

/// Whether `material` is the material handle of one of the primitives.
pub open spec fn material_of_some(objects: Seq<Hittable>, material: usize) -> bool {
    exists|k: int| 0 <= k < objects.len() && (#[trigger] objects[k]).spec_material() == material
}

/// Whether every primitive's material handle is below `count`.
pub open spec fn materials_below(objects: Seq<Hittable>, count: int) -> bool {
    forall|k: int| 0 <= k < objects.len() ==> (#[trigger] objects[k]).spec_material() < count
}

/// The nearest hit of the ray in a scene with the given hierarchy: none in a scene
/// without primitives, else what a search of the hierarchy finds.
pub open spec fn spec_scene_hit(
    objects: Seq<Hittable>,
    nodes: Seq<BvhNode>,
    ray_in: Ray,
    tmin: Fixed,
    tmax: Fixed,
) -> Option<HitRecord> {
    if objects.len() == 0 {
        None
    } else {
        spec_hit_bvh(objects, nodes, ray_in, tmin, tmax)
    }
}

/// A scene: the primitives, in the order in which they were added, and a hierarchy
/// over them that is built when the scene is first searched and discarded whenever a
/// primitive is added.
pub struct Hittables {
    objects: Vec<Hittable>,
    bvh_nodes: Vec<BvhNode>,
    root: Option<usize>,
    rng: ThreadRng,
}

impl Hittables {
    /// A stored root names node 0 of a hierarchy over the scene's primitives.
    #[verifier::type_invariant]
    spec fn root_names_hierarchy(self) -> bool {
        self.root matches Some(root) ==> root == 0 && is_built_hierarchy(
            self.bvh_nodes@,
            self.objects@,
        )
    }

    /// The primitives of the scene; a primitive's handle is its position.
    pub closed spec fn objects(self) -> Seq<Hittable> {
        self.objects@
    }

    /// The nodes of the hierarchy, if it is built.
    pub closed spec fn nodes(self) -> Seq<BvhNode> {
        self.bvh_nodes@
    }

    /// Whether the hierarchy is built and up to date.
    pub closed spec fn built(self) -> bool {
        self.root is Some
    }

    /// Whether the scene is ready to be searched: its hierarchy is built, or it has no
    /// primitives and needs none.
    pub open spec fn settled(self) -> bool {
        self.built() || self.objects().len() == 0
    }

    /// An empty scene.
    pub fn new() -> (r: Hittables)
        ensures
            r.objects() == Seq::<Hittable>::empty(),
            !r.built(),
    {
        Hittables { objects: Vec::new(), bvh_nodes: Vec::new(), root: None, rng: thread_rng() }
    }

    /// Adds a primitive and returns its handle. The hierarchy is discarded.
    pub fn add_object(&mut self, object: Hittable) -> (handle: usize)
        ensures
            final(self).objects() == old(self).objects().push(object),
            handle == old(self).objects().len(),
            !final(self).built(),
    {
        self.root = None;
        let mut objects: Vec<Hittable> = Vec::new();
        core::mem::swap(&mut self.objects, &mut objects);
        let handle = objects.len();
        objects.push(object);
        core::mem::swap(&mut self.objects, &mut objects);
        handle
    }

    /// Whether every primitive's material handle is below `count`, the length of the
    /// table of materials that the scene is to be rendered with.
    pub fn materials_below(&self, count: usize) -> (r: bool)
        ensures
            r == materials_below(self.objects(), count as int),
    {
        let mut k: usize = 0;
        while k < self.objects.len()
            invariant
                k <= self.objects.len(),
                forall|j: int| 0 <= j < k ==> (#[trigger] self.objects@[j]).spec_material() < count,
            decreases self.objects.len() - k,
        {
            let material: usize = match &self.objects[k] {
                Hittable::Sphere(sphere) => sphere.material,
                Hittable::Quad(quad) => quad.material,
            };
            if material >= count {
                return false;
            }
            k += 1;
        }
        true
    }

    /// The number of primitives.
    pub fn len(&self) -> (r: usize)
        ensures
            r == self.objects().len(),
    {
        self.objects.len()
    }

    /// Builds the hierarchy if the scene has primitives and holds none. A hierarchy
    /// that is held is kept.
    pub fn prepare(&mut self)
        ensures
            final(self).objects() == old(self).objects(),
            final(self).settled(),
            old(self).settled() ==> final(self).nodes() == old(self).nodes(),
            final(self).built() ==> is_built_hierarchy(final(self).nodes(), final(self).objects()),
    {
        proof {
            use_type_invariant(&*self);
        }
        if self.objects.len() > 0 && self.root.is_none() {
            let mut rng = thread_rng();
            core::mem::swap(&mut self.rng, &mut rng);
            let nodes = build_bvh(&self.objects, &mut rng);
            core::mem::swap(&mut self.rng, &mut rng);
            self.bvh_nodes = nodes;
            self.root = Some(0);
        }
    }

    /// Finds the nearest hit of the ray strictly nearer than `tmax`, building the
    /// hierarchy first if the scene has none. An empty scene is never hit.
    ///
    /// The hierarchy is built with axes drawn at random, so two scenes with the same
    /// primitives may hold different hierarchies; the result is that of searching
    /// the one this scene holds afterwards.
    pub fn get_hit_record(&mut self, ray_in: &Ray, tmin: Fixed, tmax: Fixed) -> (r: Option<
        HitRecord,
    >)
        ensures
            final(self).objects() == old(self).objects(),
            final(self).settled(),
            old(self).settled() ==> final(self).nodes() == old(self).nodes(),
            final(self).built() ==> is_built_hierarchy(final(self).nodes(), final(self).objects()),
            r == spec_scene_hit(final(self).objects(), final(self).nodes(), *ray_in, tmin, tmax),
            r matches Some(rec) ==> material_of_some(old(self).objects(), rec.material)
                && is_hit_of_some(old(self).objects(), *ray_in, tmin, tmax, rec) && tmin.raw
                <= rec.t.raw < tmax.raw,
    {
        self.prepare();
        proof {
            lemma_bvh_hit_is_direct(self.objects(), self.nodes(), *ray_in, tmin, tmax);
        }
        proof {
            use_type_invariant(&*self);
        }
        if self.objects.len() == 0 {
            return None;
        }
        hit_bvh(&self.objects, &self.bvh_nodes, ray_in, tmin, tmax)
    }
}

/// A scene finds what a scan of its primitives finds. Provided that the boxes of its
/// hierarchy are no obstacle to the search and that no primitive is hit exactly at
/// `tmax`, both find nothing or both find a hit, at the same ray parameter; and
/// where no two primitives are hit at the same parameter, they find the same record.
/// A scene without primitives is never hit, and neither is the empty list.
pub proof fn lemma_scene_agrees_with_scan(
    objects: Seq<Hittable>,
    nodes: Seq<BvhNode>,
    ray_in: Ray,
    tmin: Fixed,
    tmax: Fixed,
)
    requires
        objects.len() <= usize::MAX,
        objects.len() > 0 ==> tree_valid(nodes, objects) && boxes_admit_hits(
            nodes,
            objects,
            ray_in,
            tmin,
            tmax,
        ),
        forall|k: int|
            0 <= k < objects.len() ==> (#[trigger] objects[k].spec_hit(ray_in, tmin, tmax) matches Some(
                g,
            ) ==> g.t.raw < tmax.raw),
    ensures
        spec_scene_hit(objects, nodes, ray_in, tmin, tmax) is None <==> spec_scan(
            objects,
            objects.len() as int,
            ray_in,
            tmin,
            tmax,
        ).record is None,
        spec_scene_hit(objects, nodes, ray_in, tmin, tmax) matches Some(a) ==> spec_scan(
            objects,
            objects.len() as int,
            ray_in,
            tmin,
            tmax,
        ).record matches Some(b) && a.t == b.t,
        (forall|j: int, k: int|
            0 <= j < k < objects.len() ==> (#[trigger] objects[j].spec_hit(ray_in, tmin, tmax)
                matches Some(p) ==> (#[trigger] objects[k].spec_hit(ray_in, tmin, tmax) matches Some(
                q,
            ) ==> p.t != q.t))) ==> spec_scene_hit(objects, nodes, ray_in, tmin, tmax) == spec_scan(
            objects,
            objects.len() as int,
            ray_in,
            tmin,
            tmax,
        ).record,
{
    if objects.len() > 0 {
        lemma_bvh_agrees_with_scan(objects, nodes, ray_in, tmin, tmax);
    }
}

} // verus!
