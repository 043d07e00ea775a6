//! The bounding volume hierarchy: a binary tree of boxes over the primitives, kept in
//! a flat table and both built and searched with an explicit stack.
use vstd::prelude::*;
use crate::aabb::{
    hit_aabb, lemma_hit_aabb_through_interior, lemma_strictly_inside_enclosing, spec_hit_aabb,
    strictly_inside, Aabb,
};
use crate::hit_record::HitRecord;
use crate::hittable::spec_scan;
use crate::hittables::{
    bbox_from_objects, handles_in_range, lemma_hit_material, lemma_hit_range, material_of_some,
    spec_bbox_from_objects, Hittable,
};
use crate::random::random_in_range;
use crate::ray::Ray;
use crate::scalar::Fixed;
use rand::rngs::ThreadRng;

verus! {

/// An inner node: handles of its two children and a box around all that lies below.
#[derive(Clone, Copy, Debug, PartialEq, Eq, Structural)]
pub struct NodeData {
    pub left: usize,
    pub right: usize,
    pub bbox: Aabb,
}

/// A node of the hierarchy: an inner node, or a leaf with the handle of a primitive.
#[derive(Clone, Copy, Debug, PartialEq, Eq, Structural)]
pub enum BvhNode {
    Node(NodeData),
    Object(usize),
}

/// Whether the handles are in ascending order of their primitives' box minimum along
/// `axis`.
pub open spec fn sorted_by_axis(objects: Seq<Hittable>, handles: Seq<usize>, axis: u8) -> bool {
    forall|i: int, j: int|
        0 <= i <= j < handles.len() ==> objects[#[trigger] handles[i] as int].spec_axis_key(axis)
            <= objects[#[trigger] handles[j] as int].spec_axis_key(axis)
}

/// Whether handles with equal keys stand in `after` in an order in which they also
/// occur in `before`.
pub open spec fn keeps_order_of_equals(
    objects: Seq<Hittable>,
    before: Seq<usize>,
    after: Seq<usize>,
    axis: u8,
) -> bool {
    forall|i: int, j: int|
        0 <= i < j < after.len() && objects[#[trigger] after[i] as int].spec_axis_key(axis)
            == objects[#[trigger] after[j] as int].spec_axis_key(axis) ==> exists|p: int, q: int|
            0 <= p < q < before.len() && #[trigger] before[p] == after[i] && #[trigger] before[q]
                == after[j]
}

/// Sorts the handles with the standard library's `sort_by_key`, keyed by the
/// primitives' box minimum along `axis`. As documented there, the result is a
/// rearrangement of the input in ascending order of the key, and elements with equal
/// keys keep their order.
#[verifier::external_body]
fn sort_handles(objects: &Vec<Hittable>, handles: &mut Vec<usize>, axis: u8)
    requires
        handles_in_range(old(handles)@, objects.len() as int),
    ensures
        final(handles)@.to_multiset() == old(handles)@.to_multiset(),
        sorted_by_axis(objects@, final(handles)@, axis),
        keeps_order_of_equals(objects@, old(handles)@, final(handles)@, axis),
{
    handles.sort_by_key(|h| objects[*h].axis_key(axis));
}

/// Copies the handles at positions `from..to`.
fn copy_range(handles: &Vec<usize>, from: usize, to: usize) -> (r: Vec<usize>)
    requires
        from <= to <= handles.len(),
    ensures
        r@ == handles@.subrange(from as int, to as int),
{
    let mut out: Vec<usize> = Vec::new();
    let mut i: usize = from;
    while i < to
        invariant
            from <= i <= to <= handles.len(),
            out@ == handles@.subrange(from as int, i as int),
        decreases to - i,
    {
        out.push(handles[i]);
        i += 1;
        assert(out@ =~= handles@.subrange(from as int, i as int));
    }
    out
}

/// Whether two lists name the same primitives.
pub open spec fn same_handles(a: Seq<usize>, b: Seq<usize>) -> bool {
    forall|x: usize| #[trigger] a.contains(x) <==> b.contains(x)
}

/// Rearranging a list does not change which primitives it names.
pub proof fn lemma_rearranged_same_handles(a: Seq<usize>, b: Seq<usize>)
    requires
        a.to_multiset() == b.to_multiset(),
    ensures
        same_handles(a, b),
{
    a.to_multiset_ensures();
    b.to_multiset_ensures();
    assert forall|x: usize| #[trigger] a.contains(x) <==> b.contains(x) by {
        assert(a.contains(x) <==> a.to_multiset().count(x) > 0);
        assert(b.contains(x) <==> b.to_multiset().count(x) > 0);
    }
}

/// Splits a partition in two halves after sorting it along `axis`: the first
/// `len / 2` handles in sorted order go left, the rest right.
pub fn split_partition(objects: &Vec<Hittable>, handles: Vec<usize>, axis: u8) -> (r: (
    Vec<usize>,
    Vec<usize>,
))
    requires
        handles_in_range(handles@, objects.len() as int),
    ensures
        r.0.len() == handles.len() / 2,
        r.0.len() + r.1.len() == handles.len(),
        (r.0@ + r.1@).to_multiset() == handles@.to_multiset(),
        sorted_by_axis(objects@, r.0@ + r.1@, axis),
        keeps_order_of_equals(objects@, handles@, r.0@ + r.1@, axis),
        same_handles(handles@, r.0@ + r.1@),
        handles_in_range(r.0@, objects.len() as int),
        handles_in_range(r.1@, objects.len() as int),
{
    let mut sorted = handles;
    sort_handles(objects, &mut sorted, axis);
    let mid: usize = sorted.len() / 2;
    let left = copy_range(&sorted, 0, mid);
    let right = copy_range(&sorted, mid, sorted.len());
    proof {
        lemma_rearranged_same_handles(handles@, sorted@);
        handles@.to_multiset_ensures();
        sorted@.to_multiset_ensures();
        assert(left@ + right@ =~= sorted@);
        assert forall|j: int| 0 <= j < sorted@.len() implies (#[trigger] sorted@[j])
            < objects.len() by {
            assert(sorted@.contains(sorted@[j]));
            assert(handles@.contains(sorted@[j]));
        }
    }
    (left, right)
}

/// Whether the node at `i`, if an inner node, has both children at larger handles.
pub open spec fn children_follow(nodes: Seq<BvhNode>, i: int) -> bool {
    match nodes[i] {
        BvhNode::Node(d) => i < d.left < nodes.len() && i < d.right < nodes.len(),
        BvhNode::Object(_) => true,
    }
}

/// Whether the primitive `k` is found at a leaf below (or at) node `i`.
pub open spec fn under(nodes: Seq<BvhNode>, i: int, k: usize) -> bool
    decreases nodes.len() - i,
{
    if 0 <= i < nodes.len() {
        match nodes[i] {
            BvhNode::Object(j) => j == k,
            BvhNode::Node(d) => (i < d.left < nodes.len() && under(nodes, d.left as int, k)) || (i
                < d.right < nodes.len() && under(nodes, d.right as int, k)),
        }
    } else {
        false
    }
}

/// Whether the box of node `i`, if an inner node, encloses the box of primitive `k`.
pub open spec fn node_encloses(nodes: Seq<BvhNode>, objects: Seq<Hittable>, i: int, k: usize)
    -> bool {
    match nodes[i] {
        BvhNode::Node(d) => d.bbox.encloses(objects[k as int].spec_bounding_box()),
        BvhNode::Object(_) => true,
    }
}

/// A hierarchy over `objects`: node 0 is the root; children come after their parents;
/// leaves name primitives; every primitive is found below the root; and the box of
/// every inner node encloses the boxes of the primitives below it.
pub open spec fn tree_valid(nodes: Seq<BvhNode>, objects: Seq<Hittable>) -> bool {
    &&& nodes.len() >= 1
    &&& forall|i: int| 0 <= i < nodes.len() ==> #[trigger] children_follow(nodes, i)
    &&& forall|i: int|
        0 <= i < nodes.len() ==> (#[trigger] nodes[i] matches BvhNode::Object(k) ==> k
            < objects.len())
    &&& forall|k: usize| 0 <= k < objects.len() ==> #[trigger] under(nodes, 0, k)
    &&& forall|i: int, k: usize|
        0 <= i < nodes.len() && #[trigger] under(nodes, i, k) ==> node_encloses(
            nodes,
            objects,
            i,
            k,
        )
}

/// Whether `left` and `right` are the two halves of `part`, sorted along `axis`: the
/// first `len / 2` handles of the sorted arrangement and the rest.
pub open spec fn is_split(
    objects: Seq<Hittable>,
    part: Seq<usize>,
    axis: u8,
    left: Seq<usize>,
    right: Seq<usize>,
) -> bool {
    &&& left.len() == part.len() / 2
    &&& (left + right).to_multiset() == part.to_multiset()
    &&& sorted_by_axis(objects, left + right, axis)
    &&& keeps_order_of_equals(objects, part, left + right, axis)
}

/// Whether `left` and `right` are the two halves of `part`, sorted along one of the
/// three axes.
pub open spec fn is_split_along_an_axis(
    objects: Seq<Hittable>,
    part: Seq<usize>,
    left: Seq<usize>,
    right: Seq<usize>,
) -> bool {
    exists|axis: u8| axis < 3 && #[trigger] is_split(objects, part, axis, left, right)
}

/// Whether the children of an inner node are what its primitives `part` ask for: one
/// primitive, a leaf that is both children; two, a leaf each; more, two inner nodes
/// that were assigned the halves of `part`, sorted along an axis.
pub open spec fn children_shaped(
    nodes: Seq<BvhNode>,
    objects: Seq<Hittable>,
    parts: Seq<Seq<usize>>,
    part: Seq<usize>,
    d: NodeData,
) -> bool {
    if part.len() == 1 {
        d.left == d.right && nodes[d.left as int] == BvhNode::Object(part[0])
    } else if part.len() == 2 {
        nodes[d.left as int] == BvhNode::Object(part[0]) && nodes[d.right as int]
            == BvhNode::Object(part[1])
    } else {
        nodes[d.left as int] is Node && nodes[d.right as int] is Node && is_split_along_an_axis(
            objects,
            part,
            parts[d.left as int],
            parts[d.right as int],
        )
    }
}

/// Whether node `i` is what the primitives `parts[i]` assigned to it ask for: a leaf
/// names its one primitive; an inner node has the box around its primitives, and
/// children that follow it and are shaped after its primitives.
pub open spec fn node_shaped(
    nodes: Seq<BvhNode>,
    objects: Seq<Hittable>,
    parts: Seq<Seq<usize>>,
    i: int,
) -> bool {
    match nodes[i] {
        BvhNode::Object(k) => k < objects.len() && parts[i] =~= seq![k],
        BvhNode::Node(d) => {
            &&& parts[i].len() >= 1
            &&& d.bbox == spec_bbox_from_objects(objects, parts[i])
            &&& i < d.left < nodes.len()
            &&& i < d.right < nodes.len()
            &&& children_shaped(nodes, objects, parts, parts[i], d)
        },
    }
}

/// Whether the hierarchy is the one that is built for `objects` when `parts[i]` are
/// the primitives assigned to node `i`: the root is assigned all primitives, and every
/// node is shaped after the primitives assigned to it.
pub open spec fn built_from(
    nodes: Seq<BvhNode>,
    objects: Seq<Hittable>,
    parts: Seq<Seq<usize>>,
) -> bool {
    &&& nodes.len() >= 1
    &&& parts.len() == nodes.len()
    &&& parts[0] == spec_all_handles(objects.len())
    &&& forall|i: int| 0 <= i < nodes.len() ==> #[trigger] node_shaped(nodes, objects, parts, i)
}

/// Whether the hierarchy is one that is built for `objects`: it is a hierarchy over
/// them, and there is an assignment of primitives to nodes after which it is shaped.
pub open spec fn is_built_hierarchy(nodes: Seq<BvhNode>, objects: Seq<Hittable>) -> bool {
    tree_valid(nodes, objects) && exists|parts: Seq<Seq<usize>>| #[trigger]
        built_from(nodes, objects, parts)
}

/// While the hierarchy is built, `parts[i]` lists the primitives assigned to node
/// `i`. This says what holds of node `i` then: a leaf was assigned its one primitive;
/// an inner node has the box around its primitives; and once its children were made
/// (`done[i]`), they follow it, share its primitives between them and are shaped
/// after them.
pub open spec fn node_built(
    nodes: Seq<BvhNode>,
    objects: Seq<Hittable>,
    parts: Seq<Seq<usize>>,
    done: Seq<bool>,
    i: int,
) -> bool {
    match nodes[i] {
        BvhNode::Object(k) => k < objects.len() && parts[i] =~= seq![k],
        BvhNode::Node(d) => {
            &&& handles_in_range(parts[i], objects.len() as int)
            &&& parts[i].len() >= 1
            &&& d.bbox == spec_bbox_from_objects(objects, parts[i])
            &&& forall|j: int|
                0 <= j < parts[i].len() ==> d.bbox.encloses(
                    #[trigger] objects[parts[i][j] as int].spec_bounding_box(),
                )
            &&& done[i] ==> {
                &&& i < d.left < nodes.len()
                &&& i < d.right < nodes.len()
                &&& same_handles(parts[i], parts[d.left as int] + parts[d.right as int])
                &&& children_shaped(nodes, objects, parts, parts[i], d)
            }
        },
    }
}

/// What holds of an entry of the work list: it names an inner node together with the
/// primitives assigned to it, of which there is at least one.
pub open spec fn entry_pending(
    nodes: Seq<BvhNode>,
    parts: Seq<Seq<usize>>,
    entry: (usize, Vec<usize>),
) -> bool {
    &&& entry.0 < nodes.len()
    &&& nodes[entry.0 as int] is Node
    &&& entry.1@ == parts[entry.0 as int]
    &&& entry.1.len() >= 1
}

/// Whether the inner node `i` still waits on the work list.
pub open spec fn waits(stack: Seq<(usize, Vec<usize>)>, i: int) -> bool {
    exists|j: int| 0 <= j < stack.len() && (#[trigger] stack[j]).0 == i
}

/// The state of the construction: every node is built as far as it claims, every
/// entry of the work list is in order, and every inner node without children waits.
pub open spec fn build_invariant(
    nodes: Seq<BvhNode>,
    objects: Seq<Hittable>,
    parts: Seq<Seq<usize>>,
    done: Seq<bool>,
    stack: Seq<(usize, Vec<usize>)>,
) -> bool {
    &&& nodes.len() >= 1
    &&& parts.len() == nodes.len()
    &&& done.len() == nodes.len()
    &&& forall|i: int|
        0 <= i < nodes.len() ==> #[trigger] node_built(nodes, objects, parts, done, i)
    &&& forall|j: int| 0 <= j < stack.len() ==> entry_pending(nodes, parts, #[trigger] stack[j])
    &&& forall|i: int|
        0 <= i < nodes.len() && nodes[i] is Node && !#[trigger] done[i] ==> waits(stack, i)
}

/// What is left to do for a work list: each entry of `n` primitives counts `2 n - 1`.
pub open spec fn work_left(stack: Seq<(usize, Vec<usize>)>) -> int
    decreases stack.len(),
{
    if stack.len() == 0 {
        0
    } else {
        work_left(stack.drop_last()) + 2 * stack.last().1.len() - 1
    }
}

/// Once nothing waits, a primitive assigned to a node is found below it, and the other
/// way round.
pub proof fn lemma_parts_are_subtrees(
    nodes: Seq<BvhNode>,
    objects: Seq<Hittable>,
    parts: Seq<Seq<usize>>,
    done: Seq<bool>,
    i: int,
    k: usize,
)
    requires
        build_invariant(nodes, objects, parts, done, Seq::empty()),
        0 <= i < nodes.len(),
    ensures
        parts[i].contains(k) <==> under(nodes, i, k),
    decreases nodes.len() - i,
{
    assert(node_built(nodes, objects, parts, done, i));
    match nodes[i] {
        BvhNode::Object(j) => {
            assert(parts[i] =~= seq![j]);
            if parts[i].contains(k) {
                let idx = choose|idx: int| 0 <= idx < parts[i].len() && parts[i][idx] == k;
                assert(k == j);
            }
            if j == k {
                assert(parts[i][0] == k);
            }
        },
        BvhNode::Node(d) => {
            if !done[i] {
                assert(waits(Seq::<(usize, Vec<usize>)>::empty(), i));
            }
            let l = d.left as int;
            let r = d.right as int;
            lemma_parts_are_subtrees(nodes, objects, parts, done, l, k);
            lemma_parts_are_subtrees(nodes, objects, parts, done, r, k);
            let both = parts[l] + parts[r];
            assert(parts[i].contains(k) <==> both.contains(k));
            if parts[l].contains(k) {
                let idx = choose|idx: int| 0 <= idx < parts[l].len() && parts[l][idx] == k;
                assert(both[idx] == k);
            }
            if parts[r].contains(k) {
                let idx = choose|idx: int| 0 <= idx < parts[r].len() && parts[r][idx] == k;
                assert(both[parts[l].len() + idx] == k);
            }
            if both.contains(k) {
                let idx = choose|idx: int| 0 <= idx < both.len() && both[idx] == k;
                if idx < parts[l].len() {
                    assert(parts[l][idx] == k);
                } else {
                    assert(parts[r][idx - parts[l].len()] == k);
                }
            }
        },
    }
}

/// A finished construction whose root was assigned every primitive is a hierarchy.
pub proof fn lemma_built_tree_valid(
    nodes: Seq<BvhNode>,
    objects: Seq<Hittable>,
    parts: Seq<Seq<usize>>,
    done: Seq<bool>,
)
    requires
        build_invariant(nodes, objects, parts, done, Seq::empty()),
        forall|k: usize| 0 <= k < objects.len() ==> parts[0].contains(k),
    ensures
        tree_valid(nodes, objects),
        forall|i: int| 0 <= i < nodes.len() ==> #[trigger] node_shaped(nodes, objects, parts, i),
{
    assert forall|i: int| 0 <= i < nodes.len() implies #[trigger] node_shaped(
        nodes,
        objects,
        parts,
        i,
    ) by {
        assert(node_built(nodes, objects, parts, done, i));
        if nodes[i] is Node && !done[i] {
            assert(waits(Seq::<(usize, Vec<usize>)>::empty(), i));
        }
    }
    assert forall|i: int| 0 <= i < nodes.len() implies #[trigger] children_follow(nodes, i) by {
        assert(node_built(nodes, objects, parts, done, i));
        if nodes[i] is Node && !done[i] {
            assert(waits(Seq::<(usize, Vec<usize>)>::empty(), i));
        }
    }
    assert forall|i: int| 0 <= i < nodes.len() implies (#[trigger] nodes[i] matches BvhNode::Object(
        k,
    ) ==> k < objects.len()) by {
        assert(node_built(nodes, objects, parts, done, i));
    }
    assert forall|k: usize| 0 <= k < objects.len() implies #[trigger] under(nodes, 0, k) by {
        lemma_parts_are_subtrees(nodes, objects, parts, done, 0, k);
    }
    assert forall|i: int, k: usize| 0 <= i < nodes.len() && #[trigger] under(nodes, i, k) implies node_encloses(
        nodes,
        objects,
        i,
        k,
    ) by {
        lemma_parts_are_subtrees(nodes, objects, parts, done, i, k);
        assert(node_built(nodes, objects, parts, done, i));
        if nodes[i] is Node {
            let idx = choose|idx: int| 0 <= idx < parts[i].len() && parts[i][idx] == k;
            assert(parts[i][idx] == k);
        }
    }
}

/// Pushing an entry adds its count to the work that is left.
pub proof fn lemma_work_left_push(stack: Seq<(usize, Vec<usize>)>, entry: (usize, Vec<usize>))
    ensures
        work_left(stack.push(entry)) == work_left(stack) + 2 * entry.1.len() - 1,
{
    assert(stack.push(entry).drop_last() =~= stack);
}

/// A work list without empty entries has work left that is not negative.
pub proof fn lemma_work_left_bounded(stack: Seq<(usize, Vec<usize>)>)
    requires
        forall|j: int| 0 <= j < stack.len() ==> (#[trigger] stack[j]).1.len() >= 1,
    ensures
        work_left(stack) >= 0,
    decreases stack.len(),
{
    if stack.len() > 0 {
        assert(stack[stack.len() - 1].1.len() >= 1);
        assert forall|j: int| 0 <= j < stack.drop_last().len() implies (#[trigger] stack.drop_last()[j]).1.len()
            >= 1 by {
            assert(stack.drop_last()[j] == stack[j]);
        }
        lemma_work_left_bounded(stack.drop_last());
    }
}

/// A node that waited before the top entry was taken off still waits, unless it was
/// the one named by that entry.
pub proof fn lemma_still_waits(stack: Seq<(usize, Vec<usize>)>, i: int)
    requires
        stack.len() > 0,
        waits(stack, i),
        stack.last().0 != i,
    ensures
        waits(stack.drop_last(), i),
{
    let j = choose|j: int| 0 <= j < stack.len() && (#[trigger] stack[j]).0 == i;
    assert(stack.drop_last()[j].0 == i);
}

/// A node that the current step does not touch stays built: its own entry, what was
/// assigned to it and to its children, and whether its children are leaves or inner
/// nodes are as before.
pub proof fn lemma_other_node_stays_built(
    old_nodes: Seq<BvhNode>,
    new_nodes: Seq<BvhNode>,
    objects: Seq<Hittable>,
    old_parts: Seq<Seq<usize>>,
    new_parts: Seq<Seq<usize>>,
    old_done: Seq<bool>,
    new_done: Seq<bool>,
    h: int,
    i: int,
)
    requires
        0 <= h < old_nodes.len(),
        0 <= i < old_nodes.len(),
        i != h,
        old_nodes.len() <= new_nodes.len(),
        old_parts.len() == old_nodes.len(),
        old_done.len() == old_nodes.len(),
        new_parts.len() == new_nodes.len(),
        new_done.len() == new_nodes.len(),
        old_nodes[h] is Node,
        new_nodes[h] is Node,
        forall|j: int| 0 <= j < old_nodes.len() && j != h ==> new_nodes[j] == old_nodes[j],
        forall|j: int| 0 <= j < old_nodes.len() ==> new_parts[j] == old_parts[j],
        forall|j: int| 0 <= j < old_nodes.len() && j != h ==> new_done[j] == old_done[j],
        node_built(old_nodes, objects, old_parts, old_done, i),
    ensures
        node_built(new_nodes, objects, new_parts, new_done, i),
{
}

/// The table of nodes after the children of node `h` were made for a partition of one
/// or two primitives: one leaf or two are appended, and node `h` names them.
pub open spec fn nodes_after_leaves(nodes: Seq<BvhNode>, h: int, part: Seq<usize>, bbox: Aabb)
    -> Seq<BvhNode> {
    let first = nodes.len() as usize;
    if part.len() == 1 {
        nodes.push(BvhNode::Object(part[0])).update(
            h,
            BvhNode::Node(NodeData { left: first, right: first, bbox }),
        )
    } else {
        nodes.push(BvhNode::Object(part[0])).push(BvhNode::Object(part[1])).update(
            h,
            BvhNode::Node(NodeData { left: first, right: (first + 1) as usize, bbox }),
        )
    }
}

/// What is assigned to the nodes after the children of a node were made for a
/// partition of one or two primitives.
pub open spec fn parts_after_leaves(parts: Seq<Seq<usize>>, part: Seq<usize>) -> Seq<Seq<usize>> {
    if part.len() == 1 {
        parts.push(seq![part[0]])
    } else {
        parts.push(seq![part[0]]).push(seq![part[1]])
    }
}

/// Which nodes have their children after those of node `h` were made for a partition
/// of one or two primitives.
pub open spec fn done_after_leaves(done: Seq<bool>, h: int, part: Seq<usize>) -> Seq<bool> {
    if part.len() == 1 {
        done.push(true).update(h, true)
    } else {
        done.push(true).push(true).update(h, true)
    }
}

/// Making leaves for a partition of one or two primitives keeps every node built.
pub proof fn lemma_leaves_built(
    nodes: Seq<BvhNode>,
    objects: Seq<Hittable>,
    parts: Seq<Seq<usize>>,
    done: Seq<bool>,
    h: int,
    bbox: Aabb,
)
    requires
        0 <= h < nodes.len(),
        nodes.len() + parts[h].len() <= usize::MAX,
        parts.len() == nodes.len(),
        done.len() == nodes.len(),
        forall|i: int| 0 <= i < nodes.len() ==> #[trigger] node_built(nodes, objects, parts, done, i),
        nodes[h] matches BvhNode::Node(d) && d.bbox == bbox,
        1 <= parts[h].len() <= 2,
    ensures
        forall|i: int|
            0 <= i < nodes_after_leaves(nodes, h, parts[h], bbox).len() ==> #[trigger] node_built(
                nodes_after_leaves(nodes, h, parts[h], bbox),
                objects,
                parts_after_leaves(parts, parts[h]),
                done_after_leaves(done, h, parts[h]),
                i,
            ),
{
    let part = parts[h];
    let new_nodes = nodes_after_leaves(nodes, h, part, bbox);
    let new_parts = parts_after_leaves(parts, part);
    let new_done = done_after_leaves(done, h, part);
    assert(node_built(nodes, objects, parts, done, h));
    assert forall|i: int| 0 <= i < new_nodes.len() implies #[trigger] node_built(
        new_nodes,
        objects,
        new_parts,
        new_done,
        i,
    ) by {
        if i < nodes.len() && i != h {
            assert(node_built(nodes, objects, parts, done, i));
            lemma_other_node_stays_built(
                nodes,
                new_nodes,
                objects,
                parts,
                new_parts,
                done,
                new_done,
                h,
                i,
            );
        } else if i == h {
            let left = nodes.len() as int;
            let right = if part.len() == 1 {
                left
            } else {
                left + 1
            };
            let both = new_parts[left] + new_parts[right];
            assert forall|x: usize| #[trigger] part.contains(x) <==> both.contains(x) by {
                if part.contains(x) {
                    let idx = choose|idx: int| 0 <= idx < part.len() && part[idx] == x;
                    if idx == 0 {
                        assert(both[0] == x);
                    } else {
                        assert(both[1] == x);
                    }
                }
                if both.contains(x) {
                    let idx = choose|idx: int| 0 <= idx < both.len() && both[idx] == x;
                    if idx == 0 || part.len() == 1 {
                        assert(part[0] == x);
                    } else {
                        assert(part[1] == x);
                    }
                }
            }
        } else {
            assert(part[i - nodes.len()] < objects.len());
        }
    }
}

/// The table of nodes after the children of node `h` were made for a partition of more
/// than two primitives: two inner nodes with the boxes of the halves are appended,
/// and node `h` names them.
pub open spec fn nodes_after_split(
    nodes: Seq<BvhNode>,
    h: int,
    bbox: Aabb,
    left_bbox: Aabb,
    right_bbox: Aabb,
) -> Seq<BvhNode> {
    let first = nodes.len() as usize;
    nodes.push(BvhNode::Node(NodeData { left: 0, right: 0, bbox: left_bbox })).push(
        BvhNode::Node(NodeData { left: 0, right: 0, bbox: right_bbox }),
    ).update(h, BvhNode::Node(NodeData { left: first, right: (first + 1) as usize, bbox }))
}

/// Halving a partition of more than two primitives keeps every node built.
pub proof fn lemma_split_built(
    nodes: Seq<BvhNode>,
    objects: Seq<Hittable>,
    parts: Seq<Seq<usize>>,
    done: Seq<bool>,
    h: int,
    bbox: Aabb,
    axis: u8,
    left: Seq<usize>,
    right: Seq<usize>,
    left_bbox: Aabb,
    right_bbox: Aabb,
)
    requires
        0 <= h < nodes.len(),
        nodes.len() + 2 <= usize::MAX,
        parts.len() == nodes.len(),
        done.len() == nodes.len(),
        forall|i: int| 0 <= i < nodes.len() ==> #[trigger] node_built(nodes, objects, parts, done, i),
        nodes[h] matches BvhNode::Node(d) && d.bbox == bbox,
        parts[h].len() > 2,
        axis < 3,
        is_split(objects, parts[h], axis, left, right),
        same_handles(parts[h], left + right),
        left.len() + right.len() == parts[h].len(),
        handles_in_range(left, objects.len() as int),
        handles_in_range(right, objects.len() as int),
        left_bbox == spec_bbox_from_objects(objects, left),
        right_bbox == spec_bbox_from_objects(objects, right),
        forall|j: int|
            0 <= j < left.len() ==> left_bbox.encloses(
                #[trigger] objects[left[j] as int].spec_bounding_box(),
            ),
        forall|j: int|
            0 <= j < right.len() ==> right_bbox.encloses(
                #[trigger] objects[right[j] as int].spec_bounding_box(),
            ),
    ensures
        forall|i: int|
            0 <= i < nodes.len() + 2 ==> #[trigger] node_built(
                nodes_after_split(nodes, h, bbox, left_bbox, right_bbox),
                objects,
                parts.push(left).push(right),
                done.push(false).push(false).update(h, true),
                i,
            ),
{
    let new_nodes = nodes_after_split(nodes, h, bbox, left_bbox, right_bbox);
    let new_parts = parts.push(left).push(right);
    let new_done = done.push(false).push(false).update(h, true);
    assert(node_built(nodes, objects, parts, done, h));
    assert forall|i: int| 0 <= i < nodes.len() + 2 implies #[trigger] node_built(
        new_nodes,
        objects,
        new_parts,
        new_done,
        i,
    ) by {
        if i < nodes.len() && i != h {
            assert(node_built(nodes, objects, parts, done, i));
            lemma_other_node_stays_built(
                nodes,
                new_nodes,
                objects,
                parts,
                new_parts,
                done,
                new_done,
                h,
                i,
            );
        } else if i == h {
            assert(new_parts[nodes.len() as int] == left);
            assert(new_parts[nodes.len() as int + 1] == right);
            assert(is_split(objects, parts[h], axis, left, right));
            assert(is_split_along_an_axis(objects, parts[h], left, right));
        }
    }
}

/// Appends a node to the table and returns its handle.
fn add_node(nodes: &mut Vec<BvhNode>, node: BvhNode) -> (handle: usize)
    ensures
        final(nodes)@ == old(nodes)@.push(node),
        handle == old(nodes).len(),
{
    let handle = nodes.len();
    nodes.push(node);
    handle
}

/// The handles of the first `count` primitives, in order.
pub open spec fn spec_all_handles(count: nat) -> Seq<usize> {
    Seq::new(count, |j: int| j as usize)
}

/// The box of the root: the box around all primitives.
pub open spec fn spec_root_box(objects: Seq<Hittable>) -> Aabb {
    spec_bbox_from_objects(objects, spec_all_handles(objects.len()))
}

/// The hierarchy over one or two primitives: the root and a leaf for each primitive.
/// A single leaf is both children of the root.
pub open spec fn spec_small_tree(objects: Seq<Hittable>) -> Seq<BvhNode> {
    if objects.len() == 1 {
        seq![
            BvhNode::Node(NodeData { left: 1, right: 1, bbox: spec_root_box(objects) }),
            BvhNode::Object(0),
        ]
    } else {
        seq![
            BvhNode::Node(NodeData { left: 1, right: 2, bbox: spec_root_box(objects) }),
            BvhNode::Object(0),
            BvhNode::Object(1),
        ]
    }
}

/// Builds the hierarchy over a non-empty table of primitives, from the root down,
/// with a work list in place of recursion. A partition of one primitive becomes a
/// leaf, which its parent names as both children; a partition of two becomes two
/// leaves; a larger one is sorted along an axis drawn at random, halved, and each half
/// gets an inner node with the box around its primitives.
///
/// Whatever axes are drawn, the result is a hierarchy over `objects` in which every
/// node is shaped after the primitives assigned to it. For one or two primitives no
/// axis is drawn.
#[verifier::rlimit(60)]
pub fn build_bvh(objects: &Vec<Hittable>, rng: &mut ThreadRng) -> (nodes: Vec<BvhNode>)
    requires
        objects.len() >= 1,
    ensures
        is_built_hierarchy(nodes@, objects@),
        nodes@[0] matches BvhNode::Node(d) && d.bbox == spec_root_box(objects@),
        objects.len() <= 2 ==> nodes@ == spec_small_tree(objects@),
{
    let mut all: Vec<usize> = Vec::new();
    let mut i: usize = 0;
    while i < objects.len()
        invariant
            i <= objects.len(),
            all.len() == i,
            forall|j: int| 0 <= j < i ==> all[j] == j,
        decreases objects.len() - i,
    {
        all.push(i);
        i += 1;
    }
    assert(all@ =~= spec_all_handles(objects@.len()));
    let all_bbox = bbox_from_objects(objects, &all);
    let mut nodes: Vec<BvhNode> = Vec::new();
    add_node(&mut nodes, BvhNode::Node(NodeData { left: 0, right: 0, bbox: all_bbox }));
    let ghost root_part = all@;
    let ghost mut parts: Seq<Seq<usize>> = seq![all@];
    let ghost mut done: Seq<bool> = seq![false];
    let mut stack: Vec<(usize, Vec<usize>)> = Vec::new();
    stack.push((0usize, all));
    proof {
        assert(stack@[0].0 == 0);
        assert(waits(stack@, 0));
        assert(node_built(nodes@, objects@, parts, done, 0));
    }
    while stack.len() > 0
        invariant
            build_invariant(nodes@, objects@, parts, done, stack@),
            parts[0] == root_part,
            root_part == spec_all_handles(objects@.len()),
            nodes@[0] matches BvhNode::Node(d) && d.bbox == spec_root_box(objects@),
            objects.len() <= 2 ==> (stack@.len() == 1 && stack@[0].0 == 0 && nodes@.len() == 1)
                || (stack@.len() == 0 && nodes@ =~= spec_small_tree(objects@)),
        decreases work_left(stack@),
    {
        let ghost old_stack = stack@;
        let ghost old_nodes = nodes@;
        let ghost old_parts = parts;
        let ghost old_done = done;
        let entry = stack.pop().unwrap();
        let node_handle: usize = entry.0;
        let contained: Vec<usize> = entry.1;
        proof {
            assert(entry == old_stack.last());
            assert(stack@ =~= old_stack.drop_last());
            assert(entry_pending(old_nodes, old_parts, old_stack[old_stack.len() - 1]));
            assert(work_left(old_stack) == work_left(stack@) + 2 * entry.1.len() - 1);
            assert(node_built(old_nodes, objects@, old_parts, old_done, node_handle as int));
        }
        let bbox = match nodes[node_handle] {
            BvhNode::Node(d) => d.bbox,
            BvhNode::Object(_) => vstd::pervasive::unreached(),
        };
        let count: usize = contained.len();
        if count <= 2 {
            let left = add_node(&mut nodes, BvhNode::Object(contained[0]));
            let right = if count == 1 {
                left
            } else {
                add_node(&mut nodes, BvhNode::Object(contained[1]))
            };
            nodes.set(node_handle, BvhNode::Node(NodeData { left, right, bbox }));
            proof {
                assert(nodes@.len() == old_nodes.len() + count);
                assert(nodes@.len() == nodes.len() <= usize::MAX);
                lemma_leaves_built(old_nodes, objects@, old_parts, old_done, node_handle as int, bbox);
                parts = parts_after_leaves(old_parts, contained@);
                done = done_after_leaves(old_done, node_handle as int, contained@);
                assert(nodes@ =~= nodes_after_leaves(
                    old_nodes,
                    node_handle as int,
                    contained@,
                    bbox,
                ));
            }
        } else {
            let choice: i64 = random_in_range(rng, 0, 3);
            let axis: u8 = choice as u8;
            let (left_objects, right_objects) = split_partition(objects, contained, axis);
            let left_bbox = bbox_from_objects(objects, &left_objects);
            let right_bbox = bbox_from_objects(objects, &right_objects);
            let left = add_node(
                &mut nodes,
                BvhNode::Node(NodeData { left: 0, right: 0, bbox: left_bbox }),
            );
            let right = add_node(
                &mut nodes,
                BvhNode::Node(NodeData { left: 0, right: 0, bbox: right_bbox }),
            );
            nodes.set(node_handle, BvhNode::Node(NodeData { left, right, bbox }));
            proof {
                assert(nodes@.len() == old_nodes.len() + 2);
                assert(nodes@.len() == nodes.len() <= usize::MAX);
                lemma_split_built(
                    old_nodes,
                    objects@,
                    old_parts,
                    old_done,
                    node_handle as int,
                    bbox,
                    axis,
                    left_objects@,
                    right_objects@,
                    left_bbox,
                    right_bbox,
                );
                parts = old_parts.push(left_objects@).push(right_objects@);
                done = old_done.push(false).push(false).update(node_handle as int, true);
                assert(nodes@ =~= nodes_after_split(
                    old_nodes,
                    node_handle as int,
                    bbox,
                    left_bbox,
                    right_bbox,
                ));
                lemma_work_left_push(stack@, (left, left_objects));
                lemma_work_left_push(stack@.push((left, left_objects)), (right, right_objects));
            }
            stack.push((left, left_objects));
            stack.push((right, right_objects));
            proof {
                assert(stack@[stack@.len() - 2].0 == left);
                assert(stack@[stack@.len() - 1].0 == right);
                assert(waits(stack@, left as int));
                assert(waits(stack@, right as int));
            }
        }
        proof {
            assert forall|j: int| 0 <= j < stack@.len() implies entry_pending(
                nodes@,
                parts,
                #[trigger] stack@[j],
            ) by {
                if j < old_stack.len() - 1 {
                    assert(stack@[j] == old_stack[j]);
                    assert(entry_pending(old_nodes, old_parts, old_stack[j]));
                }
            }
            assert forall|i: int|
                0 <= i < nodes@.len() && nodes@[i] is Node && !#[trigger] done[i] implies waits(
                stack@,
                i,
            ) by {
                if i < old_nodes.len() {
                    assert(i != node_handle);
                    assert(!old_done[i]);
                    assert(waits(old_stack, i));
                    lemma_still_waits(old_stack, i);
                    let j = choose|j: int|
                        0 <= j < old_stack.drop_last().len() && (#[trigger] old_stack.drop_last()[j]).0
                            == i;
                    assert(stack@[j].0 == i);
                }
            }
            assert forall|j: int| 0 <= j < stack@.len() implies (#[trigger] stack@[j]).1.len()
                >= 1 by {
                assert(entry_pending(nodes@, parts, stack@[j]));
            }
            lemma_work_left_bounded(stack@);
        }
    }
    proof {
        assert(stack@ =~= Seq::<(usize, Vec<usize>)>::empty());
        assert forall|k: usize| 0 <= k < objects.len() implies parts[0].contains(k) by {
            assert(root_part[k as int] == k);
        }
        lemma_built_tree_valid(nodes@, objects@, parts, done);
        assert(built_from(nodes@, objects@, parts));
    }
    nodes
}

/// The state of a search: the nearest hit found so far, and its ray parameter (the
/// upper bound of the search while nothing was found).
#[derive(Clone, Copy, Debug, PartialEq, Eq, Structural)]
pub struct Nearest {
    pub closest: Fixed,
    pub record: Option<HitRecord>,
}

/// The state after a primitive was tested against the rays' current range: a hit
/// nearer than the nearest so far takes its place.
pub open spec fn spec_leaf_step(object: Hittable, ray_in: Ray, tmin: Fixed, s: Nearest) -> Nearest {
    match object.spec_hit(ray_in, tmin, s.closest) {
        Some(h) => if h.t.raw < s.closest.raw {
            Nearest { closest: h.t, record: Some(h) }
        } else {
            s
        },
        None => s,
    }
}

/// The state after the subtree at node `i` was searched: a leaf tests its primitive;
/// an inner node whose box the ray misses within the current range is passed over;
/// otherwise its right subtree is searched first and its left subtree after.
pub open spec fn spec_visit(
    objects: Seq<Hittable>,
    nodes: Seq<BvhNode>,
    i: int,
    ray_in: Ray,
    tmin: Fixed,
    s: Nearest,
) -> Nearest
    decreases nodes.len() - i,
{
    if 0 <= i < nodes.len() {
        match nodes[i] {
            BvhNode::Object(k) => if k < objects.len() {
                spec_leaf_step(objects[k as int], ray_in, tmin, s)
            } else {
                s
            },
            BvhNode::Node(d) => if spec_hit_aabb(d.bbox, ray_in, tmin, s.closest) && i < d.left
                < nodes.len() && i < d.right < nodes.len() {
                spec_visit(
                    objects,
                    nodes,
                    d.left as int,
                    ray_in,
                    tmin,
                    spec_visit(objects, nodes, d.right as int, ray_in, tmin, s),
                )
            } else {
                s
            },
        }
    } else {
        s
    }
}

/// The state after the subtrees on a stack were searched, topmost first.
pub open spec fn spec_visit_all(
    objects: Seq<Hittable>,
    nodes: Seq<BvhNode>,
    stack: Seq<usize>,
    ray_in: Ray,
    tmin: Fixed,
    s: Nearest,
) -> Nearest
    decreases stack.len(),
{
    if stack.len() == 0 {
        s
    } else {
        spec_visit_all(
            objects,
            nodes,
            stack.drop_last(),
            ray_in,
            tmin,
            spec_visit(objects, nodes, stack.last() as int, ray_in, tmin, s),
        )
    }
}

/// The result of searching the whole hierarchy for the nearest hit between `tmin` and
/// `tmax`.
pub open spec fn spec_hit_bvh(
    objects: Seq<Hittable>,
    nodes: Seq<BvhNode>,
    ray_in: Ray,
    tmin: Fixed,
    tmax: Fixed,
) -> Option<HitRecord> {
    spec_visit(objects, nodes, 0, ray_in, tmin, Nearest { closest: tmax, record: None }).record
}

/// The number of nodes in the subtree at `i`, a shared leaf counted once for each way
/// that leads to it.
pub open spec fn subtree_size(nodes: Seq<BvhNode>, i: int) -> nat
    decreases nodes.len() - i,
{
    if 0 <= i < nodes.len() {
        match nodes[i] {
            BvhNode::Object(_) => 1,
            BvhNode::Node(d) => 1 + (if i < d.left < nodes.len() {
                subtree_size(nodes, d.left as int)
            } else {
                0
            }) + (if i < d.right < nodes.len() {
                subtree_size(nodes, d.right as int)
            } else {
                0
            }),
        }
    } else {
        0
    }
}

/// The number of nodes that a search may still visit from a stack of subtrees.
pub open spec fn visits_left(nodes: Seq<BvhNode>, stack: Seq<usize>) -> nat
    decreases stack.len(),
{
    if stack.len() == 0 {
        0
    } else {
        visits_left(nodes, stack.drop_last()) + subtree_size(nodes, stack.last() as int)
    }
}

/// Searches the hierarchy for the nearest hit of the ray strictly nearer than `tmax`,
/// depth first with an explicit stack. Boxes are tested against the range that ends
/// at the nearest hit found so far. Handles that name no node or no primitive, and
/// children that do not follow their parent, are passed over.
pub fn hit_bvh(
    objects: &Vec<Hittable>,
    nodes: &Vec<BvhNode>,
    ray_in: &Ray,
    tmin: Fixed,
    tmax: Fixed,
) -> (r: Option<HitRecord>)
    ensures
        r == spec_hit_bvh(objects@, nodes@, *ray_in, tmin, tmax),
        r matches Some(rec) ==> material_of_some(objects@, rec.material),
{
    let mut stack: Vec<usize> = Vec::new();
    stack.push(0);
    let mut closest_record: Option<HitRecord> = None;
    let mut closest = tmax;
    let ghost start = Nearest { closest: tmax, record: None };
    proof {
        assert(stack@.drop_last() =~= Seq::<usize>::empty());
        assert(spec_visit_all(objects@, nodes@, stack@, *ray_in, tmin, start) == spec_visit(
            objects@,
            nodes@,
            0,
            *ray_in,
            tmin,
            start,
        )) by {
            reveal_with_fuel(spec_visit_all, 2);
        }
    }
    while stack.len() > 0
        invariant
            spec_visit_all(
                objects@,
                nodes@,
                stack@,
                *ray_in,
                tmin,
                Nearest { closest, record: closest_record },
            ) == spec_visit(objects@, nodes@, 0, *ray_in, tmin, start),
            closest_record matches Some(rec) ==> material_of_some(objects@, rec.material),
        decreases visits_left(nodes@, stack@), stack@.len(),
    {
        let ghost old_stack = stack@;
        let current_node_handle: usize = stack.pop().unwrap();
        proof {
            assert(stack@ =~= old_stack.drop_last());
        }
        if current_node_handle < nodes.len() {
            match nodes[current_node_handle] {
                BvhNode::Node(node_data) => {
                    if current_node_handle < node_data.left && node_data.left < nodes.len()
                        && current_node_handle < node_data.right && node_data.right < nodes.len()
                        && hit_aabb(&node_data.bbox, ray_in, tmin, closest) {
                        let ghost rest = stack@;
                        stack.push(node_data.left);
                        stack.push(node_data.right);
                        proof {
                            assert(stack@.drop_last() =~= rest.push(node_data.left));
                            assert(rest.push(node_data.left).drop_last() =~= rest);
                            reveal_with_fuel(spec_visit_all, 3);
                            reveal_with_fuel(visits_left, 3);
                        }
                    }
                },
                BvhNode::Object(k) => {
                    if k < objects.len() {
                        match objects[k].hit(ray_in, tmin, closest) {
                            Some(hit_record) => {
                                if hit_record.t.raw < closest.raw {
                                    closest = hit_record.t;
                                    closest_record = Some(hit_record);
                                }
                            },
                            None => {},
                        }
                    }
                },
            }
        }
    }
    closest_record
}

/// Whether a search state is sound for the search between `tmin` and `tmax`: without
/// a record the bound is still `tmax`; a record is the hit of one of the primitives,
/// with its parameter as the bound, below `tmax`.
pub open spec fn state_sound(
    objects: Seq<Hittable>,
    ray_in: Ray,
    tmin: Fixed,
    tmax: Fixed,
    s: Nearest,
) -> bool {
    match s.record {
        None => s.closest == tmax,
        Some(h) => h.t == s.closest && h.t.raw < tmax.raw && exists|k: int|
            0 <= k < objects.len() && #[trigger] objects[k].spec_hit(ray_in, tmin, tmax) == Some(h),
    }
}

/// Whether the primitive has no hit between `tmin` and `tmax` that is nearer than `c`.
pub open spec fn no_nearer(object: Hittable, ray_in: Ray, tmin: Fixed, tmax: Fixed, c: Fixed)
    -> bool {
    object.spec_hit(ray_in, tmin, tmax) matches Some(g) ==> c.raw <= g.t.raw
}

/// Whether the box of node `i`, if it is an inner node above primitive `k`, is hit by
/// the ray in the range up to `c`, if that range reaches beyond the primitive's hit.
pub open spec fn admits(
    nodes: Seq<BvhNode>,
    objects: Seq<Hittable>,
    i: int,
    k: usize,
    ray_in: Ray,
    tmin: Fixed,
    tmax: Fixed,
    c: Fixed,
) -> bool {
    match (nodes[i], objects[k as int].spec_hit(ray_in, tmin, tmax)) {
        (BvhNode::Node(d), Some(g)) => under(nodes, i, k) && g.t.raw < c.raw <= tmax.raw
            ==> spec_hit_aabb(d.bbox, ray_in, tmin, c),
        _ => true,
    }
}

/// Whether the boxes are no obstacle to the search: every box above a primitive that
/// the ray hits is itself hit, in every range that reaches beyond that hit.
pub open spec fn boxes_admit_hits(
    nodes: Seq<BvhNode>,
    objects: Seq<Hittable>,
    ray_in: Ray,
    tmin: Fixed,
    tmax: Fixed,
) -> bool {
    forall|i: int, k: usize, c: Fixed|
        0 <= i < nodes.len() && k < objects.len() ==> #[trigger] admits(
            nodes,
            objects,
            i,
            k,
            ray_in,
            tmin,
            tmax,
            c,
        )
}

/// The boxes are no obstacle to the search when every hit lies strictly inside the
/// box of its primitive, at a parameter above `tmin`: the boxes higher up enclose that
/// box, and a ray that passes through the inside of a box passes the slab test.
pub proof fn lemma_inner_hits_are_admitted(
    objects: Seq<Hittable>,
    nodes: Seq<BvhNode>,
    ray_in: Ray,
    tmin: Fixed,
    tmax: Fixed,
)
    requires
        tree_valid(nodes, objects),
        forall|k: int|
            0 <= k < objects.len() ==> (#[trigger] objects[k].spec_hit(ray_in, tmin, tmax) matches Some(
                g,
            ) ==> tmin.raw < g.t.raw && strictly_inside(
                objects[k].spec_bounding_box(),
                ray_in,
                g.t,
            )),
    ensures
        boxes_admit_hits(nodes, objects, ray_in, tmin, tmax),
{
    assert forall|i: int, k: usize, c: Fixed| 0 <= i < nodes.len() && k < objects.len() implies #[trigger] admits(
        nodes,
        objects,
        i,
        k,
        ray_in,
        tmin,
        tmax,
        c,
    ) by {
        match (nodes[i], objects[k as int].spec_hit(ray_in, tmin, tmax)) {
            (BvhNode::Node(d), Some(g)) => {
                if under(nodes, i, k) && g.t.raw < c.raw <= tmax.raw {
                    assert(node_encloses(nodes, objects, i, k));
                    lemma_strictly_inside_enclosing(
                        d.bbox,
                        objects[k as int].spec_bounding_box(),
                        ray_in,
                        g.t,
                    );
                    lemma_hit_aabb_through_interior(d.bbox, ray_in, tmin, c, g.t);
                }
            },
            _ => {},
        }
    }
}

/// Testing one primitive keeps a sound state sound, never moves the bound outwards,
/// and leaves the primitive without a nearer hit.
pub proof fn lemma_leaf_step(
    objects: Seq<Hittable>,
    k: int,
    ray_in: Ray,
    tmin: Fixed,
    tmax: Fixed,
    s: Nearest,
)
    requires
        0 <= k < objects.len(),
        state_sound(objects, ray_in, tmin, tmax, s),
        s.closest.raw <= tmax.raw,
    ensures
        state_sound(objects, ray_in, tmin, tmax, spec_leaf_step(objects[k], ray_in, tmin, s)),
        spec_leaf_step(objects[k], ray_in, tmin, s).closest.raw <= s.closest.raw,
        no_nearer(objects[k], ray_in, tmin, tmax, spec_leaf_step(objects[k], ray_in, tmin, s).closest),
{
    lemma_hit_range(objects[k], ray_in, tmin, s.closest, tmax);
    let after = spec_leaf_step(objects[k], ray_in, tmin, s);
    if after != s {
        let h = objects[k].spec_hit(ray_in, tmin, s.closest).unwrap();
        assert(objects[k].spec_hit(ray_in, tmin, tmax) == Some(h));
    }
}

/// Searching a subtree keeps a sound state sound and never moves the bound outwards,
/// whatever the boxes are.
pub proof fn lemma_visit_sound(
    objects: Seq<Hittable>,
    nodes: Seq<BvhNode>,
    i: int,
    ray_in: Ray,
    tmin: Fixed,
    tmax: Fixed,
    s: Nearest,
)
    requires
        state_sound(objects, ray_in, tmin, tmax, s),
        s.closest.raw <= tmax.raw,
    ensures
        state_sound(objects, ray_in, tmin, tmax, spec_visit(objects, nodes, i, ray_in, tmin, s)),
        spec_visit(objects, nodes, i, ray_in, tmin, s).closest.raw <= s.closest.raw,
    decreases nodes.len() - i,
{
    if 0 <= i < nodes.len() {
        match nodes[i] {
            BvhNode::Object(k) => {
                if k < objects.len() {
                    lemma_leaf_step(objects, k as int, ray_in, tmin, tmax, s);
                }
            },
            BvhNode::Node(d) => {
                if spec_hit_aabb(d.bbox, ray_in, tmin, s.closest) && i < d.left < nodes.len() && i
                    < d.right < nodes.len() {
                    let s1 = spec_visit(objects, nodes, d.right as int, ray_in, tmin, s);
                    lemma_visit_sound(objects, nodes, d.right as int, ray_in, tmin, tmax, s);
                    lemma_visit_sound(objects, nodes, d.left as int, ray_in, tmin, tmax, s1);
                }
            },
        }
    }
}

/// Whether `rec` is what one of the primitives reports for the ray between `tmin`
/// and `tmax`.
pub open spec fn is_hit_of_some(
    objects: Seq<Hittable>,
    ray_in: Ray,
    tmin: Fixed,
    tmax: Fixed,
    rec: HitRecord,
) -> bool {
    exists|k: int|
        0 <= k < objects.len() && #[trigger] objects[k].spec_hit(ray_in, tmin, tmax) == Some(rec)
}

/// What a search of any table of nodes reports is what one of the primitives reports
/// for the ray, at a parameter from `tmin` to below `tmax`, with that primitive's
/// material.
pub proof fn lemma_bvh_hit_is_direct(
    objects: Seq<Hittable>,
    nodes: Seq<BvhNode>,
    ray_in: Ray,
    tmin: Fixed,
    tmax: Fixed,
)
    ensures
        spec_hit_bvh(objects, nodes, ray_in, tmin, tmax) matches Some(rec) ==> is_hit_of_some(
            objects,
            ray_in,
            tmin,
            tmax,
            rec,
        ) && tmin.raw <= rec.t.raw < tmax.raw && material_of_some(objects, rec.material),
{
    let start = Nearest { closest: tmax, record: None };
    lemma_visit_sound(objects, nodes, 0, ray_in, tmin, tmax, start);
    match spec_hit_bvh(objects, nodes, ray_in, tmin, tmax) {
        None => {},
        Some(rec) => {
            let k = choose|k: int|
                0 <= k < objects.len() && #[trigger] objects[k].spec_hit(ray_in, tmin, tmax)
                    == Some(rec);
            lemma_hit_range(objects[k], ray_in, tmin, tmax, tmax);
            lemma_hit_material(objects[k], ray_in, tmin, tmax);
        },
    }
}

/// If the boxes are no obstacle, searching a subtree keeps a sound state sound, never
/// moves the bound outwards, and leaves no primitive of the subtree with a nearer hit.
pub proof fn lemma_visit_finds_nearest(
    objects: Seq<Hittable>,
    nodes: Seq<BvhNode>,
    i: int,
    ray_in: Ray,
    tmin: Fixed,
    tmax: Fixed,
    s: Nearest,
)
    requires
        tree_valid(nodes, objects),
        boxes_admit_hits(nodes, objects, ray_in, tmin, tmax),
        0 <= i < nodes.len(),
        state_sound(objects, ray_in, tmin, tmax, s),
        s.closest.raw <= tmax.raw,
    ensures
        state_sound(objects, ray_in, tmin, tmax, spec_visit(objects, nodes, i, ray_in, tmin, s)),
        spec_visit(objects, nodes, i, ray_in, tmin, s).closest.raw <= s.closest.raw,
        forall|k: usize|
            k < objects.len() && #[trigger] under(nodes, i, k) ==> no_nearer(
                objects[k as int],
                ray_in,
                tmin,
                tmax,
                spec_visit(objects, nodes, i, ray_in, tmin, s).closest,
            ),
    decreases nodes.len() - i,
{
    assert(children_follow(nodes, i));
    match nodes[i] {
        BvhNode::Object(j) => {
            lemma_leaf_step(objects, j as int, ray_in, tmin, tmax, s);
        },
        BvhNode::Node(d) => {
            if spec_hit_aabb(d.bbox, ray_in, tmin, s.closest) {
                let s1 = spec_visit(objects, nodes, d.right as int, ray_in, tmin, s);
                let s2 = spec_visit(objects, nodes, d.left as int, ray_in, tmin, s1);
                lemma_visit_finds_nearest(objects, nodes, d.right as int, ray_in, tmin, tmax, s);
                lemma_visit_finds_nearest(objects, nodes, d.left as int, ray_in, tmin, tmax, s1);
                assert forall|k: usize| k < objects.len() && #[trigger] under(nodes, i, k) implies no_nearer(
                    objects[k as int],
                    ray_in,
                    tmin,
                    tmax,
                    s2.closest,
                ) by {
                    assert(under(nodes, d.left as int, k) || under(nodes, d.right as int, k));
                    if under(nodes, d.right as int, k) {
                        assert(no_nearer(objects[k as int], ray_in, tmin, tmax, s1.closest));
                        assert(s2.closest.raw <= s1.closest.raw);
                    } else {
                        assert(no_nearer(objects[k as int], ray_in, tmin, tmax, s2.closest));
                    }
                }
            } else {
                assert forall|k: usize| k < objects.len() && #[trigger] under(nodes, i, k) implies no_nearer(
                    objects[k as int],
                    ray_in,
                    tmin,
                    tmax,
                    s.closest,
                ) by {
                    assert(admits(nodes, objects, i, k, ray_in, tmin, tmax, s.closest));
                }
            }
        },
    }
}

/// Scanning a list keeps the state sound and leaves no scanned primitive with a hit
/// that is nearer than the nearest found.
pub proof fn lemma_scan_finds_nearest(
    objects: Seq<Hittable>,
    count: int,
    ray_in: Ray,
    tmin: Fixed,
    tmax: Fixed,
)
    requires
        0 <= count <= objects.len(),
        forall|k: int|
            0 <= k < objects.len() ==> (#[trigger] objects[k].spec_hit(ray_in, tmin, tmax) matches Some(
                g,
            ) ==> g.t.raw < tmax.raw),
    ensures
        state_sound(objects, ray_in, tmin, tmax, spec_scan(objects, count, ray_in, tmin, tmax)),
        spec_scan(objects, count, ray_in, tmin, tmax).closest.raw <= tmax.raw,
        forall|k: int|
            0 <= k < count ==> no_nearer(
                #[trigger] objects[k],
                ray_in,
                tmin,
                tmax,
                spec_scan(objects, count, ray_in, tmin, tmax).closest,
            ),
    decreases count,
{
    if count > 0 {
        lemma_scan_finds_nearest(objects, count - 1, ray_in, tmin, tmax);
        let before = spec_scan(objects, count - 1, ray_in, tmin, tmax);
        let after = spec_scan(objects, count, ray_in, tmin, tmax);
        lemma_hit_range(objects[count - 1], ray_in, tmin, before.closest, tmax);
        if after != before {
            let h = objects[count - 1].spec_hit(ray_in, tmin, before.closest).unwrap();
            assert(objects[count - 1].spec_hit(ray_in, tmin, tmax) == Some(h));
        }
    }
}

/// The hierarchy finds what a scan of the whole list finds. Provided that the boxes
/// are no obstacle to the search and that no primitive is hit exactly at `tmax`,
/// both find nothing or both find a hit, at the same ray parameter; and where no two
/// primitives are hit at the same parameter, they find the same record.
pub proof fn lemma_bvh_agrees_with_scan(
    objects: Seq<Hittable>,
    nodes: Seq<BvhNode>,
    ray_in: Ray,
    tmin: Fixed,
    tmax: Fixed,
)
    requires
        objects.len() <= usize::MAX,
        tree_valid(nodes, objects),
        boxes_admit_hits(nodes, objects, ray_in, tmin, tmax),
        forall|k: int|
            0 <= k < objects.len() ==> (#[trigger] objects[k].spec_hit(ray_in, tmin, tmax) matches Some(
                g,
            ) ==> g.t.raw < tmax.raw),
    ensures
        spec_hit_bvh(objects, nodes, ray_in, tmin, tmax) is None <==> spec_scan(
            objects,
            objects.len() as int,
            ray_in,
            tmin,
            tmax,
        ).record is None,
        spec_hit_bvh(objects, nodes, ray_in, tmin, tmax) matches Some(a) ==> spec_scan(
            objects,
            objects.len() as int,
            ray_in,
            tmin,
            tmax,
        ).record matches Some(b) && a.t == b.t,
        (forall|j: int, k: int|
            0 <= j < k < objects.len() ==> (#[trigger] objects[j].spec_hit(ray_in, tmin, tmax)
                matches Some(p) ==> (#[trigger] objects[k].spec_hit(ray_in, tmin, tmax) matches Some(
                q,
            ) ==> p.t != q.t))) ==> spec_hit_bvh(objects, nodes, ray_in, tmin, tmax) == spec_scan(
            objects,
            objects.len() as int,
            ray_in,
            tmin,
            tmax,
        ).record,
{
    let start = Nearest { closest: tmax, record: None };
    let found = spec_visit(objects, nodes, 0, ray_in, tmin, start);
    let scanned = spec_scan(objects, objects.len() as int, ray_in, tmin, tmax);
    lemma_visit_finds_nearest(objects, nodes, 0, ray_in, tmin, tmax, start);
    lemma_scan_finds_nearest(objects, objects.len() as int, ray_in, tmin, tmax);
    assert forall|k: int| 0 <= k < objects.len() implies no_nearer(
        #[trigger] objects[k],
        ray_in,
        tmin,
        tmax,
        found.closest,
    ) by {
        assert(under(nodes, 0, k as usize));
    }
    assert(found.closest == scanned.closest);
}

} // verus!
