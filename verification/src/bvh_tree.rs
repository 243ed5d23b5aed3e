//! The bounding-volume hierarchy: a balanced binary tree over the scene's
//! primitives in which every node caches a box around all that hangs below
//! it, so that a ray that misses the box can skip the subtree.

use crate::aabb::{merged, surrounding_box, Aabb};
use crate::hitable_list::{lemma_scan_is_nearest, scan};
use crate::hittable::{
    answers_as, box_answers_as, hit_of, is_nearest_among, lemma_nearest_parameter_unique, narrowing_filters, nearer,
    nearer_spec, HitRecord,
};
use crate::qsort::{decides, quick_sort, sorted, strict_order};
use crate::sampling::random_below;
use vstd::prelude::*;

verus! {

/// A leaf names one primitive; a node owns two subtrees.
pub enum BinaryTree {
    Leaf(usize),
    Node(Box<BvhTree>, Box<BvhTree>),
}

/// A subtree together with the box around it.
pub struct BvhTree {
    pub binary_tree: BinaryTree,
    pub aabb: Aabb,
}

/// Why no hierarchy could be built.
#[derive(Clone, Copy, Debug, PartialEq, Eq, Structural)]
pub enum BvhError {
    /// There is no primitive to index.
    Empty,
    /// The primitive at this position has no bounding box.
    NoBoundingBox(usize),
}

/// A primitive as the builder handles it: its position in the scene's list
/// and its box.
#[derive(Clone, Copy, Debug)]
pub struct Item {
    pub id: usize,
    pub bbox: Aabb,
}

/// Along `axis`, no box of the primitives `right` starts before a box of the
/// primitives `left`.
pub open spec fn split_along(left: Seq<usize>, right: Seq<usize>, boxes: Seq<Aabb>, axis: int) -> bool {
    forall|a: int, b: int|
        0 <= a < left.len() && 0 <= b < right.len() ==> boxes[(#[trigger] left[a]) as int].min.e[axis]
            <= boxes[(#[trigger] right[b]) as int].min.e[axis]
}

/// The order in which the builder sorts along `axis`: by the least corner's
/// ordinate on that axis.
pub open spec fn before_along(axis: int) -> spec_fn(Item, Item) -> bool {
    |item: Item, other: Item| item.bbox.min.e[axis] < other.bbox.min.e[axis]
}

/// Some item of `items` stands for the primitive `id`.
pub open spec fn holds_id(items: Seq<Item>, id: usize) -> bool {
    exists|k: int| 0 <= k < items.len() && (#[trigger] items[k]).id == id
}

/// Every item carries the box of the primitive it names, and no primitive is
/// named twice.
pub open spec fn items_valid(items: Seq<Item>, boxes: Seq<Aabb>) -> bool {
    &&& forall|k: int|
        0 <= k < items.len() ==> (#[trigger] items[k]).id < boxes.len() && items[k].bbox
            == boxes[items[k].id as int]
    &&& forall|i: int, j: int|
        0 <= i < j < items.len() ==> (#[trigger] items[i]).id != (#[trigger] items[j]).id
}

/// The boxes of a list in which every primitive has one.
pub open spec fn unboxed(boxes: Seq<Option<Aabb>>) -> Seq<Aabb> {
    Seq::new(boxes.len(), |i: int| boxes[i].unwrap())
}

/// A rearrangement of valid items is valid and names the same primitives.
proof fn lemma_rearranged_items(before: Seq<Item>, after: Seq<Item>, boxes: Seq<Aabb>)
    requires
        items_valid(before, boxes),
        after.to_multiset() == before.to_multiset(),
    ensures
        items_valid(after, boxes),
        forall|id: usize| holds_id(after, id) <==> holds_id(before, id),
{
    broadcast use vstd::multiset::group_multiset_axioms;

    assert forall|k: int| 0 <= k < after.len() implies (#[trigger] after[k]).id < boxes.len() && after[k].bbox
        == boxes[after[k].id as int] by {
        assert(after.contains(after[k]));
        vstd::seq_lib::to_multiset_contains(after, after[k]);
        vstd::seq_lib::to_multiset_contains(before, after[k]);
        assert(before.contains(after[k]));
        let m = choose|m: int| 0 <= m < before.len() && before[m] == after[k];
        assert(before[m].id < boxes.len());
    }
    assert(before.no_duplicates());
    before.lemma_multiset_has_no_duplicates();
    after.lemma_multiset_has_no_duplicates_conv();
    assert forall|i: int, j: int| 0 <= i < j < after.len() implies (#[trigger] after[i]).id
        != (#[trigger] after[j]).id by {
        if after[i].id == after[j].id {
            assert(after[i].bbox == after[j].bbox);
            assert(after[i] == after[j]);
        }
    }
    assert forall|id: usize| holds_id(after, id) <==> holds_id(before, id) by {
        if holds_id(after, id) {
            let k = choose|k: int| 0 <= k < after.len() && (#[trigger] after[k]).id == id;
            assert(after.contains(after[k]));
            vstd::seq_lib::to_multiset_contains(after, after[k]);
            vstd::seq_lib::to_multiset_contains(before, after[k]);
            assert(before.contains(after[k]));
            let m = choose|m: int| 0 <= m < before.len() && before[m] == after[k];
            assert(before[m].id == id);
        }
        if holds_id(before, id) {
            let k = choose|k: int| 0 <= k < before.len() && (#[trigger] before[k]).id == id;
            assert(before.contains(before[k]));
            vstd::seq_lib::to_multiset_contains(after, before[k]);
            vstd::seq_lib::to_multiset_contains(before, before[k]);
            assert(after.contains(before[k]));
            let m = choose|m: int| 0 <= m < after.len() && after[m] == before[k];
            assert(after[m].id == id);
        }
    }
}

/// Cutting valid items in two gives two valid lists that share no primitive
/// and together name the same primitives.
proof fn lemma_split_items(all: Seq<Item>, mid: int, boxes: Seq<Aabb>)
    requires
        items_valid(all, boxes),
        0 <= mid <= all.len(),
    ensures
        items_valid(all.subrange(0, mid), boxes),
        items_valid(all.subrange(mid, all.len() as int), boxes),
        forall|id: usize|
            holds_id(all, id) <==> (holds_id(all.subrange(0, mid), id) || holds_id(
                all.subrange(mid, all.len() as int),
                id,
            )),
        forall|id: usize|
            !(holds_id(all.subrange(0, mid), id) && holds_id(all.subrange(mid, all.len() as int), id)),
{
    let l = all.subrange(0, mid);
    let r = all.subrange(mid, all.len() as int);
    assert forall|k: int| 0 <= k < l.len() implies (#[trigger] l[k]).id < boxes.len() && l[k].bbox
        == boxes[l[k].id as int] by {
        assert(l[k] == all[k]);
    }
    assert forall|k: int| 0 <= k < r.len() implies (#[trigger] r[k]).id < boxes.len() && r[k].bbox
        == boxes[r[k].id as int] by {
        assert(r[k] == all[mid + k]);
    }
    assert forall|i: int, j: int| 0 <= i < j < l.len() implies (#[trigger] l[i]).id != (#[trigger] l[j]).id by {
        assert(l[i] == all[i] && l[j] == all[j]);
    }
    assert forall|i: int, j: int| 0 <= i < j < r.len() implies (#[trigger] r[i]).id != (#[trigger] r[j]).id by {
        assert(r[i] == all[mid + i] && r[j] == all[mid + j]);
    }
    assert forall|id: usize| holds_id(all, id) <==> (holds_id(l, id) || holds_id(r, id)) by {
        if holds_id(all, id) {
            let k = choose|k: int| 0 <= k < all.len() && (#[trigger] all[k]).id == id;
            if k < mid {
                assert(l[k].id == id);
            } else {
                assert(r[k - mid].id == id);
            }
        }
        if holds_id(l, id) {
            let k = choose|k: int| 0 <= k < l.len() && (#[trigger] l[k]).id == id;
            assert(all[k].id == id);
        }
        if holds_id(r, id) {
            let k = choose|k: int| 0 <= k < r.len() && (#[trigger] r[k]).id == id;
            assert(all[mid + k].id == id);
        }
    }
    assert forall|id: usize| !(holds_id(l, id) && holds_id(r, id)) by {
        if holds_id(l, id) && holds_id(r, id) {
            let a = choose|k: int| 0 <= k < l.len() && (#[trigger] l[k]).id == id;
            let b = choose|k: int| 0 <= k < r.len() && (#[trigger] r[k]).id == id;
            assert(all[a].id == id);
            assert(all[mid + b].id == id);
        }
    }
}

/// Builds the subtree over `items`: a leaf for a single item; otherwise the
/// items are sorted along a randomly drawn axis and cut at the midpoint.
fn build(items: Vec<Item>, Ghost(boxes): Ghost<Seq<Aabb>>) -> (tree: BvhTree)
    requires
        items@.len() >= 1,
        items_valid(items@, boxes),
    ensures
        tree.wf(boxes),
        tree.balanced(),
        tree.ordered(boxes),
        tree.leaves().len() == items@.len(),
        tree.leaves().no_duplicates(),
        forall|id: usize| #[trigger] tree.leaves().contains(id) <==> holds_id(items@, id),
    decreases items@.len(),
{
    let mut items = items;
    let n: usize = items.len();
    if n == 1 {
        let only = items[0];
        let tree = BvhTree { binary_tree: BinaryTree::Leaf(only.id), aabb: only.bbox };
        proof {
            assert(tree.leaves() =~= seq![only.id]);
            assert forall|id: usize| #[trigger] tree.leaves().contains(id) <==> holds_id(items@, id) by {
                if tree.leaves().contains(id) {
                    assert(items@[0].id == id);
                }
                if holds_id(items@, id) {
                    assert(tree.leaves()[0] == id);
                }
            }
        }
        tree
    } else {
        let ghost given = items@;
        let axis: usize = random_below(3);
        if axis == 0 {
            quick_sort(items.as_mut_slice(), &box_x_compare);
        } else if axis == 1 {
            quick_sort(items.as_mut_slice(), &box_y_compare);
        } else {
            quick_sort(items.as_mut_slice(), &box_z_compare);
        }
        let ghost sorted_items = items@;
        let ghost along = before_along(axis as int);
        proof {
            assert(strict_order(along));
            if axis == 0 {
                assert(decides(&box_x_compare, along));
            } else if axis == 1 {
                assert(decides(&box_y_compare, along));
            } else {
                assert(decides(&box_z_compare, along));
            }
            assert(sorted(sorted_items, along));
        }
        let mid: usize = n / 2;
        let upper = items.split_off(mid);
        proof {
            lemma_rearranged_items(given, sorted_items, boxes);
            lemma_split_items(sorted_items, mid as int, boxes);
        }
        let left = build(items, Ghost(boxes));
        let right = build(upper, Ghost(boxes));
        let aabb = surrounding_box(&left.aabb, &right.aabb);
        let tree = BvhTree { binary_tree: BinaryTree::Node(Box::new(left), Box::new(right)), aabb };
        proof {
            tree.lemma_children_leaves();
            let l = left.leaves();
            let r = right.leaves();
            assert(tree.leaves() == l + r);
            assert forall|i: int, j: int| 0 <= i < j < (l + r).len() implies (l + r)[i] != (l + r)[j] by {
                if j < l.len() {
                } else if i >= l.len() {
                    assert(r[i - l.len()] != r[j - l.len()]);
                } else {
                    assert(l.contains(l[i]));
                    assert(r.contains(r[j - l.len()]));
                }
            }
            assert forall|a: int, b: int| 0 <= a < l.len() && 0 <= b < r.len() implies boxes[(#[trigger] l[a]) as int].min.e[axis as int]
                <= boxes[(#[trigger] r[b]) as int].min.e[axis as int] by {
                assert(l.contains(l[a]));
                assert(r.contains(r[b]));
                let lower = sorted_items.subrange(0, mid as int);
                let higher = sorted_items.subrange(mid as int, n as int);
                let k = choose|k: int| 0 <= k < lower.len() && (#[trigger] lower[k]).id == l[a];
                let m = choose|m: int| 0 <= m < higher.len() && (#[trigger] higher[m]).id == r[b];
                assert(lower[k] == sorted_items[k]);
                assert(higher[m] == sorted_items[mid + m]);
                assert(!along(sorted_items[mid + m], sorted_items[k]));
            }
            assert(split_along(l, r, boxes, axis as int));
        }
        tree
    }
}

/// `item` comes before `other` along the x axis.
pub fn box_x_compare(item: &Item, other: &Item) -> (before: bool)
    ensures
        before == (item.bbox.min.e[0] < other.bbox.min.e[0]),
{
    item.bbox.min.e[0] < other.bbox.min.e[0]
}

/// `item` comes before `other` along the y axis.
pub fn box_y_compare(item: &Item, other: &Item) -> (before: bool)
    ensures
        before == (item.bbox.min.e[1] < other.bbox.min.e[1]),
{
    item.bbox.min.e[1] < other.bbox.min.e[1]
}

/// `item` comes before `other` along the z axis.
pub fn box_z_compare(item: &Item, other: &Item) -> (before: bool)
    ensures
        before == (item.bbox.min.e[2] < other.bbox.min.e[2]),
{
    item.bbox.min.e[2] < other.bbox.min.e[2]
}

impl BvhTree {
    /// The primitives below this node, left to right.
    pub open spec fn leaves(&self) -> Seq<usize>
        decreases self,
    {
        match self.binary_tree {
            BinaryTree::Leaf(id) => seq![id],
            BinaryTree::Node(left, right) => left.leaves() + right.leaves(),
        }
    }

    /// Every leaf caches the box of its primitive, and every node the merge
    /// of its children's boxes.
    pub open spec fn wf(&self, boxes: Seq<Aabb>) -> bool
        decreases self,
    {
        match self.binary_tree {
            BinaryTree::Leaf(id) => id < boxes.len() && self.aabb.same(&boxes[id as int]),
            BinaryTree::Node(left, right) => {
                &&& left.wf(boxes)
                &&& right.wf(boxes)
                &&& self.aabb.same(&merged(&left.aabb, &right.aabb))
            },
        }
    }

    /// At every node there is an axis along which the left child's
    /// primitives start no later than the right child's.
    pub open spec fn ordered(&self, boxes: Seq<Aabb>) -> bool
        decreases self,
    {
        match self.binary_tree {
            BinaryTree::Leaf(_) => true,
            BinaryTree::Node(left, right) => {
                &&& left.ordered(boxes)
                &&& right.ordered(boxes)
                &&& exists|axis: int|
                    0 <= axis < 3 && #[trigger] split_along(left.leaves(), right.leaves(), boxes, axis)
            },
        }
    }

    /// Every node gives its left child the lower half of its leaves.
    pub open spec fn balanced(&self) -> bool
        decreases self,
    {
        match self.binary_tree {
            BinaryTree::Leaf(_) => true,
            BinaryTree::Node(left, right) => {
                &&& left.balanced()
                &&& right.balanced()
                &&& left.leaves().len() == self.leaves().len() / 2
            },
        }
    }

    /// What the traversal returns for a ray whose box test is `bt` and whose
    /// primitive test is `pt`: a leaf asks its primitive; a node whose box
    /// the ray misses reports nothing; any other node asks both children on
    /// the same window and keeps the nearer answer.
    pub open spec fn hit_spec(
        &self,
        bt: spec_fn(Aabb) -> bool,
        pt: spec_fn(usize, i64) -> Option<i64>,
        t_max: i64,
    ) -> Option<HitRecord>
        decreases self,
    {
        match self.binary_tree {
            BinaryTree::Leaf(id) => hit_of(id, pt(id, t_max)),
            BinaryTree::Node(left, right) => if bt(self.aabb) {
                nearer_spec(left.hit_spec(bt, pt, t_max), right.hit_spec(bt, pt, t_max))
            } else {
                None
            },
        }
    }

    /// Builds the hierarchy over a scene's primitives, given the bounding box
    /// that each of them reports.
    ///
    /// Fails on an empty scene, and on a primitive without a box (the first
    /// such primitive is named). Otherwise every primitive becomes exactly one
    /// leaf of a balanced, well-formed tree, whatever axes are drawn.
    pub fn new(boxes: &Vec<Option<Aabb>>) -> (r: Result<BvhTree, BvhError>)
        ensures
            match r {
                Ok(tree) => {
                    &&& boxes@.len() > 0
                    &&& forall|k: int| 0 <= k < boxes@.len() ==> (#[trigger] boxes@[k]).is_some()
                    &&& tree.wf(unboxed(boxes@))
                    &&& tree.balanced()
                    &&& tree.ordered(unboxed(boxes@))
                    &&& tree.leaves().len() == boxes@.len()
                    &&& tree.leaves().no_duplicates()
                    &&& forall|id: usize| #[trigger] tree.leaves().contains(id) <==> id < boxes@.len()
                },
                Err(BvhError::Empty) => boxes@.len() == 0,
                Err(BvhError::NoBoundingBox(at)) => {
                    &&& at < boxes@.len()
                    &&& boxes@[at as int].is_none()
                    &&& forall|k: int| 0 <= k < at ==> (#[trigger] boxes@[k]).is_some()
                },
            },
    {
        let n: usize = boxes.len();
        if n == 0 {
            return Err(BvhError::Empty);
        }
        let mut items: Vec<Item> = Vec::with_capacity(n);
        let mut i: usize = 0;
        while i < n
            invariant
                n == boxes@.len(),
                i <= n,
                items@.len() == i,
                forall|k: int| 0 <= k < i ==> (#[trigger] boxes@[k]).is_some(),
                forall|k: int|
                    0 <= k < i ==> (#[trigger] items@[k]).id == k && items@[k].bbox == boxes@[k].unwrap(),
            decreases n - i,
        {
            match boxes[i] {
                Some(bbox) => {
                    items.push(Item { id: i, bbox });
                },
                None => {
                    return Err(BvhError::NoBoundingBox(i));
                },
            }
            i += 1;
        }
        let tree = build(items, Ghost(unboxed(boxes@)));
        proof {
            assert forall|id: usize| #[trigger] tree.leaves().contains(id) <==> id < boxes@.len() by {
                if id < boxes@.len() {
                    assert(items@[id as int].id == id);
                }
                if holds_id(items@, id) {
                    let k = choose|k: int| 0 <= k < items@.len() && (#[trigger] items@[k]).id == id;
                    assert(k == id);
                }
            }
        }
        Ok(tree)
    }

    /// The primitives below this node, left to right.
    pub fn leaf_ids(&self) -> (ids: Vec<usize>)
        ensures
            ids@ == self.leaves(),
        decreases self,
    {
        match &self.binary_tree {
            BinaryTree::Leaf(id) => {
                let mut ids: Vec<usize> = Vec::new();
                ids.push(*id);
                assert(ids@ =~= seq![*id]);
                ids
            },
            BinaryTree::Node(left, right) => {
                let mut ids = left.leaf_ids();
                let mut more = right.leaf_ids();
                ids.append(&mut more);
                ids
            },
        }
    }

    /// The box around everything below this node.
    pub fn bounding_box(&self) -> (b: Aabb)
        ensures
            b == self.aabb,
    {
        self.aabb
    }

    /// Looks for the nearest hit below `t_max`.
    ///
    /// `box_test(b)` reports whether the ray passes through the box `b`
    /// within the window; `prim_test(id, upper)` reports where it meets
    /// primitive `id` within the window that ends at `upper`. When both
    /// tests are functions of their arguments, the result is exactly
    /// `hit_spec`. Whatever they answer, a reported hit is an answer that
    /// the primitive test gave for a leaf on the full window.
    pub fn hit<B: Fn(&Aabb) -> bool, P: Fn(usize, i64) -> Option<i64>>(
        &self,
        t_max: i64,
        box_test: &B,
        prim_test: &P,
    ) -> (r: Option<HitRecord>)
        requires
            forall|b: Aabb| #[trigger] call_requires(*box_test, (&b,)),
            forall|id: usize|
                self.leaves().contains(id) ==> #[trigger] call_requires(*prim_test, (id, t_max)),
        ensures
            forall|bt: spec_fn(Aabb) -> bool, pt: spec_fn(usize, i64) -> Option<i64>|
                box_answers_as(box_test, bt) && answers_as(prim_test, pt) ==> r == #[trigger] self.hit_spec(
                    bt,
                    pt,
                    t_max,
                ),
            r matches Some(h) ==> self.leaves().contains(h.id) && call_ensures(
                *prim_test,
                (h.id, t_max),
                Some(h.t),
            ),
        decreases self,
    {
        match &self.binary_tree {
            BinaryTree::Leaf(id) => {
                proof {
                    assert(self.leaves()[0] == *id);
                }
                match prim_test(*id, t_max) {
                    Some(t) => Some(HitRecord { id: *id, t }),
                    None => None,
                }
            },
            BinaryTree::Node(left, right) => {
                proof {
                    self.lemma_children_leaves();
                }
                if box_test(&self.aabb) {
                    let left_rec = left.hit(t_max, box_test, prim_test);
                    let right_rec = right.hit(t_max, box_test, prim_test);
                    let r = nearer(left_rec, right_rec);
                    proof {
                        assert forall|bt: spec_fn(Aabb) -> bool, pt: spec_fn(usize, i64) -> Option<i64>|
                            box_answers_as(box_test, bt) && answers_as(prim_test, pt) implies r
                            == #[trigger] self.hit_spec(bt, pt, t_max) by {
                            assert(left_rec == left.hit_spec(bt, pt, t_max));
                            assert(right_rec == right.hit_spec(bt, pt, t_max));
                            assert(bt(self.aabb));
                        }
                    }
                    r
                } else {
                    proof {
                        assert forall|bt: spec_fn(Aabb) -> bool, pt: spec_fn(usize, i64) -> Option<i64>|
                            box_answers_as(box_test, bt) && answers_as(prim_test, pt) implies None::<HitRecord>
                            == #[trigger] self.hit_spec(bt, pt, t_max) by {
                            assert(!bt(self.aabb));
                        }
                    }
                    None
                }
            },
        }
    }

    /// The leaves of a node's children are leaves of the node.
    pub proof fn lemma_children_leaves(&self)
        ensures
            match self.binary_tree {
                BinaryTree::Leaf(_) => true,
                BinaryTree::Node(left, right) => forall|id: usize|
                    (left.leaves().contains(id) || right.leaves().contains(id)) <==> #[trigger] self.leaves().contains(
                        id,
                    ),
            },
    {
        match self.binary_tree {
            BinaryTree::Leaf(_) => {},
            BinaryTree::Node(left, right) => {
                let l = left.leaves();
                let r = right.leaves();
                assert forall|id: usize| (l.contains(id) || r.contains(id)) <==> #[trigger] (l + r).contains(
                    id,
                ) by {
                    if l.contains(id) {
                        let k = choose|k: int| 0 <= k < l.len() && l[k] == id;
                        assert((l + r)[k] == id);
                    }
                    if r.contains(id) {
                        let k = choose|k: int| 0 <= k < r.len() && r[k] == id;
                        assert((l + r)[l.len() + k] == id);
                    }
                    if (l + r).contains(id) {
                        let k = choose|k: int| 0 <= k < (l + r).len() && (l + r)[k] == id;
                        if k < l.len() {
                            assert(l[k] == id);
                        } else {
                            assert(r[k - l.len()] == id);
                        }
                    }
                }
            },
        }
    }
}

/// The box of a well-formed tree contains the box of every primitive below it.
pub proof fn lemma_box_encloses_leaves(tree: &BvhTree, boxes: Seq<Aabb>, id: usize)
    requires
        tree.wf(boxes),
        tree.leaves().contains(id),
    ensures
        id < boxes.len(),
        tree.aabb.encloses(&boxes[id as int]),
    decreases tree,
{
    match tree.binary_tree {
        BinaryTree::Leaf(own) => {
            assert(tree.leaves()[0] == own);
        },
        BinaryTree::Node(left, right) => {
            tree.lemma_children_leaves();
            if left.leaves().contains(id) {
                lemma_box_encloses_leaves(&*left, boxes, id);
            } else {
                lemma_box_encloses_leaves(&*right, boxes, id);
            }
        },
    }
}

/// A ray that meets a primitive passes through every box around it: the
/// box test accepts each box that contains the box of a primitive that
/// answers on the full window.
pub open spec fn boxes_sound(
    bt: spec_fn(Aabb) -> bool,
    pt: spec_fn(usize, i64) -> Option<i64>,
    boxes: Seq<Aabb>,
    t_max: i64,
) -> bool {
    forall|id: usize, b: Aabb|
        id < boxes.len() && (#[trigger] pt(id, t_max)).is_some() && #[trigger] b.encloses(&boxes[id as int])
            ==> bt(b)
}

/// Traversal finds what a search of every primitive finds: on a well-formed
/// tree with a sound box test, the result is a nearest hit among the leaves.
pub proof fn lemma_hit_is_nearest(
    tree: &BvhTree,
    boxes: Seq<Aabb>,
    bt: spec_fn(Aabb) -> bool,
    pt: spec_fn(usize, i64) -> Option<i64>,
    t_max: i64,
)
    requires
        tree.wf(boxes),
        boxes_sound(bt, pt, boxes, t_max),
    ensures
        is_nearest_among(tree.hit_spec(bt, pt, t_max), tree.leaves(), pt, t_max),
    decreases tree,
{
    let ids = tree.leaves();
    let found = tree.hit_spec(bt, pt, t_max);
    match tree.binary_tree {
        BinaryTree::Leaf(own) => {
            assert(ids[0] == own);
        },
        BinaryTree::Node(left, right) => {
            let l = left.leaves();
            let r = right.leaves();
            tree.lemma_children_leaves();
            lemma_hit_is_nearest(&*left, boxes, bt, pt, t_max);
            lemma_hit_is_nearest(&*right, boxes, bt, pt, t_max);
            if bt(tree.aabb) {
                assert forall|k: int| 0 <= k < ids.len() implies match #[trigger] pt(ids[k], t_max) {
                    Some(t) => found.is_some() && found.unwrap().t <= t,
                    None => true,
                } by {
                    if k < l.len() {
                        assert(ids[k] == l[k]);
                        assert(pt(l[k], t_max) == pt(ids[k], t_max));
                    } else {
                        assert(ids[k] == r[k - l.len()]);
                        assert(pt(r[k - l.len()], t_max) == pt(ids[k], t_max));
                    }
                }
            } else {
                assert forall|k: int| 0 <= k < ids.len() implies (#[trigger] pt(ids[k], t_max)).is_none() by {
                    if pt(ids[k], t_max).is_some() {
                        assert(ids.contains(ids[k]));
                        lemma_box_encloses_leaves(tree, boxes, ids[k]);
                        assert(tree.aabb.encloses(&boxes[ids[k] as int]));
                    }
                }
            }
        },
    }
}

/// When the ray meets exactly one primitive below the tree, traversal
/// reports that primitive with its parameter, however the tree was built.
pub proof fn lemma_single_hit(
    tree: &BvhTree,
    boxes: Seq<Aabb>,
    bt: spec_fn(Aabb) -> bool,
    pt: spec_fn(usize, i64) -> Option<i64>,
    t_max: i64,
    id: usize,
    t: i64,
)
    requires
        tree.wf(boxes),
        boxes_sound(bt, pt, boxes, t_max),
        tree.leaves().contains(id),
        pt(id, t_max) == Some(t),
        forall|other: usize|
            tree.leaves().contains(other) && other != id ==> (#[trigger] pt(other, t_max)).is_none(),
    ensures
        tree.hit_spec(bt, pt, t_max) == Some(HitRecord { id, t }),
{
    lemma_hit_is_nearest(tree, boxes, bt, pt, t_max);
    let ids = tree.leaves();
    let found = tree.hit_spec(bt, pt, t_max);
    let k = choose|k: int| 0 <= k < ids.len() && ids[k] == id;
    assert(pt(ids[k], t_max) == Some(t));
    assert(found.is_some());
    let h = found.unwrap();
    assert(ids.contains(h.id));
    if h.id != id {
        assert(pt(h.id, t_max).is_none());
    }
}

/// Traversal and the linear scan of the same primitives agree on whether
/// the ray hits and on the parameter of the hit.
pub proof fn lemma_hit_agrees_with_scan(
    tree: &BvhTree,
    boxes: Seq<Aabb>,
    bt: spec_fn(Aabb) -> bool,
    pt: spec_fn(usize, i64) -> Option<i64>,
    t_max: i64,
)
    requires
        tree.wf(boxes),
        boxes_sound(bt, pt, boxes, t_max),
        narrowing_filters(pt, t_max),
    ensures
        tree.hit_spec(bt, pt, t_max).is_some() == scan(tree.leaves(), pt, t_max).is_some(),
        tree.hit_spec(bt, pt, t_max).is_some() ==> tree.hit_spec(bt, pt, t_max).unwrap().t == scan(
            tree.leaves(),
            pt,
            t_max,
        ).unwrap().t,
{
    lemma_hit_is_nearest(tree, boxes, bt, pt, t_max);
    lemma_scan_is_nearest(tree.leaves(), pt, t_max);
    lemma_nearest_parameter_unique(
        tree.hit_spec(bt, pt, t_max),
        scan(tree.leaves(), pt, t_max),
        tree.leaves(),
        pt,
        t_max,
    );
}

} // verus!
