use pathtracer::aabb::{Aabb, Vector3};
use pathtracer::bvh_tree::{box_x_compare, box_y_compare, box_z_compare, BinaryTree, BvhError, BvhTree, Item};
use pathtracer::hitable_list::HitableList;
use pathtracer::hittable::{nearer, HitRecord};

/// Box `i` of a row of disjoint boxes along the x axis.
fn row_box(i: usize) -> Aabb {
    let lo = 10 * i as i64;
    Aabb::new(Vector3::new(lo, 0, 0), Vector3::new(lo + 5, 1, 1))
}

/// `n` disjoint boxes in a scrambled order; `stride` and `n` share no factor.
fn scrambled_row(n: usize, stride: usize) -> Vec<Option<Aabb>> {
    (0..n).map(|k| Some(row_box((k * stride + 3) % n))).collect()
}

fn encloses(outer: &Aabb, inner: &Aabb) -> bool {
    (0..3).all(|a| outer.min.e[a] <= inner.min.e[a] && inner.max.e[a] <= outer.max.e[a])
}

fn check_boxes(tree: &BvhTree, boxes: &Vec<Option<Aabb>>) {
    match &tree.binary_tree {
        BinaryTree::Leaf(id) => {
            let own = boxes[*id].unwrap();
            assert_eq!((tree.aabb.min.e, tree.aabb.max.e), (own.min.e, own.max.e));
        }
        BinaryTree::Node(left, right) => {
            assert!(encloses(&tree.aabb, &left.aabb));
            assert!(encloses(&tree.aabb, &right.aabb));
            for a in 0..3 {
                assert_eq!(tree.aabb.min.e[a], left.aabb.min.e[a].min(right.aabb.min.e[a]));
                assert_eq!(tree.aabb.max.e[a], left.aabb.max.e[a].max(right.aabb.max.e[a]));
            }
            let n = tree.leaf_ids().len();
            assert_eq!(left.leaf_ids().len(), n / 2);
            check_boxes(left, boxes);
            check_boxes(right, boxes);
        }
    }
}

#[test]
fn empty_scene_is_refused() {
    assert_eq!(BvhTree::new(&Vec::new()).err(), Some(BvhError::Empty));
}

#[test]
fn primitive_without_box_is_refused() {
    let boxes = vec![Some(row_box(0)), None, Some(row_box(2)), None];
    assert_eq!(BvhTree::new(&boxes).err(), Some(BvhError::NoBoundingBox(1)));
    let boxes = vec![None];
    assert_eq!(BvhTree::new(&boxes).err(), Some(BvhError::NoBoundingBox(0)));
}

#[test]
fn single_primitive_becomes_a_leaf() {
    let boxes = vec![Some(row_box(4))];
    let tree = BvhTree::new(&boxes).ok().unwrap();
    assert!(matches!(tree.binary_tree, BinaryTree::Leaf(0)));
    assert_eq!(tree.bounding_box().min.e, [40, 0, 0]);
    assert_eq!(tree.bounding_box().max.e, [45, 1, 1]);
    assert_eq!(tree.leaf_ids(), vec![0]);
}

#[test]
fn every_primitive_is_exactly_one_leaf() {
    for n in 1..40 {
        let boxes = scrambled_row(n, 41);
        let tree = BvhTree::new(&boxes).ok().unwrap();
        let mut ids = tree.leaf_ids();
        ids.sort();
        let expected: Vec<usize> = (0..n).collect();
        assert_eq!(ids, expected);
    }
}

#[test]
fn tree_is_balanced_and_boxes_nest() {
    for n in 1..40 {
        let boxes = scrambled_row(n, 43);
        let tree = BvhTree::new(&boxes).ok().unwrap();
        check_boxes(&tree, &boxes);
    }
}

#[test]
fn root_box_is_the_merge_of_all() {
    let boxes = scrambled_row(9, 2);
    let tree = BvhTree::new(&boxes).ok().unwrap();
    assert_eq!(tree.bounding_box().min.e, [0, 0, 0]);
    assert_eq!(tree.bounding_box().max.e, [85, 1, 1]);
}

#[test]
fn compare_reads_the_least_corner() {
    let a = Item { id: 0, bbox: Aabb::new(Vector3::new(1, 5, 9), Vector3::new(2, 6, 10)) };
    let b = Item { id: 1, bbox: Aabb::new(Vector3::new(2, 5, 3), Vector3::new(9, 9, 9)) };
    assert!(box_x_compare(&a, &b));
    assert!(!box_x_compare(&b, &a));
    assert!(!box_y_compare(&a, &b));
    assert!(!box_y_compare(&b, &a));
    assert!(!box_z_compare(&a, &b));
    assert!(box_z_compare(&b, &a));
}

#[test]
fn nearer_prefers_smaller_parameter_and_right_on_ties() {
    let l = HitRecord { id: 1, t: 5 };
    let r = HitRecord { id: 2, t: 7 };
    assert_eq!(nearer(Some(l), Some(r)), Some(l));
    assert_eq!(nearer(Some(r), Some(l)), Some(l));
    assert_eq!(nearer(Some(l), None), Some(l));
    assert_eq!(nearer(None, Some(r)), Some(r));
    assert_eq!(nearer(None, None), None);
    let tie = HitRecord::new(3, 5);
    assert_eq!(tie, HitRecord { id: 3, t: 5 });
    assert_eq!(nearer(Some(l), Some(tie)), Some(tie));
}

#[test]
fn traversal_reports_the_only_primitive_hit() {
    // A ray that runs along y through x = 10 j + 2 meets box j alone, at
    // parameter 7, and passes through exactly the boxes whose x range holds
    // 10 j + 2.
    for n in 1..25 {
        let boxes = scrambled_row(n, 47);
        for _ in 0..4 {
            let tree = BvhTree::new(&boxes).ok().unwrap();
            for id in 0..n {
                let x = boxes[id].unwrap().min.e[0] + 2;
                let box_test = |b: &Aabb| b.min.e[0] <= x && x <= b.max.e[0];
                let prim_test = |p: usize, upper: i64| {
                    if p == id && 7 < upper {
                        Some(7)
                    } else {
                        None
                    }
                };
                assert_eq!(tree.hit(1000, &box_test, &prim_test), Some(HitRecord { id, t: 7 }));
                assert_eq!(tree.hit(7, &box_test, &prim_test), None);
            }
        }
    }
}

#[test]
fn traversal_agrees_with_linear_scan() {
    // A ray along x from x = -1 meets box i at parameter 10 i + 1 and passes
    // through every box of the row.
    for n in 1..25 {
        let boxes = scrambled_row(n, 53);
        let tree = BvhTree::new(&boxes).ok().unwrap();
        let list = HitableList::new((0..n).collect(), n as isize);
        for t_max in [0i64, 1, 2, 11, 12, 57, 1000] {
            let box_test = |b: &Aabb| b.min.e[0] + 1 < t_max;
            let prim_test = |p: usize, upper: i64| {
                let t = boxes[p].unwrap().min.e[0] + 1;
                if t < upper {
                    Some(t)
                } else {
                    None
                }
            };
            let by_tree = tree.hit(t_max, &box_test, &prim_test);
            let by_scan = list.hit(t_max, &prim_test);
            assert_eq!(by_tree.map(|h| h.t), by_scan.map(|h| h.t));
            if t_max > 1 {
                let first = boxes.iter().position(|b| b.unwrap().min.e[0] == 0).unwrap();
                assert_eq!(by_tree, Some(HitRecord { id: first, t: 1 }));
                assert_eq!(by_scan, Some(HitRecord { id: first, t: 1 }));
            } else {
                assert_eq!(by_tree, None);
                assert_eq!(by_scan, None);
            }
        }
    }
}

#[test]
fn traversal_prunes_a_missed_box() {
    let boxes = scrambled_row(8, 3);
    let tree = BvhTree::new(&boxes).ok().unwrap();
    let asked = std::cell::Cell::new(0usize);
    let box_test = |_b: &Aabb| false;
    let prim_test = |_p: usize, _upper: i64| {
        asked.set(asked.get() + 1);
        Some(1)
    };
    assert_eq!(tree.hit(1000, &box_test, &prim_test), None);
    assert_eq!(asked.get(), 0);
}

#[test]
fn traversal_tests_both_children_on_the_same_window() {
    let boxes = scrambled_row(6, 5);
    let tree = BvhTree::new(&boxes).ok().unwrap();
    let uppers = std::cell::RefCell::new(Vec::new());
    let box_test = |_b: &Aabb| true;
    let prim_test = |p: usize, upper: i64| {
        uppers.borrow_mut().push(upper);
        Some(p as i64)
    };
    let found = tree.hit(77, &box_test, &prim_test);
    assert_eq!(found.map(|h| h.t), Some(0));
    assert_eq!(uppers.borrow().len(), 6);
    assert!(uppers.borrow().iter().all(|&u| u == 77));
}

/// The slabs of the box `b` for a ray that runs along x from `(ox, y, z)`.
fn slabs_along_x(b: &Aabb, ox: i64, y: i64, z: i64) -> [pathtracer::aabb::Slab; 3] {
    let still = |o: i64, lo: i64, hi: i64| {
        if o < lo {
            pathtracer::aabb::Slab { first: i64::MAX, second: i64::MAX }
        } else if o > hi {
            pathtracer::aabb::Slab { first: i64::MIN, second: i64::MIN }
        } else {
            pathtracer::aabb::Slab { first: i64::MIN, second: i64::MAX }
        }
    };
    [
        pathtracer::aabb::Slab { first: b.min.e[0] - ox, second: b.max.e[0] - ox },
        still(y, b.min.e[1], b.max.e[1]),
        still(z, b.min.e[2], b.max.e[2]),
    ]
}

#[test]
fn traversal_with_the_slab_test_finds_the_first_box_in_the_way() {
    // solid boxes scattered over a grid; a ray along x enters a box at the
    // box's lower x face
    let mut boxes: Vec<Option<Aabb>> = Vec::new();
    for k in 0..30i64 {
        let x = (k * 37) % 100;
        let y = (k * 11) % 7;
        let z = (k * 5) % 3;
        boxes.push(Some(Aabb::new(Vector3::new(x, y, z), Vector3::new(x + 3, y + 2, z + 1))));
    }
    let list = HitableList::new((0..boxes.len()).collect(), boxes.len() as isize);
    for _ in 0..3 {
        let tree = BvhTree::new(&boxes).ok().unwrap();
        for y in 0..9 {
            for z in 0..4 {
                let t_min = 0;
                let t_max = 1000;
                let ox = -1;
                let box_test = |b: &Aabb| pathtracer::aabb::slabs_hit(&slabs_along_x(b, ox, y, z), t_min, t_max);
                let prim_test = |id: usize, upper: i64| {
                    let b = boxes[id].unwrap();
                    match pathtracer::aabb::slab_window(&slabs_along_x(&b, ox, y, z), t_min, t_max) {
                        Some((entry, _)) if entry < upper => Some(entry),
                        _ => None,
                    }
                };
                let by_tree = tree.hit(t_max, &box_test, &prim_test);
                let by_scan = list.hit(t_max, &prim_test);
                let brute = (0..boxes.len())
                    .filter_map(|id| prim_test(id, t_max))
                    .min();
                assert_eq!(by_tree.map(|h| h.t), brute);
                assert_eq!(by_scan.map(|h| h.t), brute);
            }
        }
    }
}
