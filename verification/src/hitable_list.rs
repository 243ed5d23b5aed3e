//! The flat list composite: a linear scan that keeps the best hit so far and
//! shrinks the window to it.

use crate::aabb::{merged, surrounding_box, Aabb};
use crate::hittable::{answers_as, is_nearest_among, narrowing_filters, HitRecord};
use vstd::prelude::*;

verus! {

/// A list of primitives, scanned front to back.
pub struct HitableList {
    pub list: Vec<usize>,
    pub list_size: isize,
}

/// The best hit after one more answer: a primitive that answers replaces the
/// best so far.
pub open spec fn keep_closer_spec(best: Option<HitRecord>, id: usize, answer: Option<i64>) -> Option<HitRecord> {
    match answer {
        Some(t) => Some(HitRecord { id, t }),
        None => best,
    }
}

/// The upper end of the window once `best` has been found.
pub open spec fn bound_after(best: Option<HitRecord>, t_max: i64) -> i64 {
    match best {
        Some(h) => h.t,
        None => t_max,
    }
}

/// The result of scanning `ids` front to back: each primitive is tested on
/// the window that ends at the best parameter found before it, and replaces
/// the best when it answers.
pub open spec fn scan(ids: Seq<usize>, pt: spec_fn(usize, i64) -> Option<i64>, t_max: i64) -> Option<HitRecord>
    decreases ids.len(),
{
    if ids.len() == 0 {
        None
    } else {
        let before = scan(ids.drop_last(), pt, t_max);
        keep_closer_spec(before, ids.last(), pt(ids.last(), bound_after(before, t_max)))
    }
}

/// Folds one answer into the best hit so far.
pub fn keep_closer(best: Option<HitRecord>, id: usize, answer: Option<i64>) -> (r: Option<HitRecord>)
    ensures
        r == keep_closer_spec(best, id, answer),
{
    match answer {
        Some(t) => Some(HitRecord { id, t }),
        None => best,
    }
}

impl HitableList {
    pub fn new(list: Vec<usize>, list_size: isize) -> (l: HitableList)
        ensures
            l.list == list,
            l.list_size == list_size,
    {
        HitableList { list, list_size }
    }

    /// Scans the list for the nearest hit below `t_max`.
    ///
    /// `prim_test(id, upper)` reports where the ray meets primitive `id`
    /// within the window that ends at `upper`. When the test is a function
    /// of its arguments, the result is exactly `scan` of the list. Whatever
    /// the test answers, a reported hit is an answer that the test gave for
    /// a listed primitive.
    pub fn hit<P: Fn(usize, i64) -> Option<i64>>(&self, t_max: i64, prim_test: &P) -> (r: Option<HitRecord>)
        requires
            forall|id: usize, upper: i64|
                self.list@.contains(id) ==> #[trigger] call_requires(*prim_test, (id, upper)),
        ensures
            forall|pt: spec_fn(usize, i64) -> Option<i64>|
                answers_as(prim_test, pt) ==> r == #[trigger] scan(self.list@, pt, t_max),
            r matches Some(h) ==> self.list@.contains(h.id) && exists|upper: i64|
                call_ensures(*prim_test, (h.id, upper), Some(h.t)),
            self.list@.len() == 0 ==> r.is_none(),
    {
        let mut best: Option<HitRecord> = None;
        let mut closest_so_far: i64 = t_max;
        let mut i: usize = 0;
        proof {
            assert(self.list@.take(0) =~= Seq::<usize>::empty());
        }
        while i < self.list.len()
            invariant
                i <= self.list@.len(),
                closest_so_far == bound_after(best, t_max),
                forall|id: usize, upper: i64|
                    self.list@.contains(id) ==> #[trigger] call_requires(*prim_test, (id, upper)),
                forall|pt: spec_fn(usize, i64) -> Option<i64>|
                    answers_as(prim_test, pt) ==> best == #[trigger] scan(self.list@.take(i as int), pt, t_max),
                best matches Some(h) ==> self.list@.contains(h.id) && exists|upper: i64|
                    call_ensures(*prim_test, (h.id, upper), Some(h.t)),
            decreases self.list@.len() - i,
        {
            let id: usize = self.list[i];
            assert(self.list@.contains(id)) by {
                assert(self.list@[i as int] == id);
            }
            let answer = prim_test(id, closest_so_far);
            let ghost before = best;
            best = keep_closer(best, id, answer);
            proof {
                let ids = self.list@.take(i + 1);
                assert(ids.drop_last() =~= self.list@.take(i as int));
                assert(ids.last() == id);
                assert forall|pt: spec_fn(usize, i64) -> Option<i64>| answers_as(prim_test, pt) implies best
                    == #[trigger] scan(ids, pt, t_max) by {
                    assert(before == scan(self.list@.take(i as int), pt, t_max));
                    assert(answer == pt(id, closest_so_far));
                }
                if answer.is_some() {
                    assert(self.list@[i as int] == id);
                    assert(call_ensures(*prim_test, (id, closest_so_far), Some(answer.unwrap())));
                }
            }
            closest_so_far = match best {
                Some(h) => h.t,
                None => t_max,
            };
            i += 1;
        }
        proof {
            assert(self.list@.take(i as int) =~= self.list@);
        }
        best
    }
}

/// The position of the first element at or after `from` that has no box, or
/// the length of the list when all have one.
pub open spec fn first_unboxed(boxes: Seq<Option<Aabb>>, from: int) -> int
    decreases boxes.len() - from,
{
    if 0 <= from < boxes.len() && boxes[from].is_some() {
        first_unboxed(boxes, from + 1)
    } else {
        from
    }
}

/// The merge of the boxes of the first `n` elements, `n` at least one.
pub open spec fn merged_prefix(boxes: Seq<Option<Aabb>>, n: int) -> Aabb
    decreases n,
{
    if n <= 1 {
        boxes[0].unwrap()
    } else {
        merged(&merged_prefix(boxes, n - 1), &boxes[n - 1].unwrap())
    }
}

/// The box around a list, from the boxes that its elements report.
///
/// An empty list has none, nor has a list whose first element has none.
/// Otherwise the boxes are merged front to back, up to the first element
/// without a box.
pub fn list_bounding_box(boxes: &Vec<Option<Aabb>>) -> (r: Option<Aabb>)
    ensures
        r.is_none() <==> (boxes@.len() == 0 || boxes@[0].is_none()),
        r matches Some(b) ==> b.same(&merged_prefix(boxes@, first_unboxed(boxes@, 0))),
        r matches Some(b) ==> forall|k: int|
            0 <= k < first_unboxed(boxes@, 0) ==> b.encloses(&(#[trigger] boxes@[k]).unwrap()),
{
    if boxes.len() == 0 {
        return None;
    }
    match boxes[0] {
        None => None,
        Some(first) => {
            let mut hit_bbox = first;
            let mut i: usize = 1;
            while i < boxes.len()
                invariant
                    1 <= i <= boxes@.len(),
                    forall|k: int| 0 <= k < i ==> (#[trigger] boxes@[k]).is_some(),
                    first_unboxed(boxes@, 0) == first_unboxed(boxes@, i as int),
                    hit_bbox.same(&merged_prefix(boxes@, i as int)),
                    forall|k: int| 0 <= k < i ==> hit_bbox.encloses(&(#[trigger] boxes@[k]).unwrap()),
                decreases boxes@.len() - i,
            {
                match boxes[i] {
                    Some(bbox) => {
                        let ghost prev = hit_bbox;
                        hit_bbox = surrounding_box(&hit_bbox, &bbox);
                        proof {
                            let m = merged(&merged_prefix(boxes@, i as int), &bbox);
                            assert(hit_bbox.min@ =~= m.min@);
                            assert(hit_bbox.max@ =~= m.max@);
                            assert forall|k: int| 0 <= k < i + 1 implies hit_bbox.encloses(
                                &(#[trigger] boxes@[k]).unwrap(),
                            ) by {
                                if k < i {
                                    assert(prev.encloses(&boxes@[k].unwrap()));
                                }
                            }
                        }
                    },
                    None => {
                        return Some(hit_bbox);
                    },
                }
                i += 1;
            }
            Some(hit_bbox)
        },
    }
}

/// Under a test whose narrowed windows only filter, the scan finds a nearest
/// hit among the listed primitives.
pub proof fn lemma_scan_is_nearest(ids: Seq<usize>, pt: spec_fn(usize, i64) -> Option<i64>, t_max: i64)
    requires
        narrowing_filters(pt, t_max),
    ensures
        is_nearest_among(scan(ids, pt, t_max), ids, pt, t_max),
        bound_after(scan(ids, pt, t_max), t_max) <= t_max,
    decreases ids.len(),
{
    if ids.len() > 0 {
        let front = ids.drop_last();
        let id = ids.last();
        lemma_scan_is_nearest(front, pt, t_max);
        let before = scan(front, pt, t_max);
        let bound = bound_after(before, t_max);
        let found = scan(ids, pt, t_max);
        assert(match pt(id, t_max) {
            Some(t) => {
                &&& t < bound ==> pt(id, bound) == Some(t)
                &&& t > bound ==> pt(id, bound).is_none()
                &&& pt(id, bound).is_none() || pt(id, bound) == Some(t)
            },
            None => pt(id, bound).is_none(),
        });
        assert(match pt(id, t_max) {
            Some(t) => t <= t_max,
            None => true,
        }) by {
            assert(match pt(id, t_max) {
                Some(t) => t > t_max ==> pt(id, t_max).is_none(),
                None => true,
            });
        }
        assert forall|k: int| 0 <= k < ids.len() implies match #[trigger] pt(ids[k], t_max) {
            Some(t) => found.is_some() && found.unwrap().t <= t,
            None => true,
        } by {
            if k < front.len() {
                assert(ids[k] == front[k]);
                assert(pt(front[k], t_max) == pt(ids[k], t_max));
            }
        }
        match found {
            Some(h) => {
                if pt(id, bound).is_some() {
                    assert(ids[ids.len() - 1] == h.id);
                    assert(pt(id, t_max) == Some(h.t));
                } else {
                    let k = choose|k: int| 0 <= k < front.len() && front[k] == h.id;
                    assert(ids[k] == h.id);
                }
            },
            None => {},
        }
    }
}

} // verus!
