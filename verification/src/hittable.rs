//! What an intersection test hands back, and how two answers are compared.
//!
//! A scene is a list of primitives, each known to this crate by its position
//! in that list. Whether a ray meets a primitive, and at which ray parameter,
//! is computed by the front end; the crate asks through a test function and
//! decides which answer wins.

use crate::aabb::Aabb;
use vstd::prelude::*;

verus! {

/// A ray meets the primitive `id` at ray parameter `t`.
#[derive(Clone, Copy, Debug, PartialEq, Eq, Structural)]
pub struct HitRecord {
    pub id: usize,
    pub t: i64,
}

impl HitRecord {
    pub fn new(id: usize, t: i64) -> (rec: HitRecord)
        ensures
            rec == (HitRecord { id, t }),
    {
        HitRecord { id, t }
    }
}

/// A primitive's answer as a hit, if it has one.
pub open spec fn hit_of(id: usize, answer: Option<i64>) -> Option<HitRecord> {
    match answer {
        Some(t) => Some(HitRecord { id, t }),
        None => None,
    }
}

/// Of two subtree answers the one with the strictly smaller parameter wins;
/// on a tie the right one does. A lone answer wins by default.
pub open spec fn nearer_spec(left: Option<HitRecord>, right: Option<HitRecord>) -> Option<HitRecord> {
    match (left, right) {
        (Some(l), Some(r)) => if l.t < r.t {
            Some(l)
        } else {
            Some(r)
        },
        (Some(l), None) => Some(l),
        (None, Some(r)) => Some(r),
        (None, None) => None,
    }
}

/// The primitive test `prim_test` always answers as `pt` does. The second
/// argument of a test is the upper end of the window of ray parameters.
pub open spec fn answers_as<P: Fn(usize, i64) -> Option<i64>>(
    prim_test: &P,
    pt: spec_fn(usize, i64) -> Option<i64>,
) -> bool {
    forall|id: usize, upper: i64, r: Option<i64>| #[trigger]
        call_ensures(*prim_test, (id, upper), r) ==> r == pt(id, upper)
}

/// The box test `box_test` always answers as `bt` does.
pub open spec fn box_answers_as<B: Fn(&Aabb) -> bool>(box_test: &B, bt: spec_fn(Aabb) -> bool) -> bool {
    forall|b: Aabb, r: bool| #[trigger] call_ensures(*box_test, (&b,), r) ==> r == bt(b)
}

/// Narrowing the window only filters: below the upper end `upper`, a
/// primitive that answers on the full window with a parameter strictly below
/// `upper` gives the same answer, one whose parameter lies strictly above
/// `upper` gives none, and no primitive ever gives another answer than on the
/// full window. A parameter equal to `upper` may go either way, so a
/// primitive may treat its window as open or as closed.
pub open spec fn narrowing_filters(pt: spec_fn(usize, i64) -> Option<i64>, t_max: i64) -> bool {
    forall|id: usize, upper: i64|
        upper <= t_max ==> match pt(id, t_max) {
            Some(t) => {
                &&& t < upper ==> #[trigger] pt(id, upper) == Some(t)
                &&& t > upper ==> pt(id, upper).is_none()
                &&& pt(id, upper).is_none() || pt(id, upper) == Some(t)
            },
            None => pt(id, upper).is_none(),
        }
}

/// `found` is a nearest hit among the primitives `ids` on the full window:
/// nothing, when none of them answers; otherwise the answer of one of them,
/// and no other answer is strictly smaller.
pub open spec fn is_nearest_among(
    found: Option<HitRecord>,
    ids: Seq<usize>,
    pt: spec_fn(usize, i64) -> Option<i64>,
    t_max: i64,
) -> bool {
    match found {
        None => forall|k: int| 0 <= k < ids.len() ==> (#[trigger] pt(ids[k], t_max)).is_none(),
        Some(h) => {
            &&& ids.contains(h.id)
            &&& pt(h.id, t_max) == Some(h.t)
            &&& forall|k: int|
                0 <= k < ids.len() ==> match #[trigger] pt(ids[k], t_max) {
                    Some(t) => h.t <= t,
                    None => true,
                }
        },
    }
}

/// Picks the nearer of two answers.
pub fn nearer(left: Option<HitRecord>, right: Option<HitRecord>) -> (r: Option<HitRecord>)
    ensures
        r == nearer_spec(left, right),
{
    match (left, right) {
        (Some(l), Some(r)) => if l.t < r.t {
            Some(l)
        } else {
            Some(r)
        },
        (Some(l), None) => Some(l),
        (None, Some(r)) => Some(r),
        (None, None) => None,
    }
}

/// Two nearest hits among the same primitives have the same parameter.
pub proof fn lemma_nearest_parameter_unique(
    a: Option<HitRecord>,
    b: Option<HitRecord>,
    ids: Seq<usize>,
    pt: spec_fn(usize, i64) -> Option<i64>,
    t_max: i64,
)
    requires
        is_nearest_among(a, ids, pt, t_max),
        is_nearest_among(b, ids, pt, t_max),
    ensures
        a.is_some() == b.is_some(),
        a.is_some() ==> a.unwrap().t == b.unwrap().t,
{
    if a.is_some() {
        let h = a.unwrap();
        let k = choose|k: int| 0 <= k < ids.len() && ids[k] == h.id;
        assert(pt(ids[k], t_max) == Some(h.t));
        if b.is_some() {
            let g = b.unwrap();
            let m = choose|m: int| 0 <= m < ids.len() && ids[m] == g.id;
            assert(pt(ids[m], t_max) == Some(g.t));
        }
    } else if b.is_some() {
        let g = b.unwrap();
        let m = choose|m: int| 0 <= m < ids.len() && ids[m] == g.id;
        assert(pt(ids[m], t_max) == Some(g.t));
    }
}

} // verus!
