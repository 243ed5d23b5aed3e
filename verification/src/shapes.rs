//! The decisions of the primitive shapes' intersection tests: which root of
//! a sphere's intersection equation counts, and when the crossing of a
//! rectangle's plane is a hit. Computing roots and crossings is the front
//! end's arithmetic; choosing among them is done here.

use crate::hittable::narrowing_filters;
use vstd::prelude::*;

verus! {

/// `t` lies strictly inside the window.
pub open spec fn in_open_window(t: i64, t_min: i64, t_max: i64) -> bool {
    t_min < t < t_max
}

/// `t` lies inside the window, ends included.
pub open spec fn in_closed_window(t: i64, t_min: i64, t_max: i64) -> bool {
    t_min <= t <= t_max
}

/// The root at which a ray meets a sphere: the nearer root when it lies
/// strictly inside the window, else the farther root when that one does,
/// else none.
pub open spec fn sphere_root_spec(near: i64, far: i64, t_min: i64, t_max: i64) -> Option<i64> {
    if in_open_window(near, t_min, t_max) {
        Some(near)
    } else if in_open_window(far, t_min, t_max) {
        Some(far)
    } else {
        None
    }
}

/// The parameter at which a ray meets a rectangle whose plane it crosses at
/// `t`: `t` itself when it lies inside the window, ends included, and the
/// crossing point lies `inside` the rectangle; none otherwise.
pub open spec fn rect_hit_spec(t: i64, inside: bool, t_min: i64, t_max: i64) -> Option<i64> {
    if inside && in_closed_window(t, t_min, t_max) {
        Some(t)
    } else {
        None
    }
}

/// The point `(a, b)` of a rectangle's plane lies within the rectangle
/// `a0..a1` by `b0..b1`, edges included.
pub open spec fn inside_rect_spec(a: i64, a0: i64, a1: i64, b: i64, b0: i64, b1: i64) -> bool {
    a0 <= a <= a1 && b0 <= b <= b1
}

/// Chooses the root at which a ray meets a sphere. `has_roots` says whether
/// the intersection equation has two distinct roots at all.
pub fn sphere_root(has_roots: bool, near: i64, far: i64, t_min: i64, t_max: i64) -> (r: Option<i64>)
    ensures
        r == if has_roots {
            sphere_root_spec(near, far, t_min, t_max)
        } else {
            None
        },
        r matches Some(t) ==> in_open_window(t, t_min, t_max) && (t == near || t == far),
{
    if has_roots {
        if near < t_max && near > t_min {
            return Some(near);
        }
        if far < t_max && far > t_min {
            return Some(far);
        }
    }
    None
}

/// Whether the crossing of a rectangle's plane at `t` falls in the window.
pub fn in_window(t: i64, t_min: i64, t_max: i64) -> (r: bool)
    ensures
        r == in_closed_window(t, t_min, t_max),
{
    !(t < t_min || t > t_max)
}

/// Whether a point of a rectangle's plane lies within the rectangle.
pub fn inside_rect(a: i64, a0: i64, a1: i64, b: i64, b0: i64, b1: i64) -> (r: bool)
    ensures
        r == inside_rect_spec(a, a0, a1, b, b0, b1),
{
    !(a < a0 || a > a1 || b < b0 || b > b1)
}

/// The primitive `id` answers as a sphere with the roots `near` and `far`
/// does on every window that starts at `t_min`.
pub open spec fn answers_as_sphere(
    pt: spec_fn(usize, i64) -> Option<i64>,
    id: usize,
    near: i64,
    far: i64,
    t_min: i64,
) -> bool {
    forall|upper: i64| #[trigger] pt(id, upper) == sphere_root_spec(near, far, t_min, upper)
}

/// The primitive `id` answers as a rectangle whose plane the ray crosses at
/// `t` does on every window that starts at `t_min`.
pub open spec fn answers_as_rect(
    pt: spec_fn(usize, i64) -> Option<i64>,
    id: usize,
    t: i64,
    inside: bool,
    t_min: i64,
) -> bool {
    forall|upper: i64| #[trigger] pt(id, upper) == rect_hit_spec(t, inside, t_min, upper)
}

/// The primitive `id` never answers.
pub open spec fn never_answers(pt: spec_fn(usize, i64) -> Option<i64>, id: usize) -> bool {
    forall|upper: i64| (#[trigger] pt(id, upper)).is_none()
}

/// Every primitive is missed, or is a sphere whose roots are in order, or a
/// rectangle.
pub open spec fn spheres_and_rects(pt: spec_fn(usize, i64) -> Option<i64>, t_min: i64) -> bool {
    forall|id: usize|
        {
            ||| #[trigger] never_answers(pt, id)
            ||| exists|near: i64, far: i64| near <= far && #[trigger] answers_as_sphere(pt, id, near, far, t_min)
            ||| exists|t: i64, inside: bool| #[trigger] answers_as_rect(pt, id, t, inside, t_min)
        }
}

/// In a scene of spheres and rectangles, narrowing the window only filters:
/// such a scene meets what the agreement of traversal and linear scan asks
/// of the primitives.
pub proof fn lemma_spheres_and_rects_narrow(pt: spec_fn(usize, i64) -> Option<i64>, t_min: i64, t_max: i64)
    requires
        spheres_and_rects(pt, t_min),
    ensures
        narrowing_filters(pt, t_max),
{
    assert forall|id: usize, upper: i64| upper <= t_max implies match pt(id, t_max) {
        Some(t) => {
            &&& t < upper ==> #[trigger] pt(id, upper) == Some(t)
            &&& t > upper ==> pt(id, upper).is_none()
            &&& pt(id, upper).is_none() || pt(id, upper) == Some(t)
        },
        None => pt(id, upper).is_none(),
    } by {
        assert(never_answers(pt, id) || (exists|near: i64, far: i64|
            near <= far && #[trigger] answers_as_sphere(pt, id, near, far, t_min)) || (exists|
            t: i64,
            inside: bool,
        | #[trigger] answers_as_rect(pt, id, t, inside, t_min)));
        if never_answers(pt, id) {
            assert(pt(id, t_max).is_none());
            assert(pt(id, upper).is_none());
        } else if exists|near: i64, far: i64|
            near <= far && #[trigger] answers_as_sphere(pt, id, near, far, t_min) {
            let (near, far) = choose|near: i64, far: i64|
                near <= far && #[trigger] answers_as_sphere(pt, id, near, far, t_min);
            assert(pt(id, t_max) == sphere_root_spec(near, far, t_min, t_max));
            assert(pt(id, upper) == sphere_root_spec(near, far, t_min, upper));
        } else {
            let (t, inside) = choose|t: i64, inside: bool| #[trigger] answers_as_rect(pt, id, t, inside, t_min);
            assert(pt(id, t_max) == rect_hit_spec(t, inside, t_min, t_max));
            assert(pt(id, upper) == rect_hit_spec(t, inside, t_min, upper));
        }
    }
}

} // verus!
