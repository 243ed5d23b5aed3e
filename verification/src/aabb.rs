//! Axis-aligned bounding boxes over ordinates, and the merge of two boxes.

use vstd::prelude::*;

verus! {

/// A triple of ordinates, one per axis.
#[derive(Clone, Copy, Debug)]
pub struct Vector3 {
    pub e: [i64; 3],
}

impl Vector3 {
    pub open spec fn spec_x(&self) -> i64 {
        self.e[0]
    }

    pub open spec fn spec_y(&self) -> i64 {
        self.e[1]
    }

    pub open spec fn spec_z(&self) -> i64 {
        self.e[2]
    }

    /// The triple as a sequence of three ordinates.
    pub open spec fn view(&self) -> Seq<i64> {
        self.e@
    }

    /// Component-wise `<=`.
    pub open spec fn le(&self, other: &Vector3) -> bool {
        forall|a: int| 0 <= a < 3 ==> self.e[a] <= other.e[a]
    }

    pub fn new(e0: i64, e1: i64, e2: i64) -> (v: Vector3)
        ensures
            v@ == seq![e0, e1, e2],
    {
        let v = Vector3 { e: [e0, e1, e2] };
        assert(v.e@ =~= seq![e0, e1, e2]);
        v
    }

    /// The first channel of a colour.
    pub fn r(&self) -> (r: i64)
        ensures
            r == self.e[0],
    {
        self.e[0]
    }

    /// The second channel of a colour.
    pub fn g(&self) -> (r: i64)
        ensures
            r == self.e[1],
    {
        self.e[1]
    }

    /// The third channel of a colour.
    pub fn b(&self) -> (r: i64)
        ensures
            r == self.e[2],
    {
        self.e[2]
    }

    #[verifier::when_used_as_spec(spec_x)]
    pub fn x(&self) -> (r: i64)
        ensures
            r == self.e[0],
    {
        self.e[0]
    }

    #[verifier::when_used_as_spec(spec_y)]
    pub fn y(&self) -> (r: i64)
        ensures
            r == self.e[1],
    {
        self.e[1]
    }

    #[verifier::when_used_as_spec(spec_z)]
    pub fn z(&self) -> (r: i64)
        ensures
            r == self.e[2],
    {
        self.e[2]
    }
}

pub open spec fn min_ord(a: i64, b: i64) -> i64 {
    if a <= b {
        a
    } else {
        b
    }
}

pub open spec fn max_ord(a: i64, b: i64) -> i64 {
    if a >= b {
        a
    } else {
        b
    }
}

/// An axis-aligned box given by its least and greatest corner.
#[derive(Clone, Copy, Debug)]
pub struct Aabb {
    pub min: Vector3,
    pub max: Vector3,
}

impl Aabb {
    /// The box is not inside out: `min <= max` on every axis.
    pub open spec fn wf(&self) -> bool {
        self.min.le(&self.max)
    }

    /// `self` contains every point of `inner`.
    pub open spec fn encloses(&self, inner: &Aabb) -> bool {
        self.min.le(&inner.min) && inner.max.le(&self.max)
    }

    /// The point `p` lies in the box, faces included.
    pub open spec fn holds_point(&self, p: &Vector3) -> bool {
        self.min.le(p) && p.le(&self.max)
    }

    /// Both boxes have the same corners.
    pub open spec fn same(&self, other: &Aabb) -> bool {
        self.min@ == other.min@ && self.max@ == other.max@
    }

    pub fn new(min: Vector3, max: Vector3) -> (b: Aabb)
        ensures
            b.min == min,
            b.max == max,
    {
        Aabb { min, max }
    }
}

/// The smallest box that contains both `a` and `b`: the least of the two
/// minima and the greatest of the two maxima on every axis.
pub open spec fn merged(a: &Aabb, b: &Aabb) -> Aabb {
    Aabb {
        min: Vector3 {
            e: [
                min_ord(a.min.e[0], b.min.e[0]),
                min_ord(a.min.e[1], b.min.e[1]),
                min_ord(a.min.e[2], b.min.e[2]),
            ],
        },
        max: Vector3 {
            e: [
                max_ord(a.max.e[0], b.max.e[0]),
                max_ord(a.max.e[1], b.max.e[1]),
                max_ord(a.max.e[2], b.max.e[2]),
            ],
        },
    }
}

fn least(a: i64, b: i64) -> (r: i64)
    ensures
        r == min_ord(a, b),
{
    if a <= b {
        a
    } else {
        b
    }
}

fn greatest(a: i64, b: i64) -> (r: i64)
    ensures
        r == max_ord(a, b),
{
    if a >= b {
        a
    } else {
        b
    }
}

/// Merges two boxes.
pub fn surrounding_box(box0: &Aabb, box1: &Aabb) -> (b: Aabb)
    ensures
        b.same(&merged(box0, box1)),
        b.encloses(box0),
        b.encloses(box1),
        box0.wf() || box1.wf() ==> b.wf(),
{
    let small = Vector3::new(
        least(box0.min.x(), box1.min.x()),
        least(box0.min.y(), box1.min.y()),
        least(box0.min.z(), box1.min.z()),
    );
    let big = Vector3::new(
        greatest(box0.max.x(), box1.max.x()),
        greatest(box0.max.y(), box1.max.y()),
        greatest(box0.max.z(), box1.max.z()),
    );
    let b = Aabb::new(small, big);
    proof {
        assert(b.min@ =~= merged(box0, box1).min@);
        assert(b.max@ =~= merged(box0, box1).max@);
    }
    b
}

/// The two ray parameters at which a ray crosses the pair of planes that
/// bound a box on one axis, in either order.
#[derive(Clone, Copy, Debug)]
pub struct Slab {
    pub first: i64,
    pub second: i64,
}

impl Slab {
    /// The parameter at which the ray enters the slab.
    pub open spec fn entry(&self) -> i64 {
        min_ord(self.first, self.second)
    }

    /// The parameter at which the ray leaves the slab.
    pub open spec fn exit(&self) -> i64 {
        max_ord(self.first, self.second)
    }
}

/// The lower end of the window `t_min..t_max` once it has been cut down to
/// the three slabs: the greatest of `t_min` and the entries.
pub open spec fn window_start(slabs: Seq<Slab>, t_min: i64) -> i64 {
    max_ord(max_ord(max_ord(t_min, slabs[0].entry()), slabs[1].entry()), slabs[2].entry())
}

/// The upper end of the window once it has been cut down to the three
/// slabs: the least of `t_max` and the exits.
pub open spec fn window_end(slabs: Seq<Slab>, t_max: i64) -> i64 {
    min_ord(min_ord(min_ord(t_max, slabs[0].exit()), slabs[1].exit()), slabs[2].exit())
}

/// The window, cut down to the three slabs, is not empty.
pub open spec fn slabs_hit_spec(slabs: Seq<Slab>, t_min: i64, t_max: i64) -> bool {
    window_start(slabs, t_min) < window_end(slabs, t_max)
}

/// The window `lo..hi` cut down to one slab; nothing when the cut leaves it
/// empty.
pub open spec fn shrink_spec(lo: i64, hi: i64, slab: Slab) -> Option<(i64, i64)> {
    if min_ord(hi, slab.exit()) <= max_ord(lo, slab.entry()) {
        None
    } else {
        Some((max_ord(lo, slab.entry()), min_ord(hi, slab.exit())))
    }
}

/// Cuts a window down to one slab.
pub fn shrink(lo: i64, hi: i64, slab: &Slab) -> (r: Option<(i64, i64)>)
    ensures
        r == shrink_spec(lo, hi, *slab),
{
    let t0 = least(slab.first, slab.second);
    let t1 = greatest(slab.first, slab.second);
    let tmin = greatest(lo, t0);
    let tmax = least(hi, t1);
    if tmax <= tmin {
        None
    } else {
        Some((tmin, tmax))
    }
}

/// The stretch of the window in which the ray is inside the box: the window
/// is cut down to each axis' slab in turn, and the ray misses the box as
/// soon as nothing is left. What is left at the end is the window between
/// the greatest entry and the least exit.
pub fn slab_window(slabs: &[Slab; 3], t_min: i64, t_max: i64) -> (r: Option<(i64, i64)>)
    ensures
        r.is_some() == slabs_hit_spec(slabs@, t_min, t_max),
        r matches Some(w) ==> w.0 == window_start(slabs@, t_min) && w.1 == window_end(slabs@, t_max),
{
    match shrink(t_min, t_max, &slabs[0]) {
        None => None,
        Some((lo, hi)) => match shrink(lo, hi, &slabs[1]) {
            None => None,
            Some((lo, hi)) => shrink(lo, hi, &slabs[2]),
        },
    }
}

/// The slab test: whether the ray passes through the box within the window.
pub fn slabs_hit(slabs: &[Slab; 3], t_min: i64, t_max: i64) -> (hit: bool)
    ensures
        hit == slabs_hit_spec(slabs@, t_min, t_max),
{
    slab_window(slabs, t_min, t_max).is_some()
}

/// Some point of `points[..upto]` lies on the lower face of `b` along `axis`.
pub open spec fn touches_min(points: Seq<Vector3>, upto: int, b: Aabb, axis: int) -> bool {
    exists|k: int| 0 <= k < upto && (#[trigger] points[k]).e[axis] == b.min.e[axis]
}

/// Some point of `points[..upto]` lies on the upper face of `b` along `axis`.
pub open spec fn touches_max(points: Seq<Vector3>, upto: int, b: Aabb, axis: int) -> bool {
    exists|k: int| 0 <= k < upto && (#[trigger] points[k]).e[axis] == b.max.e[axis]
}

/// `b` is the tight box around `points[..upto]`: it holds each of the points,
/// and each of its faces touches one.
pub open spec fn tight_around(b: Aabb, points: Seq<Vector3>, upto: int) -> bool {
    &&& forall|k: int| 0 <= k < upto ==> b.holds_point(#[trigger] &points[k])
    &&& forall|axis: int| 0 <= axis < 3 ==> #[trigger] touches_min(points, upto, b, axis)
    &&& forall|axis: int| 0 <= axis < 3 ==> #[trigger] touches_max(points, upto, b, axis)
}

/// The tight box around a set of points: the component-wise extrema. There
/// is no box around no points.
pub fn box_around(points: &Vec<Vector3>) -> (r: Option<Aabb>)
    ensures
        r.is_none() <==> points@.len() == 0,
        r matches Some(b) ==> b.wf() && tight_around(b, points@, points@.len() as int),
{
    if points.len() == 0 {
        return None;
    }
    let mut b = Aabb::new(points[0], points[0]);
    proof {
        assert forall|axis: int| 0 <= axis < 3 implies #[trigger] touches_min(points@, 1, b, axis) by {
            assert(points@[0].e[axis] == b.min.e[axis]);
        }
        assert forall|axis: int| 0 <= axis < 3 implies #[trigger] touches_max(points@, 1, b, axis) by {
            assert(points@[0].e[axis] == b.max.e[axis]);
        }
    }
    let mut i: usize = 1;
    while i < points.len()
        invariant
            1 <= i <= points@.len(),
            b.wf(),
            tight_around(b, points@, i as int),
        decreases points@.len() - i,
    {
        let p = points[i];
        let ghost prev = b;
        let point_box = Aabb::new(p, p);
        b = surrounding_box(&b, &point_box);
        proof {
            assert forall|k: int| 0 <= k < i + 1 implies b.holds_point(#[trigger] &points@[k]) by {
                if k < i {
                    assert(prev.holds_point(&points@[k]));
                }
            }
            assert forall|axis: int| 0 <= axis < 3 implies #[trigger] touches_min(
                points@,
                i + 1,
                b,
                axis,
            ) by {
                assert(b.min@[axis] == merged(&prev, &point_box).min@[axis]);
                if b.min.e[axis] == prev.min.e[axis] {
                    assert(touches_min(points@, i as int, prev, axis));
                    let k = choose|k: int| 0 <= k < i && (#[trigger] points@[k]).e[axis] == prev.min.e[axis];
                    assert(points@[k].e[axis] == b.min.e[axis]);
                } else {
                    assert(points@[i as int].e[axis] == b.min.e[axis]);
                }
            }
            assert forall|axis: int| 0 <= axis < 3 implies #[trigger] touches_max(
                points@,
                i + 1,
                b,
                axis,
            ) by {
                assert(b.max@[axis] == merged(&prev, &point_box).max@[axis]);
                if b.max.e[axis] == prev.max.e[axis] {
                    assert(touches_max(points@, i as int, prev, axis));
                    let k = choose|k: int| 0 <= k < i && (#[trigger] points@[k]).e[axis] == prev.max.e[axis];
                    assert(points@[k].e[axis] == b.max.e[axis]);
                } else {
                    assert(points@[i as int].e[axis] == b.max.e[axis]);
                }
            }
        }
        i += 1;
    }
    Some(b)
}

/// A ray that passes through a box passes through every box around it: when
/// on each axis the outer slab contains the inner one, the outer slab test
/// succeeds wherever the inner one does.
pub proof fn lemma_slabs_monotone(inner: Seq<Slab>, outer: Seq<Slab>, t_min: i64, t_max: i64)
    requires
        inner.len() == 3,
        outer.len() == 3,
        forall|axis: int|
            0 <= axis < 3 ==> (#[trigger] outer[axis]).entry() <= inner[axis].entry() && inner[axis].exit()
                <= outer[axis].exit(),
        slabs_hit_spec(inner, t_min, t_max),
    ensures
        slabs_hit_spec(outer, t_min, t_max),
{
    assert(outer[0].entry() <= inner[0].entry());
    assert(outer[1].entry() <= inner[1].entry());
    assert(outer[2].entry() <= inner[2].entry());
}

/// The merge of two boxes contains each of them.
pub proof fn lemma_merge_contains_both(a: Aabb, b: Aabb)
    ensures
        merged(&a, &b).encloses(&a),
        merged(&a, &b).encloses(&b),
{
}

/// Merging is commutative.
pub proof fn lemma_merge_commutative(a: Aabb, b: Aabb)
    ensures
        merged(&a, &b).same(&merged(&b, &a)),
{
    assert(merged(&a, &b).min@ =~= merged(&b, &a).min@);
    assert(merged(&a, &b).max@ =~= merged(&b, &a).max@);
}

/// Merging a box with itself gives the box back.
pub proof fn lemma_merge_idempotent(a: Aabb)
    ensures
        merged(&a, &a).same(&a),
{
    assert(merged(&a, &a).min@ =~= a.min@);
    assert(merged(&a, &a).max@ =~= a.max@);
}

/// Merging is associative.
pub proof fn lemma_merge_associative(a: Aabb, b: Aabb, c: Aabb)
    ensures
        merged(&merged(&a, &b), &c).same(&merged(&a, &merged(&b, &c))),
{
    assert(merged(&merged(&a, &b), &c).min@ =~= merged(&a, &merged(&b, &c)).min@);
    assert(merged(&merged(&a, &b), &c).max@ =~= merged(&a, &merged(&b, &c)).max@);
}

/// The merge is the least box that contains both: any box that contains `a`
/// and `b` contains their merge.
pub proof fn lemma_merge_is_least(a: Aabb, b: Aabb, outer: Aabb)
    requires
        outer.encloses(&a),
        outer.encloses(&b),
    ensures
        outer.encloses(&merged(&a, &b)),
{
}

} // verus!
