//! The participating medium: which stretch of a ray lies inside the
//! medium's boundary and within the window of ray parameters.

use crate::aabb::{max_ord, min_ord};
use vstd::prelude::*;

verus! {

/// The stretch of the ray between its entry into the boundary and its exit,
/// cut down to the window `t_min..t_max`; nothing when the cut leaves nothing.
/// A stretch that starts behind the ray's origin, whose parameter is `zero`,
/// starts at the origin instead.
pub open spec fn clip_segment_spec(entry: i64, exit: i64, t_min: i64, t_max: i64, zero: i64) -> Option<
    (i64, i64),
> {
    let start = max_ord(entry, t_min);
    let end = min_ord(exit, t_max);
    if start >= end {
        None
    } else {
        Some((max_ord(start, zero), end))
    }
}

/// Cuts the stretch inside the boundary down to the window.
pub fn clip_segment(entry: i64, exit: i64, t_min: i64, t_max: i64, zero: i64) -> (r: Option<(i64, i64)>)
    ensures
        r == clip_segment_spec(entry, exit, t_min, t_max, zero),
{
    let mut start: i64 = entry;
    let mut end: i64 = exit;
    if start < t_min {
        start = t_min;
    }
    if end > t_max {
        end = t_max;
    }
    if start >= end {
        return None;
    }
    if start < zero {
        start = zero;
    }
    Some((start, end))
}

/// A scattering event is placed inside the medium when the sampled free
/// flight is shorter than the stretch inside the boundary; otherwise the ray
/// passes through.
pub fn scatters_inside(free_flight: i64, distance_inside: i64) -> (inside: bool)
    ensures
        inside == (free_flight < distance_inside),
{
    free_flight < distance_inside
}

} // verus!
