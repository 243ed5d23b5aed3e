//! Order-only helpers on colour channels.

use crate::aabb::Vector3;
use vstd::prelude::*;

verus! {

/// `input` held to the range `min..=max`.
pub open spec fn clamp_spec(input: i64, min: i64, max: i64) -> i64 {
    if input < min {
        min
    } else if input > max {
        max
    } else {
        input
    }
}

/// `channel` when it lies strictly between the two infinities, and `zero`
/// otherwise. The encoding of reals as ordinates puts what is not a number
/// beyond the infinities, so this catches it too.
pub open spec fn finite_or_zero(channel: i64, neg_infinity: i64, infinity: i64, zero: i64) -> i64 {
    if neg_infinity < channel < infinity {
        channel
    } else {
        zero
    }
}

/// Holds `input` to the range `min..=max`.
pub fn clamp(input: i64, min: i64, max: i64) -> (r: i64)
    ensures
        r == clamp_spec(input, min, max),
        min <= max ==> min <= r <= max,
{
    if input < min {
        min
    } else if input > max {
        max
    } else {
        input
    }
}

/// Replaces each channel that is not finite by zero and leaves the others
/// as they are.
pub fn de_nan(c: Vector3, neg_infinity: i64, infinity: i64, zero: i64) -> (r: Vector3)
    ensures
        forall|a: int| 0 <= a < 3 ==> #[trigger] r.e[a] == finite_or_zero(c.e[a], neg_infinity, infinity, zero),
{
    let mut e: [i64; 3] = c.e;
    let mut a: usize = 0;
    while a < 3
        invariant
            a <= 3,
            forall|k: int| 0 <= k < a ==> #[trigger] e[k] == finite_or_zero(c.e[k], neg_infinity, infinity, zero),
            forall|k: int| a <= k < 3 ==> #[trigger] e[k] == c.e[k],
        decreases 3 - a,
    {
        if !(neg_infinity < e[a] && e[a] < infinity) {
            e[a] = zero;
        }
        a += 1;
    }
    Vector3 { e }
}

} // verus!
