//! The random choices of the sampling densities: which half of a mixture
//! generates a direction, and which light shape a list of lights samples.

use crate::sampling::{coin_flip, random_below};
use vstd::prelude::*;

verus! {

/// The component of a two-part mixture that a coin selects.
pub fn component_for(heads: bool) -> (component: usize)
    ensures
        component == (if heads {
            0usize
        } else {
            1usize
        }),
{
    if heads {
        0
    } else {
        1
    }
}

/// Selects one of the two components of a mixture by an unbiased coin.
pub fn mixture_component() -> (component: usize)
    ensures
        component < 2,
{
    component_for(coin_flip())
}

/// Selects one of `count` light shapes at random; there is nothing to select
/// from an empty list.
pub fn pick_light(count: usize) -> (picked: Option<usize>)
    ensures
        picked.is_none() <==> count == 0,
        picked matches Some(i) ==> i < count,
{
    if count == 0 {
        None
    } else {
        Some(random_below(count))
    }
}

} // verus!
