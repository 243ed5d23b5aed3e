//! Texel addressing of image-mapped textures.

use vstd::prelude::*;

verus! {

/// The texel nearest to `raw` along an axis with `size` texels: `raw` itself
/// when it names a texel, otherwise the first or the last texel.
pub open spec fn texel_index_spec(raw: i64, size: u32) -> int {
    if raw < 0 {
        0
    } else if raw > size - 1 {
        size - 1
    } else {
        raw as int
    }
}

/// Clamps a texel coordinate to the image.
pub fn texel_index(raw: i64, size: u32) -> (index: u32)
    requires
        size >= 1,
    ensures
        index == texel_index_spec(raw, size),
        index < size,
{
    if raw < 0 {
        0
    } else if raw > (size - 1) as i64 {
        size - 1
    } else {
        raw as u32
    }
}

} // verus!
