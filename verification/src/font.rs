//! Helpers for reading glyph outline data.

use vstd::prelude::*;

verus! {

/// The curve tag of one outline point flag: its lowest two bits,
/// which say whether the point is on the curve or a second- or
/// third-order control point.
#[allow(non_snake_case)]
pub fn FT_CURVE_TAG(flag: u32) -> (r: u32)
    ensures
        r == flag & 3,
{
    flag & 0x03
}

} // verus!
