//! Color helpers for the glass-tinted background.

use vstd::prelude::*;

verus! {

/// Darkens one color channel to two fifths of its value, rounding down.
pub fn darken(v: u8) -> (r: u8)
    ensures
        r == (2 * v as int) / 5,
{
    ((2 * (v as u16)) / 5) as u8
}

} // verus!
