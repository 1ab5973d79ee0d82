//! What the obstacle sources decide without geometry.
use vstd::prelude::*;

verus! {

/// The number of bits set in `x`.
pub open spec fn ones(x: u32) -> nat
    decreases x,
{
    if x == 0 {
        0
    } else {
        (x % 2) as nat + ones(x / 2)
    }
}

/// Whether the up direction of a navigation mesh has an odd number of
/// negative coordinates, given the bitmask of the signs of its coordinates
/// (one bit per negative coordinate). The obstacle sources turn their shapes
/// from the opposite axis in that case.
pub fn up_is_mirrored(negative_mask: u32) -> (r: bool)
    ensures
        r == (ones(negative_mask) % 2 == 1),
{
    let mut m: u32 = negative_mask;
    let mut odd: bool = false;
    while m != 0
        invariant
            (ones(m) + if odd { 1nat } else { 0nat }) % 2 == ones(negative_mask) % 2,
        decreases m,
    {
        if m % 2 == 1 {
            odd = !odd;
        }
        m = m / 2;
    }
    odd
}

} // verus!
