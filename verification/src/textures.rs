//! Which texture variant a block shows, given its surroundings.

use vstd::prelude::*;

verus! {

/// The index of the texture variant for a block whose top, right, bottom and
/// left sides are open as `borders` says: one bit per side, the top side
/// weighing 8, the right 4, the bottom 2 and the left 1.
pub open spec fn texture_idx(borders: (bool, bool, bool, bool)) -> int {
    (if borders.0 { 8int } else { 0 }) + (if borders.1 { 4int } else { 0 })
        + (if borders.2 { 2int } else { 0 }) + (if borders.3 { 1int } else { 0 })
}

/// The index of the texture variant for the given open sides.
pub fn get_texture_idx(borders: (bool, bool, bool, bool)) -> (idx: usize)
    ensures
        idx == texture_idx(borders),
        idx < 16,
{
    let mut texture_idx: usize = 0;
    if borders.0 {
        texture_idx += 8;
    }
    if borders.1 {
        texture_idx += 4;
    }
    if borders.2 {
        texture_idx += 2;
    }
    if borders.3 {
        texture_idx += 1;
    }
    texture_idx
}

} // verus!
