//! Static topology tables: logical core index to interconnect coordinates,
//! and logical core index to the harvesting bit of the memory bank it owns.

use vstd::prelude::*;

verus! {

/// Interconnect coordinates of each logical L2CPU core, in index order.
pub open spec fn spec_tile_coords(l2cpu: int) -> (u8, u8) {
    if l2cpu == 0 {
        (8u8, 3u8)
    } else if l2cpu == 1 {
        (8u8, 9u8)
    } else if l2cpu == 2 {
        (8u8, 5u8)
    } else {
        (8u8, 7u8)
    }
}

/// Harvesting-bit index of the memory bank attached to each logical core.
pub open spec fn spec_gddr_enable_bit(l2cpu: int) -> u8 {
    if l2cpu == 0 {
        5u8
    } else if l2cpu == 1 {
        6u8
    } else {
        7u8
    }
}

/// Translates a logical core index to its interconnect `(x, y)` coordinates.
pub fn tile_coords(l2cpu: u32) -> (r: (u8, u8))
    requires
        l2cpu < 4,
    ensures
        r == spec_tile_coords(l2cpu as int),
{
    if l2cpu == 0 {
        (8, 3)
    } else if l2cpu == 1 {
        (8, 9)
    } else if l2cpu == 2 {
        (8, 5)
    } else {
        (8, 7)
    }
}

/// Gives the harvesting-bit index of the memory bank a logical core owns.
pub fn gddr_enable_bit(l2cpu: u32) -> (r: u8)
    requires
        l2cpu < 4,
    ensures
        r == spec_gddr_enable_bit(l2cpu as int),
{
    if l2cpu == 0 {
        5
    } else if l2cpu == 1 {
        6
    } else {
        7
    }
}

} // verus!
