//! Layout of the demo scenes built from boxes.

use vstd::prelude::*;

verus! {

/// Which way a wall of boxes runs.
#[derive(Debug, Clone, Copy)]
pub enum WallDirection {
    /// The wall runs along the x axis.
    NorthSouth,
    /// The wall runs along the z axis.
    EastWest,
}

impl WallDirection {
    /// The axis (0 for x, 2 for z) along which the boxes of the wall line up.
    pub fn run_axis(&self) -> (a: usize)
        ensures
            a == match self {
                WallDirection::NorthSouth => 0usize,
                WallDirection::EastWest => 2usize,
            },
    {
        match self {
            WallDirection::NorthSouth => 0,
            WallDirection::EastWest => 2,
        }
    }

    /// The axis across the wall, along which a box has the wall's thickness.
    pub fn thickness_axis(&self) -> (a: usize)
        ensures
            a == match self {
                WallDirection::NorthSouth => 2usize,
                WallDirection::EastWest => 0usize,
            },
    {
        match self {
            WallDirection::NorthSouth => 2,
            WallDirection::EastWest => 0,
        }
    }
}

/// Direction of each of the four walls of a room, in the order they are built:
/// the two walls across z, then the two across x.
pub fn room_wall_directions() -> (d: [WallDirection; 4])
    ensures
        d@[0] is EastWest && d@[1] is EastWest && d@[2] is NorthSouth && d@[3] is NorthSouth,
{
    [WallDirection::EastWest, WallDirection::EastWest, WallDirection::NorthSouth, WallDirection::NorthSouth]
}

} // verus!
