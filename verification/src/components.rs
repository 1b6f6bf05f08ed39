//! Plain value types shared across the library.

use vstd::prelude::*;

verus! {

/// Position in tile space: an integer grid coordinate.
///
/// The valid domain with respect to a grid is `[0, width) x [0, height)`;
/// values outside it are representable but rejected by every grid accessor.
#[derive(Clone, Copy, Debug, PartialEq, Eq, Structural)]
pub struct Coordinate {
    pub x: i32,
    pub y: i32,
}

impl Coordinate {
    pub fn new(x: i32, y: i32) -> (r: Coordinate)
        ensures
            r.x == x,
            r.y == y,
    {
        Coordinate { x, y }
    }
}

} // verus!
