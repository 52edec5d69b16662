//! Grid coordinates and the unit-step neighbor table used when a moving
//! particle runs into an occupied cell.

use vstd::prelude::*;

verus! {

/// Side length of the square world grid.
pub const WORLD_SIZE: u32 = 100;

/// A cell position.  Values outside the grid are representable (a particle
/// may aim at a destination beyond the edge); `in_bounds` tells them apart.
#[derive(Clone, Copy, PartialEq, Eq, Structural, Debug)]
pub struct Coordinate {
    pub x: u32,
    pub y: u32,
}

impl Coordinate {
    pub open spec fn in_bounds_spec(self) -> bool {
        self.x < WORLD_SIZE && self.y < WORLD_SIZE
    }

    pub fn new(x: u32, y: u32) -> (c: Coordinate)
        ensures
            c == (Coordinate { x, y }),
    {
        Coordinate { x, y }
    }

    /// Whether the coordinate lies on the grid.
    pub fn in_bounds(&self) -> (r: bool)
        ensures
            r == self.in_bounds_spec(),
    {
        self.x < WORLD_SIZE && self.y < WORLD_SIZE
    }

    /// Componentwise difference `self - other`, as signed values.
    pub fn difference(&self, other: &Coordinate) -> (d: (i64, i64))
        ensures
            d.0 == self.x as int - other.x as int,
            d.1 == self.y as int - other.y as int,
    {
        (self.x as i64 - other.x as i64, self.y as i64 - other.y as i64)
    }
}

/// The two diagonal escape candidates for each unit step direction.  A
/// particle blocked while moving along a unit step `d` tries the two
/// neighbors `unit_neighbors(d)` (relative to its current cell) in an
/// order chosen by a coin flip.
///
/// The entry for the leftward step `(-1, 0)` deliberately offers the
/// down-left diagonal twice instead of an up-left/down-left pair; the
/// sweep therefore never routes a leftward-blocked particle upward.  The
/// asymmetry with the rightward step is intentional and pinned by a test.
pub open spec fn unit_neighbors_spec(d: (i64, i64)) -> Option<((i64, i64), (i64, i64))> {
    if d == (0i64, 1i64) {
        Some(((1i64, 1i64), (-1i64, 1i64)))
    } else if d == (1i64, 0i64) {
        Some(((1i64, 1i64), (1i64, -1i64)))
    } else if d == (1i64, 1i64) {
        Some(((1i64, 0i64), (0i64, 1i64)))
    } else if d == (-1i64, 1i64) {
        Some(((-1i64, 0i64), (0i64, 1i64)))
    } else if d == (0i64, -1i64) {
        Some(((-1i64, -1i64), (1i64, -1i64)))
    } else if d == (-1i64, 0i64) {
        Some(((-1i64, -1i64), (-1i64, -1i64)))
    } else if d == (-1i64, -1i64) {
        Some(((-1i64, 0i64), (0i64, -1i64)))
    } else if d == (1i64, -1i64) {
        Some(((1i64, 0i64), (0i64, -1i64)))
    } else {
        None
    }
}

/// Diagonal escape candidates of a unit step, `None` when `d` is not one
/// of the eight unit directions.
pub fn unit_neighbors(d: (i64, i64)) -> (r: Option<((i64, i64), (i64, i64))>)
    ensures
        r == unit_neighbors_spec(d),
{
    let (dx, dy) = d;
    if dx == 0 && dy == 1 {
        Some(((1, 1), (-1, 1)))
    } else if dx == 1 && dy == 0 {
        Some(((1, 1), (1, -1)))
    } else if dx == 1 && dy == 1 {
        Some(((1, 0), (0, 1)))
    } else if dx == -1 && dy == 1 {
        Some(((-1, 0), (0, 1)))
    } else if dx == 0 && dy == -1 {
        Some(((-1, -1), (1, -1)))
    } else if dx == -1 && dy == 0 {
        Some(((-1, -1), (-1, -1)))
    } else if dx == -1 && dy == -1 {
        Some(((-1, 0), (0, -1)))
    } else if dx == 1 && dy == -1 {
        Some(((1, 0), (0, -1)))
    } else {
        None
    }
}

} // verus!
