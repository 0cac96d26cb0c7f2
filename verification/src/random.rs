//! Randomness for spawn positions and headings, behind a single trusted
//! wrapper around the `rand` crate.

use crate::grid::{Direction, PositionCoords, BOUNDARY_THICKNESS, GRID_HEIGHT, GRID_WIDTH};
use rand::Rng;
use vstd::prelude::*;

verus! {

/// Relies on rand::Rng::gen_range over an inclusive integer range: it panics
/// only on an empty range and returns a value within the range. Nothing more
/// is assumed of the draw.
#[verifier::external_body]
fn random_i8_between(lo: i8, hi: i8) -> (r: i8)
    requires
        lo <= hi,
    ensures
        lo <= r <= hi,
{
    rand::thread_rng().gen_range(lo..=hi)
}

/// A random position within the grid; never on the boundary margin.
pub fn get_random_position() -> (r: PositionCoords)
    ensures
        BOUNDARY_THICKNESS <= r.x <= GRID_WIDTH,
        BOUNDARY_THICKNESS <= r.y <= GRID_HEIGHT,
{
    PositionCoords::new(
        random_i8_between(BOUNDARY_THICKNESS, GRID_WIDTH),
        random_i8_between(BOUNDARY_THICKNESS, GRID_HEIGHT),
    )
}

/// A heading drawn from the four possibilities.
pub fn get_random_direction() -> Direction {
    match random_i8_between(0, 3) {
        0 => Direction::UP,
        1 => Direction::DOWN,
        2 => Direction::LEFT,
        _ => Direction::RIGHT,
    }
}

} // verus!
