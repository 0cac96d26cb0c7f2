//! Toroidal grid geometry: coordinates, headings, and wraparound movement.
//!
//! The playable area is `GRID_WIDTH x GRID_HEIGHT` cells surrounded by a
//! one-cell margin on each side, so coordinates range over `[0, 31]` on both
//! axes. The margin cells are presentation only: they are traversable and
//! never act as collision barriers.

use vstd::prelude::*;

verus! {

pub const BOUNDARY_THICKNESS: i8 = 1;

pub const GRID_HEIGHT: i8 = 30;

pub const GRID_WIDTH: i8 = 30;

pub const GRID_OFFSET: i8 = BOUNDARY_THICKNESS * 2;

/// Tick period of the scheduler, in milliseconds.
pub const TICK_TIME: u64 = 50;

#[derive(Clone, Copy, PartialEq, Eq, Structural, Debug)]
pub enum Direction {
    UP,
    DOWN,
    LEFT,
    RIGHT,
}

/// Mathematical model of a grid cell.
pub ghost struct Coord {
    pub x: int,
    pub y: int,
}

#[derive(Clone, Copy, PartialEq, Eq, Structural, Debug)]
pub struct PositionCoords {
    pub x: i8,
    pub y: i8,
}

impl View for PositionCoords {
    type V = Coord;

    open spec fn view(&self) -> Coord {
        Coord { x: self.x as int, y: self.y as int }
    }
}

impl DeepView for PositionCoords {
    type V = Coord;

    open spec fn deep_view(&self) -> Coord {
        self.view()
    }
}

impl PositionCoords {
    pub fn new(x: i8, y: i8) -> (r: Self)
        ensures
            r.x == x,
            r.y == y,
    {
        Self { x, y }
    }
}

/// A coordinate that lies on the grid, margin included.
pub open spec fn in_bounds(c: Coord) -> bool {
    &&& 0 <= c.x < GRID_WIDTH + GRID_OFFSET
    &&& 0 <= c.y < GRID_HEIGHT + GRID_OFFSET
}

/// One step of toroidal movement: walking off one edge re-enters on the
/// opposite edge; every other step moves by a single cell.
pub open spec fn spec_advance(c: Coord, d: Direction) -> Coord {
    match d {
        Direction::UP => Coord {
            x: c.x,
            y: if c.y == 0 { GRID_HEIGHT + GRID_OFFSET - 1 } else { c.y - 1 },
        },
        Direction::DOWN => Coord {
            x: c.x,
            y: if c.y == GRID_HEIGHT + GRID_OFFSET - 1 { 0 } else { c.y + 1 },
        },
        Direction::LEFT => Coord {
            x: if c.x == 0 { GRID_WIDTH + GRID_OFFSET - 1 } else { c.x - 1 },
            y: c.y,
        },
        Direction::RIGHT => Coord {
            x: if c.x == GRID_WIDTH + GRID_OFFSET - 1 { 0 } else { c.x + 1 },
            y: c.y,
        },
    }
}

/// Toroidal movement over concrete coordinates.
pub fn advance(p: PositionCoords, d: Direction) -> (r: PositionCoords)
    requires
        in_bounds(p@),
    ensures
        r@ == spec_advance(p@, d),
        in_bounds(r@),
{
    match d {
        Direction::UP => {
            if p.y == 0 {
                PositionCoords { x: p.x, y: GRID_HEIGHT + GRID_OFFSET - 1 }
            } else {
                PositionCoords { x: p.x, y: p.y - 1 }
            }
        },
        Direction::DOWN => {
            if p.y == GRID_HEIGHT + GRID_OFFSET - 1 {
                PositionCoords { x: p.x, y: 0 }
            } else {
                PositionCoords { x: p.x, y: p.y + 1 }
            }
        },
        Direction::LEFT => {
            if p.x == 0 {
                PositionCoords { x: GRID_WIDTH + GRID_OFFSET - 1, y: p.y }
            } else {
                PositionCoords { x: p.x - 1, y: p.y }
            }
        },
        Direction::RIGHT => {
            if p.x == GRID_WIDTH + GRID_OFFSET - 1 {
                PositionCoords { x: 0, y: p.y }
            } else {
                PositionCoords { x: p.x + 1, y: p.y }
            }
        },
    }
}

/// The heading that undoes one step of `d`.
pub open spec fn opposite(d: Direction) -> Direction {
    match d {
        Direction::UP => Direction::DOWN,
        Direction::DOWN => Direction::UP,
        Direction::LEFT => Direction::RIGHT,
        Direction::RIGHT => Direction::LEFT,
    }
}

/// Law: from any on-grid position, one step in a heading followed by one step
/// in the opposite heading returns to the starting position.
pub proof fn lemma_advance_inverse(c: Coord, d: Direction)
    requires
        in_bounds(c),
    ensures
        spec_advance(spec_advance(c, d), opposite(d)) == c,
{
}

pub open spec fn spec_is_boundary(x: int, y: int) -> bool {
    ||| x < BOUNDARY_THICKNESS
    ||| x >= GRID_WIDTH + BOUNDARY_THICKNESS
    ||| y < BOUNDARY_THICKNESS
    ||| y >= GRID_HEIGHT + BOUNDARY_THICKNESS
}

/// Whether a cell lies in the decorative margin. Used only for presentation:
/// margin cells are traversable and never cause a game over.
pub fn is_boundary(x: i8, y: i8) -> (r: bool)
    ensures
        r == spec_is_boundary(x as int, y as int),
{
    x < BOUNDARY_THICKNESS || x >= GRID_WIDTH + BOUNDARY_THICKNESS || y < BOUNDARY_THICKNESS
        || y >= GRID_HEIGHT + BOUNDARY_THICKNESS
}

} // verus!
