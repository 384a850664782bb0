//! The eight-neighbour stencil: which cells surround a position, in which
//! order they are visited, and how each of them is weighted.

use vstd::prelude::*;
use crate::cell::Position;

verus! {

/// How a neighbour lies to its cell: in the same row or column, or across a
/// corner.
#[derive(Debug, Clone, Copy, PartialEq, Eq, Structural)]
pub enum Adjacency {
    Orthogonal,
    Diagonal,
}

impl Adjacency {
    /// The share of a diffusion rate that one such neighbour exchanges, in
    /// hundredths: a fifth for an orthogonal neighbour, a twentieth for a
    /// diagonal one.
    pub open spec fn hundredths(self) -> int {
        match self {
            Adjacency::Orthogonal => 20,
            Adjacency::Diagonal => 5,
        }
    }

    /// Computes [`Adjacency::hundredths`].
    pub fn weight_hundredths(&self) -> (weight: u8)
        ensures
            weight == self.hundredths(),
    {
        match self {
            Adjacency::Orthogonal => 20,
            Adjacency::Diagonal => 5,
        }
    }
}

/// The eight directions in which a cell can have a neighbour. Row 0 is the
/// northern edge of the grid and column 0 the western one.
#[derive(Debug, Clone, Copy, PartialEq, Eq, Structural)]
pub enum Direction {
    NorthWest,
    North,
    NorthEast,
    East,
    SouthEast,
    South,
    SouthWest,
    West,
}

impl Direction {
    /// The step in columns that this direction takes.
    pub open spec fn d_x(self) -> int {
        match self {
            Direction::NorthWest | Direction::SouthWest | Direction::West => -1,
            Direction::North | Direction::South => 0,
            Direction::NorthEast | Direction::East | Direction::SouthEast => 1,
        }
    }

    /// The step in rows that this direction takes.
    pub open spec fn d_y(self) -> int {
        match self {
            Direction::NorthWest | Direction::North | Direction::NorthEast => -1,
            Direction::East | Direction::West => 0,
            Direction::SouthEast | Direction::South | Direction::SouthWest => 1,
        }
    }

    /// A direction that changes both row and column is diagonal, any other
    /// orthogonal.
    pub open spec fn adjacency(self) -> Adjacency {
        if self.d_x() != 0 && self.d_y() != 0 {
            Adjacency::Diagonal
        } else {
            Adjacency::Orthogonal
        }
    }

    /// The direction visited at place `index` of a walk round a cell: the
    /// walk starts in the north-west, goes clockwise and has eight places,
    /// numbered from 0.
    pub open spec fn in_sweep(index: int) -> Direction
        recommends
            0 <= index < 8,
    {
        if index == 0 {
            Direction::NorthWest
        } else if index == 1 {
            Direction::North
        } else if index == 2 {
            Direction::NorthEast
        } else if index == 3 {
            Direction::East
        } else if index == 4 {
            Direction::SouthEast
        } else if index == 5 {
            Direction::South
        } else if index == 6 {
            Direction::SouthWest
        } else {
            Direction::West
        }
    }

    /// Computes [`Direction::in_sweep`].
    pub fn nth_in_sweep(index: usize) -> (direction: Direction)
        requires
            index < 8,
        ensures
            direction == Direction::in_sweep(index as int),
    {
        if index == 0 {
            Direction::NorthWest
        } else if index == 1 {
            Direction::North
        } else if index == 2 {
            Direction::NorthEast
        } else if index == 3 {
            Direction::East
        } else if index == 4 {
            Direction::SouthEast
        } else if index == 5 {
            Direction::South
        } else if index == 6 {
            Direction::SouthWest
        } else {
            Direction::West
        }
    }

    /// Computes [`Direction::adjacency`].
    pub fn kind(&self) -> (adjacency: Adjacency)
        ensures
            adjacency == self.adjacency(),
    {
        match self {
            Direction::North | Direction::East | Direction::South | Direction::West => {
                Adjacency::Orthogonal
            },
            _ => Adjacency::Diagonal,
        }
    }
}

/// A cell next to another one: where it lies and in which direction.
#[derive(Debug, Clone, Copy, PartialEq, Eq, Structural)]
pub struct Neighbour {
    pub direction: Direction,
    pub position: Position,
}

/// The cell that lies in `direction` of `position` on a grid of extent
/// `dimensions`, or nothing where the grid ends there. The grid has no
/// wrap-around.
pub open spec fn neighbour_spec(position: Position, dimensions: Position, direction: Direction) -> Option<
    Position,
> {
    let x = position.x + direction.d_x();
    let y = position.y + direction.d_y();
    if 0 <= x < dimensions.x && 0 <= y < dimensions.y {
        Some(Position { x: x as usize, y: y as usize })
    } else {
        None
    }
}

/// The neighbours of `position` among the first `count` directions of the
/// sweep, in the order of the sweep.
pub open spec fn neighbours_among(position: Position, dimensions: Position, count: nat) -> Seq<Neighbour>
    decreases count,
{
    if count == 0 {
        Seq::empty()
    } else {
        let earlier = neighbours_among(position, dimensions, (count - 1) as nat);
        let direction = Direction::in_sweep(count - 1);
        match neighbour_spec(position, dimensions, direction) {
            Some(found) => earlier.push(Neighbour { direction, position: found }),
            None => earlier,
        }
    }
}

/// All neighbours of `position` on a grid of extent `dimensions`, in the
/// order of the sweep.
pub open spec fn neighbours_spec(position: Position, dimensions: Position) -> Seq<Neighbour> {
    neighbours_among(position, dimensions, 8)
}

/// One coordinate moved by `delta`, which is -1, 0 or 1; nothing where the
/// result would leave the range of the type.
fn moved(coordinate: usize, delta: i8) -> (target: Option<usize>)
    requires
        -1 <= delta <= 1,
    ensures
        target is Some <==> 0 <= coordinate + delta <= usize::MAX,
        target is Some ==> target->Some_0 == coordinate + delta,
{
    if delta < 0 {
        if coordinate == 0 {
            None
        } else {
            Some(coordinate - 1)
        }
    } else if delta == 0 {
        Some(coordinate)
    } else {
        if coordinate == usize::MAX {
            None
        } else {
            Some(coordinate + 1)
        }
    }
}

/// The step of a direction in columns and in rows.
fn steps(direction: Direction) -> (step: (i8, i8))
    ensures
        step.0 == direction.d_x(),
        step.1 == direction.d_y(),
{
    match direction {
        Direction::NorthWest => (-1, -1),
        Direction::North => (0, -1),
        Direction::NorthEast => (1, -1),
        Direction::East => (1, 0),
        Direction::SouthEast => (1, 1),
        Direction::South => (0, 1),
        Direction::SouthWest => (-1, 1),
        Direction::West => (-1, 0),
    }
}

/// Computes [`neighbour_spec`].
pub fn neighbour(position: &Position, dimensions: &Position, direction: Direction) -> (found: Option<
    Position,
>)
    ensures
        found == neighbour_spec(*position, *dimensions, direction),
{
    let (d_x, d_y) = steps(direction);
    match (moved(position.x, d_x), moved(position.y, d_y)) {
        (Some(x), Some(y)) => {
            if x < dimensions.x && y < dimensions.y {
                Some(Position { x, y })
            } else {
                None
            }
        },
        _ => None,
    }
}

/// Computes [`neighbours_spec`].
pub fn neighbours(position: &Position, dimensions: &Position) -> (found: Vec<Neighbour>)
    ensures
        found@ == neighbours_spec(*position, *dimensions),
{
    let mut found: Vec<Neighbour> = Vec::new();
    let mut index: usize = 0;
    while index < 8
        invariant
            index <= 8,
            found@ == neighbours_among(*position, *dimensions, index as nat),
        decreases 8 - index,
    {
        let direction = Direction::nth_in_sweep(index);
        match neighbour(position, dimensions, direction) {
            Some(place) => {
                found.push(Neighbour { direction, position: place });
            },
            None => {},
        }
        index += 1;
    }
    found
}

} // verus!
