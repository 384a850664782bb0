//! The plain data of the model: a cell's two concentrations, a position on
//! the grid, and the rates shared by every cell of a run.

use vstd::prelude::*;

verus! {

/// The concentrations of the two substances in one cell.
///
/// `T` is the scalar type of a concentration. The library moves such values
/// around and never computes on them.
#[derive(Debug, Clone, Copy)]
pub struct CellState<T> {
    pub a: T,
    pub b: T,
}

impl<T> CellState<T> {
    /// A cell that holds `a` of the first substance and `b` of the second.
    pub fn new(a: T, b: T) -> (cell: Self)
        ensures
            cell.a == a,
            cell.b == b,
    {
        CellState { a, b }
    }

    /// Overwrites both concentrations.
    pub fn change_state(&mut self, a: T, b: T)
        ensures
            final(self).a == a,
            final(self).b == b,
    {
        self.a = a;
        self.b = b;
    }
}

/// A cell's state in the generation before the current one, and in the
/// current one.
#[derive(Debug, Clone, Copy)]
pub struct States<T> {
    pub prev: CellState<T>,
    pub curr: CellState<T>,
}

impl<T: Copy> States<T> {
    /// The states of a cell that starts at `(a, b)` and has no past: its
    /// previous state holds `zero` of both substances.
    pub fn initialize(zero: T, a: T, b: T) -> (states: Self)
        ensures
            states.prev == (CellState { a: zero, b: zero }),
            states.curr == (CellState { a, b }),
    {
        States { prev: CellState::new(zero, zero), curr: CellState::new(a, b) }
    }

    /// Moves one generation on: the current state becomes the previous one.
    pub fn shift(&mut self)
        ensures
            final(self).prev == old(self).curr,
            final(self).curr == old(self).curr,
    {
        self.prev = self.curr;
    }
}

/// A column `x` and a row `y`. The same pair gives the extent of a grid:
/// `x` columns and `y` rows.
#[derive(Debug, Clone, Copy, PartialEq, Eq, Structural)]
pub struct Position {
    pub x: usize,
    pub y: usize,
}

impl Position {
    pub fn new(x: usize, y: usize) -> (position: Self)
        ensures
            position.x == x,
            position.y == y,
    {
        Position { x, y }
    }

    /// Whether this position names a cell of a grid of extent `dimensions`.
    pub open spec fn within(self, dimensions: Position) -> bool {
        self.x < dimensions.x && self.y < dimensions.y
    }

    /// Decides [`Position::within`].
    pub fn is_within(&self, dimensions: &Position) -> (inside: bool)
        ensures
            inside == self.within(*dimensions),
    {
        self.x < dimensions.x && self.y < dimensions.y
    }
}

/// The rates of one run, shared by every cell and every generation, and the
/// extent of its grid.
///
/// `d_a` and `d_b` are the diffusion rates of the two substances, `f` the
/// feed rate of the first, `k` the decay rate of the second and `r` the rate
/// of the reaction that turns the first into the second. The grid has `n_x`
/// columns and `n_y` rows.
#[derive(Debug, Clone, Copy)]
pub struct Parameters<T> {
    pub d_a: T,
    pub d_b: T,
    pub f: T,
    pub k: T,
    pub r: T,
    pub n_x: usize,
    pub n_y: usize,
}

impl<T> Parameters<T> {
    /// The extent of the grid that these parameters describe.
    pub fn dimensions(&self) -> (dimensions: Position)
        ensures
            dimensions.x == self.n_x,
            dimensions.y == self.n_y,
    {
        Position { x: self.n_x, y: self.n_y }
    }
}

} // verus!
