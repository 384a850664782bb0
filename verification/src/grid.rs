//! A rectangular, fully populated grid.

use vstd::prelude::*;
use crate::cell::{CellState, Position};

verus! {

/// Why a grid could not be built or a cell not be reached.
#[derive(Debug, Clone, Copy, PartialEq, Eq, Structural)]
pub enum GridError {
    /// The grid would have no rows or no columns.
    EmptyExtent,
    /// The rows handed in are not all of one length.
    Ragged,
    /// The position lies outside the grid.
    OutOfBounds,
}

/// Whether `rows` is a rectangle with at least one row and one column.
pub open spec fn is_rectangular<T>(rows: Seq<Seq<T>>) -> bool {
    &&& 0 < rows.len() <= usize::MAX
    &&& 0 < rows[0].len() <= usize::MAX
    &&& forall|y: int| 0 <= y < rows.len() ==> #[trigger] rows[y].len() == rows[0].len()
}

/// The extent of a rectangle of rows: its row length as `x`, the number of
/// its rows as `y`.
pub open spec fn extent<T>(rows: Seq<Seq<T>>) -> Position {
    Position { x: rows[0].len() as usize, y: rows.len() as usize }
}

/// Whether `rows` is a rectangle of extent `dimensions`.
pub open spec fn shaped<T>(rows: Seq<Seq<T>>, dimensions: Position) -> bool {
    is_rectangular(rows) && extent(rows) == dimensions
}

/// The rows of a vector of vectors, each as a sequence.
pub open spec fn rows_of<T>(rows: Vec<Vec<T>>) -> Seq<Seq<T>> {
    rows@.map_values(|row: Vec<T>| row@)
}

/// A grid of `T`, one value at every position within its extent.
///
/// Its view is the sequence of its rows; the cell at position `p` is
/// `grid@[p.y][p.x]`. A grid is never empty and never ragged.
#[derive(Debug)]
pub struct Grid<T> {
    cells: Vec<Vec<T>>,
}

/// One generation of the simulated field.
pub type Universe<T> = Grid<CellState<T>>;

/// The colour reading of every cell of a generation.
pub type ColoredMap<T> = Grid<T>;

impl<T> View for Grid<T> {
    type V = Seq<Seq<T>>;

    closed spec fn view(&self) -> Seq<Seq<T>> {
        rows_of(self.cells)
    }
}

impl<T> Grid<T> {
    #[verifier::type_invariant]
    closed spec fn rectangular(self) -> bool {
        is_rectangular(self@)
    }
}

/// How the rows of a vector of vectors relate to the vectors themselves.
proof fn lemma_rows_of<T>(rows: Vec<Vec<T>>)
    ensures
        rows_of(rows).len() == rows@.len(),
        forall|y: int| 0 <= y < rows@.len() ==> #[trigger] rows_of(rows)[y] == rows@[y]@,
{
}

/// Overwrites one value of one row and leaves every length as it was.
fn replace_in_rows<T>(rows: &mut Vec<Vec<T>>, x: usize, y: usize, value: T)
    requires
        y < old(rows)@.len(),
        x < old(rows)@[y as int]@.len(),
    ensures
        rows_of(*final(rows)) == rows_of(*old(rows)).update(
            y as int,
            rows_of(*old(rows))[y as int].update(x as int, value),
        ),
    no_unwind
{
    rows[y][x] = value;
    proof {
        lemma_rows_of(*rows);
        lemma_rows_of(*old(rows));
        assert(rows_of(*rows) =~~= rows_of(*old(rows)).update(
            y as int,
            rows_of(*old(rows))[y as int].update(x as int, value),
        ));
    }
}

impl<T: Copy> Clone for Grid<T> {
    /// A grid of the same extent that holds the same value at every
    /// position.
    fn clone(&self) -> (copy: Self)
        ensures
            copy@ == self@,
    {
        proof {
            use_type_invariant(self);
            lemma_rows_of(self.cells);
        }
        let mut cells: Vec<Vec<T>> = Vec::new();
        let mut y: usize = 0;
        while y < self.cells.len()
            invariant
                y <= self.cells@.len(),
                cells@.len() == y,
                forall|j: int| 0 <= j < y ==> #[trigger] cells@[j]@ == self.cells@[j]@,
            decreases self.cells@.len() - y,
        {
            let source = &self.cells[y];
            let mut row: Vec<T> = Vec::new();
            let mut x: usize = 0;
            while x < source.len()
                invariant
                    x <= source@.len(),
                    row@.len() == x,
                    forall|i: int| 0 <= i < x ==> #[trigger] row@[i] == source@[i],
                decreases source@.len() - x,
            {
                row.push(source[x]);
                x += 1;
            }
            assert(row@ =~= source@);
            cells.push(row);
            y += 1;
        }
        proof {
            lemma_rows_of(cells);
            assert(rows_of(cells) =~= rows_of(self.cells));
        }
        Grid { cells }
    }
}

impl<T: Copy> Grid<T> {
    /// A grid of extent `dimensions` that holds `fill` everywhere. An extent
    /// without rows or without columns is refused.
    pub fn new(dimensions: &Position, fill: T) -> (made: Result<Self, GridError>)
        ensures
            made is Err <==> dimensions.x == 0 || dimensions.y == 0,
            made is Err ==> made == Err::<Self, GridError>(GridError::EmptyExtent),
            made is Ok ==> shaped(made->Ok_0@, *dimensions),
            made is Ok ==> forall|x: int, y: int|
                0 <= x < dimensions.x && 0 <= y < dimensions.y ==> #[trigger] made->Ok_0@[y][x] == fill,
    {
        if dimensions.x == 0 || dimensions.y == 0 {
            return Err(GridError::EmptyExtent);
        }
        let mut cells: Vec<Vec<T>> = Vec::new();
        let mut y: usize = 0;
        while y < dimensions.y
            invariant
                y <= dimensions.y,
                cells@.len() == y,
                forall|j: int| 0 <= j < y ==> #[trigger] cells@[j]@.len() == dimensions.x,
                forall|i: int, j: int| 0 <= i < dimensions.x && 0 <= j < y ==> #[trigger] cells@[j]@[i] == fill,
            decreases dimensions.y - y,
        {
            let mut row: Vec<T> = Vec::new();
            let mut x: usize = 0;
            while x < dimensions.x
                invariant
                    x <= dimensions.x,
                    row@.len() == x,
                    forall|i: int| 0 <= i < x ==> #[trigger] row@[i] == fill,
                decreases dimensions.x - x,
            {
                row.push(fill);
                x += 1;
            }
            cells.push(row);
            y += 1;
        }
        Ok(Grid { cells })
    }

    /// The grid whose rows are `rows`, first row first. Refused where there
    /// is no row, where the first row is empty, and where two rows differ in
    /// length.
    pub fn from_rows(rows: Vec<Vec<T>>) -> (made: Result<Self, GridError>)
        ensures
            made is Ok <==> is_rectangular(rows_of(rows)),
            made is Ok ==> made->Ok_0@ == rows_of(rows),
            made == Err::<Self, GridError>(GridError::EmptyExtent) <==> rows@.len() == 0 || rows@[0]@.len() == 0,
            made is Err ==> made == Err::<Self, GridError>(GridError::EmptyExtent)
                || made == Err::<Self, GridError>(GridError::Ragged),
    {
        if rows.len() == 0 || rows[0].len() == 0 {
            return Err(GridError::EmptyExtent);
        }
        let n_x = rows[0].len();
        let mut y: usize = 1;
        while y < rows.len()
            invariant
                1 <= y <= rows@.len(),
                0 < n_x == rows@[0]@.len(),
                forall|j: int| 0 <= j < y ==> #[trigger] rows@[j]@.len() == n_x,
            decreases rows@.len() - y,
        {
            if rows[y].len() != n_x {
                proof {
                    assert(rows_of(rows)[y as int].len() != rows_of(rows)[0].len());
                }
                return Err(GridError::Ragged);
            }
            y += 1;
        }
        Ok(Grid { cells: rows })
    }

    /// The grid whose rows are `rows`, which are known to form a rectangle.
    pub(crate) fn from_rectangular_rows(rows: Vec<Vec<T>>) -> (made: Self)
        requires
            is_rectangular(rows_of(rows)),
        ensures
            made@ == rows_of(rows),
    {
        Grid { cells: rows }
    }

    /// The extent of the grid.
    pub fn dimensions(&self) -> (dimensions: Position)
        ensures
            dimensions == extent(self@),
            shaped(self@, dimensions),
    {
        proof {
            use_type_invariant(self);
            lemma_rows_of(self.cells);
        }
        Position { x: self.cells[0].len(), y: self.cells.len() }
    }

    /// The value at `position`, or nothing where the position lies outside
    /// the grid.
    pub fn get(&self, position: &Position) -> (found: Option<T>)
        ensures
            found is Some <==> position.within(extent(self@)),
            found is Some ==> found->Some_0 == self@[position.y as int][position.x as int],
    {
        proof {
            use_type_invariant(self);
            lemma_rows_of(self.cells);
        }
        if position.y < self.cells.len() && position.x < self.cells[0].len() {
            assert(self@[position.y as int].len() == self@[0].len());
            Some(self.cells[position.y][position.x])
        } else {
            None
        }
    }

    /// The value at a position that is known to lie within the grid.
    pub fn at(&self, position: &Position) -> (value: T)
        requires
            position.within(extent(self@)),
        ensures
            value == self@[position.y as int][position.x as int],
    {
        proof {
            use_type_invariant(self);
            lemma_rows_of(self.cells);
            assert(self@[position.y as int].len() == self@[0].len());
        }
        self.cells[position.y][position.x]
    }

    /// Puts `value` at a position that is known to lie within the grid.
    pub fn put(&mut self, position: &Position, value: T)
        requires
            position.within(extent(old(self)@)),
        ensures
            final(self)@ == old(self)@.update(
                position.y as int,
                old(self)@[position.y as int].update(position.x as int, value),
            ),
    {
        proof {
            use_type_invariant(&*self);
            lemma_rows_of(self.cells);
            assert(self@[position.y as int].len() == self@[0].len());
        }
        replace_in_rows(&mut self.cells, position.x, position.y, value);
    }

    /// Puts `value` at `position`. A position outside the grid is reported
    /// and leaves the grid as it was.
    pub fn set(&mut self, position: &Position, value: T) -> (done: Result<(), GridError>)
        ensures
            done is Ok <==> position.within(extent(old(self)@)),
            done is Err ==> done == Err::<(), GridError>(GridError::OutOfBounds) && final(self)@ == old(self)@,
            done is Ok ==> final(self)@ == old(self)@.update(
                position.y as int,
                old(self)@[position.y as int].update(position.x as int, value),
            ),
    {
        proof {
            use_type_invariant(&*self);
            lemma_rows_of(self.cells);
        }
        if position.y < self.cells.len() && position.x < self.cells[0].len() {
            assert(self@[position.y as int].len() == self@[0].len());
            replace_in_rows(&mut self.cells, position.x, position.y, value);
            Ok(())
        } else {
            Err(GridError::OutOfBounds)
        }
    }
}

} // verus!
