//! Diffusion: what a cell gives to and takes from its neighbours.

use vstd::prelude::*;
use crate::cell::{CellState, Parameters, Position};
use crate::grid::{extent, shaped, Universe};
use crate::kinetics::exchange_total;
use crate::neighbourhood::{
    neighbour,
    neighbours_among,
    neighbours_spec,
    Adjacency,
    Direction,
    Neighbour,
};

verus! {

/// Whether `end` can be what is left of `start` after one exchange with each
/// of `neighbours`, in their order. Every exchange works on what the one
/// before it left, and reads its neighbour in `universe`, the generation
/// before.
pub open spec fn diffuses<T, X>(
    exchange: X,
    parameters: Parameters<T>,
    universe: Seq<Seq<CellState<T>>>,
    neighbours: Seq<Neighbour>,
    start: CellState<T>,
    end: CellState<T>,
) -> bool where X: Fn(&Parameters<T>, Adjacency, CellState<T>, CellState<T>) -> CellState<T>
    decreases neighbours.len(),
{
    if neighbours.len() == 0 {
        end == start
    } else {
        let last = neighbours.last();
        exists|running: CellState<T>|
            diffuses(exchange, parameters, universe, neighbours.drop_last(), start, running)
                && #[trigger] exchange.ensures(
                (
                    &parameters,
                    last.direction.adjacency(),
                    running,
                    universe[last.position.y as int][last.position.x as int],
                ),
                end,
            )
    }
}

/// One exchange between a cell and the neighbour at `neighbour_position`:
/// `diffused_cell` holds the running value of the cell and is replaced by
/// what `exchange` makes of it and of the neighbour's value in `universe`.
pub fn get_adjacent_cells_diffusion<T: Copy, X>(
    parameters: &Parameters<T>,
    adjacency: Adjacency,
    diffused_cell: &mut CellState<T>,
    neighbour_position: Position,
    universe: &Universe<T>,
    exchange: &X,
) where X: Fn(&Parameters<T>, Adjacency, CellState<T>, CellState<T>) -> CellState<T>
    requires
        neighbour_position.within(extent(universe@)),
        exchange_total(*exchange),
    ensures
        exchange.ensures(
            (
                parameters,
                adjacency,
                *old(diffused_cell),
                universe@[neighbour_position.y as int][neighbour_position.x as int],
            ),
            *final(diffused_cell),
        ),
{
    let neighbour_cell = universe.at(&neighbour_position);
    *diffused_cell = exchange(parameters, adjacency, *diffused_cell, neighbour_cell);
}

/// The value of `cell` after diffusion on a grid of extent `dimensions`: one
/// exchange with each neighbour of `position` that the grid holds, north-west
/// first and then clockwise, each on the value that the one before has left.
/// A cell at an edge or in a corner exchanges with fewer than eight
/// neighbours. `universe` is only read.
pub fn get_diffusion_in_cell<T: Copy, X>(
    parameters: &Parameters<T>,
    cell: &CellState<T>,
    position: &Position,
    dimensions: &Position,
    universe: &Universe<T>,
    exchange: &X,
) -> (diffused: CellState<T>) where
    X: Fn(&Parameters<T>, Adjacency, CellState<T>, CellState<T>) -> CellState<T>,

    requires
        shaped(universe@, *dimensions),
        exchange_total(*exchange),
    ensures
        diffuses(
            *exchange,
            *parameters,
            universe@,
            neighbours_spec(*position, *dimensions),
            *cell,
            diffused,
        ),
{
    let mut diffused_cell = *cell;
    let mut index: usize = 0;
    while index < 8
        invariant
            index <= 8,
            shaped(universe@, *dimensions),
            exchange_total(*exchange),
            diffuses(
                *exchange,
                *parameters,
                universe@,
                neighbours_among(*position, *dimensions, index as nat),
                *cell,
                diffused_cell,
            ),
        decreases 8 - index,
    {
        let direction = Direction::nth_in_sweep(index);
        match neighbour(position, dimensions, direction) {
            Some(neighbour_position) => {
                let ghost before = diffused_cell;
                let ghost earlier = neighbours_among(*position, *dimensions, index as nat);
                get_adjacent_cells_diffusion(
                    parameters,
                    direction.kind(),
                    &mut diffused_cell,
                    neighbour_position,
                    universe,
                    exchange,
                );
                proof {
                    let now = neighbours_among(*position, *dimensions, (index + 1) as nat);
                    assert(now == earlier.push(
                        Neighbour { direction, position: neighbour_position },
                    ));
                    assert(now.drop_last() =~= earlier);
                    assert(diffuses(*exchange, *parameters, universe@, now.drop_last(), *cell, before));
                }
            },
            None => {},
        }
        index += 1;
    }
    diffused_cell
}

} // verus!
