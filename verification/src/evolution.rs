//! One generation after another: the transition of a cell, the sweep over
//! the grid, and the run of several generations.

use vstd::prelude::*;
use crate::cell::{CellState, Parameters, Position};
use crate::diffusion::{diffuses, get_diffusion_in_cell};
use crate::grid::{extent, is_rectangular, rows_of, shaped, ColoredMap, Grid, Universe};
use crate::kinetics::{total, Kinetics};
use crate::neighbourhood::{neighbours_spec, Adjacency};

verus! {

/// Whether `evolved` can be the next state of the cell at `position`, which
/// holds `cell`: some result of its diffusion in `universe`, and then the
/// reaction on that result and on `cell` itself.
pub open spec fn transitions<T, X, R, C>(
    kinetics: Kinetics<X, R, C>,
    parameters: Parameters<T>,
    universe: Seq<Seq<CellState<T>>>,
    position: Position,
    cell: CellState<T>,
    evolved: CellState<T>,
) -> bool where
    X: Fn(&Parameters<T>, Adjacency, CellState<T>, CellState<T>) -> CellState<T>,
    R: Fn(&Parameters<T>, CellState<T>, CellState<T>) -> CellState<T>,
    C: Fn(&CellState<T>) -> T,
 {
    exists|diffused: CellState<T>|
        diffuses(
            kinetics.exchange,
            parameters,
            universe,
            neighbours_spec(position, extent(universe)),
            cell,
            diffused,
        ) && #[trigger] kinetics.react.ensures((&parameters, diffused, cell), evolved)
}

/// Whether `after` can be the generation that follows `before`: a grid of
/// the same extent, in which every cell is a next state of the cell at the
/// same position of `before`.
pub open spec fn evolves_once<T, X, R, C>(
    kinetics: Kinetics<X, R, C>,
    parameters: Parameters<T>,
    before: Seq<Seq<CellState<T>>>,
    after: Seq<Seq<CellState<T>>>,
) -> bool where
    X: Fn(&Parameters<T>, Adjacency, CellState<T>, CellState<T>) -> CellState<T>,
    R: Fn(&Parameters<T>, CellState<T>, CellState<T>) -> CellState<T>,
    C: Fn(&CellState<T>) -> T,
 {
    &&& shaped(after, extent(before))
    &&& forall|x: int, y: int|
        0 <= x < extent(before).x && 0 <= y < extent(before).y ==> transitions(
            kinetics,
            parameters,
            before,
            Position { x: x as usize, y: y as usize },
            before[y][x],
            #[trigger] after[y][x],
        )
}

/// Whether `after` can be what `generations` steps make of `before`.
pub open spec fn evolves<T, X, R, C>(
    kinetics: Kinetics<X, R, C>,
    parameters: Parameters<T>,
    generations: nat,
    before: Seq<Seq<CellState<T>>>,
    after: Seq<Seq<CellState<T>>>,
) -> bool where
    X: Fn(&Parameters<T>, Adjacency, CellState<T>, CellState<T>) -> CellState<T>,
    R: Fn(&Parameters<T>, CellState<T>, CellState<T>) -> CellState<T>,
    C: Fn(&CellState<T>) -> T,

    decreases generations,
{
    if generations == 0 {
        after == before
    } else {
        exists|between: Seq<Seq<CellState<T>>>|
            evolves(kinetics, parameters, (generations - 1) as nat, before, between)
                && #[trigger] evolves_once(kinetics, parameters, between, after)
    }
}

/// Whether `colored_map` is a reading of `universe`: of the same extent, and
/// at every position a colour of the cell there.
pub open spec fn coloured<T, C>(
    colour: C,
    universe: Seq<Seq<CellState<T>>>,
    colored_map: Seq<Seq<T>>,
) -> bool where C: Fn(&CellState<T>) -> T {
    &&& shaped(colored_map, extent(universe))
    &&& forall|x: int, y: int|
        0 <= x < extent(universe).x && 0 <= y < extent(universe).y ==> colour.ensures(
            (&universe[y][x],),
            #[trigger] colored_map[y][x],
        )
}

/// The number of generations that a request for `n` of them runs: none for a
/// negative request.
pub open spec fn generations(n: i32) -> nat {
    if n > 0 {
        n as nat
    } else {
        0
    }
}

/// The next state of the cell at `position`, which holds `cell`: diffusion
/// with its neighbours in `universe`, then the reaction. The colour of the
/// new state is written to `colored_map` at `position`; nothing else of the
/// map changes.
pub fn transition<T: Copy, X, R, C>(
    parameters: &Parameters<T>,
    cell: &CellState<T>,
    position: &Position,
    dimensions: &Position,
    universe: &Universe<T>,
    colored_map: &mut ColoredMap<T>,
    kinetics: &Kinetics<X, R, C>,
) -> (evolved: CellState<T>) where
    X: Fn(&Parameters<T>, Adjacency, CellState<T>, CellState<T>) -> CellState<T>,
    R: Fn(&Parameters<T>, CellState<T>, CellState<T>) -> CellState<T>,
    C: Fn(&CellState<T>) -> T,

    requires
        shaped(universe@, *dimensions),
        shaped(old(colored_map)@, *dimensions),
        position.within(*dimensions),
        total(*kinetics),
    ensures
        transitions(*kinetics, *parameters, universe@, *position, *cell, evolved),
        kinetics.colour.ensures(
            (&evolved,),
            final(colored_map)@[position.y as int][position.x as int],
        ),
        final(colored_map)@ == old(colored_map)@.update(
            position.y as int,
            old(colored_map)@[position.y as int].update(
                position.x as int,
                final(colored_map)@[position.y as int][position.x as int],
            ),
        ),
{
    let diffused = get_diffusion_in_cell(
        parameters,
        cell,
        position,
        dimensions,
        universe,
        &kinetics.exchange,
    );
    let evolved_cell = (kinetics.react)(parameters, diffused, *cell);
    let shade = (kinetics.colour)(&evolved_cell);
    colored_map.put(position, shade);
    evolved_cell
}

/// The generation that follows `universe`. Every cell is computed from
/// `universe` alone, row by row and within a row column by column, and
/// `colored_map` is overwritten with the reading of the new generation.
pub fn evolution_universe<T: Copy, X, R, C>(
    parameters: &Parameters<T>,
    dimensions: &Position,
    universe: Universe<T>,
    colored_map: &mut ColoredMap<T>,
    kinetics: &Kinetics<X, R, C>,
) -> (evolved: Universe<T>) where
    X: Fn(&Parameters<T>, Adjacency, CellState<T>, CellState<T>) -> CellState<T>,
    R: Fn(&Parameters<T>, CellState<T>, CellState<T>) -> CellState<T>,
    C: Fn(&CellState<T>) -> T,

    requires
        shaped(universe@, *dimensions),
        shaped(old(colored_map)@, *dimensions),
        total(*kinetics),
    ensures
        evolves_once(*kinetics, *parameters, universe@, evolved@),
        coloured(kinetics.colour, evolved@, final(colored_map)@),
{
    let mut rows: Vec<Vec<CellState<T>>> = Vec::new();
    let mut r: usize = 0;
    while r < dimensions.y
        invariant
            r <= dimensions.y,
            shaped(universe@, *dimensions),
            shaped(colored_map@, *dimensions),
            total(*kinetics),
            rows@.len() == r,
            forall|y: int| 0 <= y < r ==> #[trigger] rows@[y]@.len() == dimensions.x,
            forall|x: int, y: int|
                0 <= x < dimensions.x && 0 <= y < r ==> transitions(
                    *kinetics,
                    *parameters,
                    universe@,
                    Position { x: x as usize, y: y as usize },
                    universe@[y][x],
                    #[trigger] rows@[y]@[x],
                ),
            forall|x: int, y: int|
                0 <= x < dimensions.x && 0 <= y < r ==> kinetics.colour.ensures(
                    (&rows@[y]@[x],),
                    #[trigger] colored_map@[y][x],
                ),
        decreases dimensions.y - r,
    {
        let mut row: Vec<CellState<T>> = Vec::new();
        let mut c: usize = 0;
        while c < dimensions.x
            invariant
                c <= dimensions.x,
                r < dimensions.y,
                shaped(universe@, *dimensions),
                shaped(colored_map@, *dimensions),
                total(*kinetics),
                rows@.len() == r,
                row@.len() == c,
                forall|x: int|
                    0 <= x < c ==> transitions(
                        *kinetics,
                        *parameters,
                        universe@,
                        Position { x: x as usize, y: r },
                        universe@[r as int][x],
                        #[trigger] row@[x],
                    ),
                forall|x: int|
                    0 <= x < c ==> kinetics.colour.ensures(
                        (&row@[x],),
                        #[trigger] colored_map@[r as int][x],
                    ),
                forall|x: int, y: int|
                    0 <= x < dimensions.x && 0 <= y < r ==> kinetics.colour.ensures(
                        (&rows@[y]@[x],),
                        #[trigger] colored_map@[y][x],
                    ),
            decreases dimensions.x - c,
        {
            let position = Position { x: c, y: r };
            let cell = universe.at(&position);
            let evolved_cell = transition(
                parameters,
                &cell,
                &position,
                dimensions,
                &universe,
                colored_map,
                kinetics,
            );
            row.push(evolved_cell);
            c += 1;
        }
        rows.push(row);
        r += 1;
    }
    proof {
        assert(rows_of(rows).len() == dimensions.y);
        assert forall|y: int| 0 <= y < rows_of(rows).len() implies #[trigger] rows_of(rows)[y].len()
            == dimensions.x by {
            assert(rows_of(rows)[y] == rows@[y]@);
        }
        assert forall|x: int, y: int| 0 <= x < dimensions.x && 0 <= y < dimensions.y implies transitions(
            *kinetics,
            *parameters,
            universe@,
            Position { x: x as usize, y: y as usize },
            universe@[y][x],
            #[trigger] rows_of(rows)[y][x],
        ) by {
            assert(rows_of(rows)[y][x] == rows@[y]@[x]);
        }
        assert forall|x: int, y: int|
            0 <= x < dimensions.x && 0 <= y < dimensions.y implies kinetics.colour.ensures(
            (&rows_of(rows)[y][x],),
            #[trigger] colored_map@[y][x],
        ) by {
            assert(rows_of(rows)[y][x] == rows@[y]@[x]);
        }
    }
    Grid::from_rectangular_rows(rows)
}

/// Runs `n` generations from `universe` and returns the last one; a count
/// that is not positive runs none and returns `universe` as it came. After
/// every generation `colored_map` holds the reading of that generation.
pub fn total_simulation<T: Copy, X, R, C>(
    n: i32,
    parameters: &Parameters<T>,
    dimensions: &Position,
    universe: Universe<T>,
    colored_map: &mut ColoredMap<T>,
    kinetics: &Kinetics<X, R, C>,
) -> (last: Universe<T>) where
    X: Fn(&Parameters<T>, Adjacency, CellState<T>, CellState<T>) -> CellState<T>,
    R: Fn(&Parameters<T>, CellState<T>, CellState<T>) -> CellState<T>,
    C: Fn(&CellState<T>) -> T,

    requires
        shaped(universe@, *dimensions),
        shaped(old(colored_map)@, *dimensions),
        total(*kinetics),
    ensures
        evolves(*kinetics, *parameters, generations(n), universe@, last@),
        n <= 0 ==> final(colored_map)@ == old(colored_map)@,
        n > 0 ==> coloured(kinetics.colour, last@, final(colored_map)@),
{
    let ghost first = universe@;
    let mut current = universe;
    let mut done: i32 = 0;
    while done < n
        invariant
            0 <= done,
            done <= n || done == 0,
            shaped(current@, *dimensions),
            shaped(colored_map@, *dimensions),
            total(*kinetics),
            evolves(*kinetics, *parameters, done as nat, first, current@),
            done == 0 ==> colored_map@ == old(colored_map)@,
            done > 0 ==> coloured(kinetics.colour, current@, colored_map@),
        decreases n - done,
    {
        let ghost before = current@;
        current = evolution_universe(parameters, dimensions, current, colored_map, kinetics);
        done += 1;
        proof {
            assert(evolves(*kinetics, *parameters, (done - 1) as nat, first, before));
            assert(evolves_once(*kinetics, *parameters, before, current@));
        }
    }
    current
}

} // verus!
