//! What holds of the stencil, of one generation and of a run, whatever the
//! kinetics compute.

use vstd::prelude::*;
use crate::cell::{CellState, Parameters, Position};
use crate::diffusion::diffuses;
use crate::evolution::{coloured, evolves, evolves_once, transitions};
use crate::grid::{extent, is_rectangular};
use crate::kinetics::{
    colour_deterministic,
    deterministic,
    exchange_deterministic,
    Kinetics,
};
use crate::neighbourhood::{
    neighbour_spec,
    neighbours_among,
    neighbours_spec,
    Adjacency,
    Direction,
    Neighbour,
};

verus! {

/// Every neighbour of a cell lies on the grid, at most one row and one
/// column away from the cell and not on it: the stencil never wraps round
/// an edge. The neighbours come in the order of the sweep, and each is the
/// cell that lies in its direction.
pub proof fn lemma_neighbours_are_adjacent(position: Position, dimensions: Position)
    ensures
        neighbours_spec(position, dimensions).len() <= 8,
        forall|i: int|
            0 <= i < neighbours_spec(position, dimensions).len() ==> {
                let found = #[trigger] neighbours_spec(position, dimensions)[i];
                &&& found.position.within(dimensions)
                &&& found.position != position
                &&& -1 <= found.position.x - position.x <= 1
                &&& -1 <= found.position.y - position.y <= 1
                &&& neighbour_spec(position, dimensions, found.direction) == Some(found.position)
            },
{
    lemma_neighbours_among(position, dimensions, 8);
}

/// The statement of [`lemma_neighbours_are_adjacent`] for the first `count`
/// directions of the sweep.
proof fn lemma_neighbours_among(position: Position, dimensions: Position, count: nat)
    ensures
        neighbours_among(position, dimensions, count).len() <= count,
        forall|i: int|
            0 <= i < neighbours_among(position, dimensions, count).len() ==> {
                let found = #[trigger] neighbours_among(position, dimensions, count)[i];
                &&& found.position.within(dimensions)
                &&& found.position != position
                &&& -1 <= found.position.x - position.x <= 1
                &&& -1 <= found.position.y - position.y <= 1
                &&& neighbour_spec(position, dimensions, found.direction) == Some(found.position)
            },
    decreases count,
{
    if count > 0 {
        lemma_neighbours_among(position, dimensions, (count - 1) as nat);
    }
}

/// A cell in the north-west corner of a grid with at least two rows and two
/// columns has three neighbours: to the east, to the south-east and to the
/// south, in this order.
pub proof fn lemma_corner_has_three_neighbours(dimensions: Position)
    requires
        dimensions.x >= 2,
        dimensions.y >= 2,
    ensures
        neighbours_spec(Position { x: 0, y: 0 }, dimensions) == seq![
            Neighbour { direction: Direction::East, position: Position { x: 1, y: 0 } },
            Neighbour { direction: Direction::SouthEast, position: Position { x: 1, y: 1 } },
            Neighbour { direction: Direction::South, position: Position { x: 0, y: 1 } },
        ],
{
    reveal_with_fuel(neighbours_among, 9);
    assert(neighbours_spec(Position { x: 0, y: 0 }, dimensions) =~= seq![
        Neighbour { direction: Direction::East, position: Position { x: 1, y: 0 } },
        Neighbour { direction: Direction::SouthEast, position: Position { x: 1, y: 1 } },
        Neighbour { direction: Direction::South, position: Position { x: 0, y: 1 } },
    ]);
}

/// A cell that has a whole ring of cells round it has eight neighbours.
pub proof fn lemma_inner_cell_has_eight_neighbours(position: Position, dimensions: Position)
    requires
        0 < position.x,
        position.x + 1 < dimensions.x,
        0 < position.y,
        position.y + 1 < dimensions.y,
    ensures
        neighbours_spec(position, dimensions).len() == 8,
        forall|i: int| 0 <= i < 8 ==> (#[trigger] neighbours_spec(position, dimensions)[i]).direction
            == Direction::in_sweep(i),
{
    reveal_with_fuel(neighbours_among, 9);
}

/// With an exchange that gives one result only, diffusion gives one result
/// only.
pub proof fn lemma_diffusion_is_deterministic<T, X>(
    exchange: X,
    parameters: Parameters<T>,
    universe: Seq<Seq<CellState<T>>>,
    neighbours: Seq<Neighbour>,
    start: CellState<T>,
    first: CellState<T>,
    second: CellState<T>,
) where X: Fn(&Parameters<T>, Adjacency, CellState<T>, CellState<T>) -> CellState<T>
    requires
        exchange_deterministic(exchange),
        diffuses(exchange, parameters, universe, neighbours, start, first),
        diffuses(exchange, parameters, universe, neighbours, start, second),
    ensures
        first == second,
    decreases neighbours.len(),
{
    if neighbours.len() > 0 {
        let last = neighbours.last();
        let beside = universe[last.position.y as int][last.position.x as int];
        let running_first = choose|running: CellState<T>|
            diffuses(exchange, parameters, universe, neighbours.drop_last(), start, running)
                && #[trigger] exchange.ensures(
                (&parameters, last.direction.adjacency(), running, beside),
                first,
            );
        let running_second = choose|running: CellState<T>|
            diffuses(exchange, parameters, universe, neighbours.drop_last(), start, running)
                && #[trigger] exchange.ensures(
                (&parameters, last.direction.adjacency(), running, beside),
                second,
            );
        lemma_diffusion_is_deterministic(
            exchange,
            parameters,
            universe,
            neighbours.drop_last(),
            start,
            running_first,
            running_second,
        );
    }
}

/// With kinetics that give one result only, a step is a function of the
/// generation before: two generations that can both follow the same one
/// are equal.
pub proof fn lemma_step_is_deterministic<T, X, R, C>(
    kinetics: Kinetics<X, R, C>,
    parameters: Parameters<T>,
    before: Seq<Seq<CellState<T>>>,
    first: Seq<Seq<CellState<T>>>,
    second: Seq<Seq<CellState<T>>>,
) where
    X: Fn(&Parameters<T>, Adjacency, CellState<T>, CellState<T>) -> CellState<T>,
    R: Fn(&Parameters<T>, CellState<T>, CellState<T>) -> CellState<T>,
    C: Fn(&CellState<T>) -> T,

    requires
        deterministic(kinetics),
        is_rectangular(before),
        evolves_once(kinetics, parameters, before, first),
        evolves_once(kinetics, parameters, before, second),
    ensures
        first == second,
{
    assert forall|y: int| 0 <= y < first.len() implies #[trigger] first[y] == second[y] by {
        assert(first[y].len() == first[0].len());
        assert(second[y].len() == second[0].len());
        assert forall|x: int| 0 <= x < first[y].len() implies #[trigger] first[y][x] == second[y][x] by {
            let position = Position { x: x as usize, y: y as usize };
            let cell = before[y][x];
            assert(transitions(kinetics, parameters, before, position, cell, first[y][x]));
            assert(transitions(kinetics, parameters, before, position, cell, second[y][x]));
            let around = neighbours_spec(position, extent(before));
            let diffused_first = choose|diffused: CellState<T>|
                diffuses(kinetics.exchange, parameters, before, around, cell, diffused)
                    && #[trigger] kinetics.react.ensures((&parameters, diffused, cell), first[y][x]);
            let diffused_second = choose|diffused: CellState<T>|
                diffuses(kinetics.exchange, parameters, before, around, cell, diffused)
                    && #[trigger] kinetics.react.ensures((&parameters, diffused, cell), second[y][x]);
            lemma_diffusion_is_deterministic(
                kinetics.exchange,
                parameters,
                before,
                around,
                cell,
                diffused_first,
                diffused_second,
            );
        }
        assert(first[y] =~= second[y]);
    }
    assert(first =~= second);
}

/// With a colour function that gives one result only, a generation has one
/// reading only.
pub proof fn lemma_reading_is_deterministic<T, C>(
    colour: C,
    universe: Seq<Seq<CellState<T>>>,
    first: Seq<Seq<T>>,
    second: Seq<Seq<T>>,
) where C: Fn(&CellState<T>) -> T
    requires
        colour_deterministic(colour),
        is_rectangular(universe),
        coloured(colour, universe, first),
        coloured(colour, universe, second),
    ensures
        first == second,
{
    assert forall|y: int| 0 <= y < first.len() implies #[trigger] first[y] == second[y] by {
        assert(first[y].len() == first[0].len());
        assert(second[y].len() == second[0].len());
        assert forall|x: int| 0 <= x < first[y].len() implies #[trigger] first[y][x] == second[y][x] by {
            assert(colour.ensures((&universe[y][x],), first[y][x]));
            assert(colour.ensures((&universe[y][x],), second[y][x]));
        }
        assert(first[y] =~= second[y]);
    }
    assert(first =~= second);
}

/// With kinetics that give one result only, a run of any length is a
/// function of the generation it starts from.
pub proof fn lemma_run_is_deterministic<T, X, R, C>(
    kinetics: Kinetics<X, R, C>,
    parameters: Parameters<T>,
    generations: nat,
    before: Seq<Seq<CellState<T>>>,
    first: Seq<Seq<CellState<T>>>,
    second: Seq<Seq<CellState<T>>>,
) where
    X: Fn(&Parameters<T>, Adjacency, CellState<T>, CellState<T>) -> CellState<T>,
    R: Fn(&Parameters<T>, CellState<T>, CellState<T>) -> CellState<T>,
    C: Fn(&CellState<T>) -> T,

    requires
        deterministic(kinetics),
        is_rectangular(before),
        evolves(kinetics, parameters, generations, before, first),
        evolves(kinetics, parameters, generations, before, second),
    ensures
        first == second,
    decreases generations,
{
    if generations > 0 {
        let earlier = (generations - 1) as nat;
        let between_first = choose|between: Seq<Seq<CellState<T>>>|
            evolves(kinetics, parameters, earlier, before, between) && #[trigger] evolves_once(
                kinetics,
                parameters,
                between,
                first,
            );
        let between_second = choose|between: Seq<Seq<CellState<T>>>|
            evolves(kinetics, parameters, earlier, before, between) && #[trigger] evolves_once(
                kinetics,
                parameters,
                between,
                second,
            );
        lemma_run_is_deterministic(
            kinetics,
            parameters,
            earlier,
            before,
            between_first,
            between_second,
        );
        lemma_run_keeps_the_extent(kinetics, parameters, earlier, before, between_first);
        lemma_step_is_deterministic(kinetics, parameters, between_first, first, second);
    }
}

/// Every generation of a run has the extent of the first.
pub proof fn lemma_run_keeps_the_extent<T, X, R, C>(
    kinetics: Kinetics<X, R, C>,
    parameters: Parameters<T>,
    generations: nat,
    before: Seq<Seq<CellState<T>>>,
    after: Seq<Seq<CellState<T>>>,
) where
    X: Fn(&Parameters<T>, Adjacency, CellState<T>, CellState<T>) -> CellState<T>,
    R: Fn(&Parameters<T>, CellState<T>, CellState<T>) -> CellState<T>,
    C: Fn(&CellState<T>) -> T,

    requires
        is_rectangular(before),
        evolves(kinetics, parameters, generations, before, after),
    ensures
        is_rectangular(after),
        extent(after) == extent(before),
    decreases generations,
{
    if generations > 0 {
        let between = choose|between: Seq<Seq<CellState<T>>>|
            evolves(kinetics, parameters, (generations - 1) as nat, before, between)
                && #[trigger] evolves_once(kinetics, parameters, between, after);
        lemma_run_keeps_the_extent(kinetics, parameters, (generations - 1) as nat, before, between);
    }
}

/// A run of no generation changes nothing.
pub proof fn lemma_empty_run<T, X, R, C>(
    kinetics: Kinetics<X, R, C>,
    parameters: Parameters<T>,
    before: Seq<Seq<CellState<T>>>,
    after: Seq<Seq<CellState<T>>>,
) where
    X: Fn(&Parameters<T>, Adjacency, CellState<T>, CellState<T>) -> CellState<T>,
    R: Fn(&Parameters<T>, CellState<T>, CellState<T>) -> CellState<T>,
    C: Fn(&CellState<T>) -> T,

    ensures
        evolves(kinetics, parameters, 0, before, after) <==> after == before,
{
}

/// A run of `n` generations followed by a run of `m` generations is a run
/// of `n + m` generations.
pub proof fn lemma_runs_compose<T, X, R, C>(
    kinetics: Kinetics<X, R, C>,
    parameters: Parameters<T>,
    n: nat,
    m: nat,
    before: Seq<Seq<CellState<T>>>,
    between: Seq<Seq<CellState<T>>>,
    after: Seq<Seq<CellState<T>>>,
) where
    X: Fn(&Parameters<T>, Adjacency, CellState<T>, CellState<T>) -> CellState<T>,
    R: Fn(&Parameters<T>, CellState<T>, CellState<T>) -> CellState<T>,
    C: Fn(&CellState<T>) -> T,

    requires
        evolves(kinetics, parameters, n, before, between),
        evolves(kinetics, parameters, m, between, after),
    ensures
        evolves(kinetics, parameters, n + m, before, after),
    decreases m,
{
    if m > 0 {
        let earlier = (m - 1) as nat;
        let last_but_one = choose|middle: Seq<Seq<CellState<T>>>|
            evolves(kinetics, parameters, earlier, between, middle) && #[trigger] evolves_once(
                kinetics,
                parameters,
                middle,
                after,
            );
        lemma_runs_compose(kinetics, parameters, n, earlier, before, between, last_but_one);
        assert(evolves(kinetics, parameters, (n + m - 1) as nat, before, last_but_one));
    }
}

/// A run of `n + m` generations passes, after `n` of them, through a
/// generation from which `m` more lead to its end.
pub proof fn lemma_run_splits<T, X, R, C>(
    kinetics: Kinetics<X, R, C>,
    parameters: Parameters<T>,
    n: nat,
    m: nat,
    before: Seq<Seq<CellState<T>>>,
    after: Seq<Seq<CellState<T>>>,
) where
    X: Fn(&Parameters<T>, Adjacency, CellState<T>, CellState<T>) -> CellState<T>,
    R: Fn(&Parameters<T>, CellState<T>, CellState<T>) -> CellState<T>,
    C: Fn(&CellState<T>) -> T,

    requires
        evolves(kinetics, parameters, n + m, before, after),
    ensures
        exists|between: Seq<Seq<CellState<T>>>|
            #[trigger] evolves(kinetics, parameters, n, before, between) && evolves(
                kinetics,
                parameters,
                m,
                between,
                after,
            ),
    decreases m,
{
    if m == 0 {
        assert(evolves(kinetics, parameters, n, before, after) && evolves(
            kinetics,
            parameters,
            0,
            after,
            after,
        ));
    } else {
        let earlier = (m - 1) as nat;
        let last_but_one = choose|middle: Seq<Seq<CellState<T>>>|
            evolves(kinetics, parameters, (n + m - 1) as nat, before, middle)
                && #[trigger] evolves_once(kinetics, parameters, middle, after);
        assert(n + earlier == n + m - 1);
        lemma_run_splits(kinetics, parameters, n, earlier, before, last_but_one);
        let between = choose|between: Seq<Seq<CellState<T>>>|
            #[trigger] evolves(kinetics, parameters, n, before, between) && evolves(
                kinetics,
                parameters,
                earlier,
                between,
                last_but_one,
            );
        assert(evolves(kinetics, parameters, m, between, after));
    }
}

/// Whether `other` is one of the up to eight cells that surround `position`
/// on a grid of extent `dimensions`: on the grid, not `position` itself,
/// and at most one row and one column away from it.
pub open spec fn surrounds(other: Position, position: Position, dimensions: Position) -> bool {
    &&& other.within(dimensions)
    &&& other != position
    &&& -1 <= other.x - position.x <= 1
    &&& -1 <= other.y - position.y <= 1
}

/// Diffusion reads the cells that surround a position and no other: on two
/// grids of one extent that agree on those cells, what can come of the
/// diffusion on one can come of it on the other.
pub proof fn lemma_diffusion_reads_the_surrounding_cells<T, X>(
    exchange: X,
    parameters: Parameters<T>,
    first: Seq<Seq<CellState<T>>>,
    second: Seq<Seq<CellState<T>>>,
    position: Position,
    start: CellState<T>,
    end: CellState<T>,
) where X: Fn(&Parameters<T>, Adjacency, CellState<T>, CellState<T>) -> CellState<T>
    requires
        is_rectangular(first),
        is_rectangular(second),
        extent(first) == extent(second),
        forall|other: Position| #[trigger]
            surrounds(other, position, extent(first)) ==> first[other.y as int][other.x as int]
                == second[other.y as int][other.x as int],
    ensures
        diffuses(exchange, parameters, first, neighbours_spec(position, extent(first)), start, end)
            <==> diffuses(
            exchange,
            parameters,
            second,
            neighbours_spec(position, extent(second)),
            start,
            end,
        ),
{
    let dimensions = extent(first);
    if diffuses(exchange, parameters, first, neighbours_spec(position, dimensions), start, end) {
        lemma_diffusion_carries_over(exchange, parameters, first, second, position, 8, start, end);
    }
    if diffuses(exchange, parameters, second, neighbours_spec(position, dimensions), start, end) {
        assert forall|other: Position| #[trigger]
            surrounds(other, position, dimensions) implies second[other.y as int][other.x as int]
            == first[other.y as int][other.x as int] by {}
        lemma_diffusion_carries_over(exchange, parameters, second, first, position, 8, start, end);
    }
}

/// One direction of [`lemma_diffusion_reads_the_surrounding_cells`], for the
/// first `count` directions of the sweep.
proof fn lemma_diffusion_carries_over<T, X>(
    exchange: X,
    parameters: Parameters<T>,
    first: Seq<Seq<CellState<T>>>,
    second: Seq<Seq<CellState<T>>>,
    position: Position,
    count: nat,
    start: CellState<T>,
    end: CellState<T>,
) where X: Fn(&Parameters<T>, Adjacency, CellState<T>, CellState<T>) -> CellState<T>
    requires
        is_rectangular(first),
        is_rectangular(second),
        extent(first) == extent(second),
        forall|other: Position| #[trigger]
            surrounds(other, position, extent(first)) ==> first[other.y as int][other.x as int]
                == second[other.y as int][other.x as int],
        diffuses(
            exchange,
            parameters,
            first,
            neighbours_among(position, extent(first), count),
            start,
            end,
        ),
    ensures
        diffuses(
            exchange,
            parameters,
            second,
            neighbours_among(position, extent(first), count),
            start,
            end,
        ),
    decreases count,
{
    if count > 0 {
        let dimensions = extent(first);
        let earlier = neighbours_among(position, dimensions, (count - 1) as nat);
        let direction = Direction::in_sweep(count - 1);
        match neighbour_spec(position, dimensions, direction) {
            Some(found) => {
                let around = neighbours_among(position, dimensions, count);
                assert(around == earlier.push(Neighbour { direction, position: found }));
                assert(around.drop_last() =~= earlier);
                assert(surrounds(found, position, dimensions));
                let beside = first[found.y as int][found.x as int];
                let running = choose|running: CellState<T>|
                    diffuses(exchange, parameters, first, earlier, start, running)
                        && #[trigger] exchange.ensures(
                        (&parameters, direction.adjacency(), running, beside),
                        end,
                    );
                lemma_diffusion_carries_over(
                    exchange,
                    parameters,
                    first,
                    second,
                    position,
                    (count - 1) as nat,
                    start,
                    running,
                );
                assert(exchange.ensures(
                    (
                        &parameters,
                        direction.adjacency(),
                        running,
                        second[found.y as int][found.x as int],
                    ),
                    end,
                ));
            },
            None => {
                lemma_diffusion_carries_over(
                    exchange,
                    parameters,
                    first,
                    second,
                    position,
                    (count - 1) as nat,
                    start,
                    end,
                );
            },
        }
    }
}

/// With an exchange that gives one result only, the diffused value of a
/// cell depends on the grid only through the cells that surround it: two
/// grids of one extent that agree on those cells give the same value.
pub proof fn lemma_diffusion_depends_on_the_surrounding_cells<T, X>(
    exchange: X,
    parameters: Parameters<T>,
    first: Seq<Seq<CellState<T>>>,
    second: Seq<Seq<CellState<T>>>,
    position: Position,
    cell: CellState<T>,
    diffused_first: CellState<T>,
    diffused_second: CellState<T>,
) where X: Fn(&Parameters<T>, Adjacency, CellState<T>, CellState<T>) -> CellState<T>
    requires
        exchange_deterministic(exchange),
        is_rectangular(first),
        is_rectangular(second),
        extent(first) == extent(second),
        forall|other: Position| #[trigger]
            surrounds(other, position, extent(first)) ==> first[other.y as int][other.x as int]
                == second[other.y as int][other.x as int],
        diffuses(
            exchange,
            parameters,
            first,
            neighbours_spec(position, extent(first)),
            cell,
            diffused_first,
        ),
        diffuses(
            exchange,
            parameters,
            second,
            neighbours_spec(position, extent(second)),
            cell,
            diffused_second,
        ),
    ensures
        diffused_first == diffused_second,
{
    lemma_diffusion_reads_the_surrounding_cells(
        exchange,
        parameters,
        first,
        second,
        position,
        cell,
        diffused_first,
    );
    lemma_diffusion_is_deterministic(
        exchange,
        parameters,
        second,
        neighbours_spec(position, extent(second)),
        cell,
        diffused_first,
        diffused_second,
    );
}

/// With kinetics that give one result only, a step gives one generation
/// and one reading of it, whatever the colour map held before.
pub proof fn lemma_step_and_reading_are_deterministic<T, X, R, C>(
    kinetics: Kinetics<X, R, C>,
    parameters: Parameters<T>,
    before: Seq<Seq<CellState<T>>>,
    first: Seq<Seq<CellState<T>>>,
    first_map: Seq<Seq<T>>,
    second: Seq<Seq<CellState<T>>>,
    second_map: Seq<Seq<T>>,
) where
    X: Fn(&Parameters<T>, Adjacency, CellState<T>, CellState<T>) -> CellState<T>,
    R: Fn(&Parameters<T>, CellState<T>, CellState<T>) -> CellState<T>,
    C: Fn(&CellState<T>) -> T,

    requires
        deterministic(kinetics),
        is_rectangular(before),
        evolves_once(kinetics, parameters, before, first),
        coloured(kinetics.colour, first, first_map),
        evolves_once(kinetics, parameters, before, second),
        coloured(kinetics.colour, second, second_map),
    ensures
        first == second,
        first_map == second_map,
{
    lemma_step_is_deterministic(kinetics, parameters, before, first, second);
    lemma_reading_is_deterministic(kinetics.colour, first, first_map, second_map);
}

/// With kinetics that give one result only, a run of `n` generations and
/// then one of `m` generations from where the first ended give the
/// generation, and the reading of it, that one run of `n + m` generations
/// gives.
pub proof fn lemma_split_run_equals_whole_run<T, X, R, C>(
    kinetics: Kinetics<X, R, C>,
    parameters: Parameters<T>,
    n: nat,
    m: nat,
    before: Seq<Seq<CellState<T>>>,
    between: Seq<Seq<CellState<T>>>,
    split: Seq<Seq<CellState<T>>>,
    split_map: Seq<Seq<T>>,
    whole: Seq<Seq<CellState<T>>>,
    whole_map: Seq<Seq<T>>,
) where
    X: Fn(&Parameters<T>, Adjacency, CellState<T>, CellState<T>) -> CellState<T>,
    R: Fn(&Parameters<T>, CellState<T>, CellState<T>) -> CellState<T>,
    C: Fn(&CellState<T>) -> T,

    requires
        deterministic(kinetics),
        is_rectangular(before),
        evolves(kinetics, parameters, n, before, between),
        evolves(kinetics, parameters, m, between, split),
        evolves(kinetics, parameters, n + m, before, whole),
    ensures
        split == whole,
        coloured(kinetics.colour, split, split_map) && coloured(kinetics.colour, whole, whole_map)
            ==> split_map == whole_map,
{
    lemma_runs_compose(kinetics, parameters, n, m, before, between, split);
    lemma_run_is_deterministic(kinetics, parameters, n + m, before, split, whole);
    lemma_run_keeps_the_extent(kinetics, parameters, n + m, before, whole);
    if coloured(kinetics.colour, split, split_map) && coloured(kinetics.colour, whole, whole_map) {
        lemma_reading_is_deterministic(kinetics.colour, whole, split_map, whole_map);
    }
}

/// Whether the kinetics never lead out of the states that `kept` holds of:
/// an exchange between two such states gives such a state, and so does the
/// reaction on two such states.
pub open spec fn closed_under<T, X, R, C>(
    kinetics: Kinetics<X, R, C>,
    parameters: Parameters<T>,
    kept: spec_fn(CellState<T>) -> bool,
) -> bool where
    X: Fn(&Parameters<T>, Adjacency, CellState<T>, CellState<T>) -> CellState<T>,
    R: Fn(&Parameters<T>, CellState<T>, CellState<T>) -> CellState<T>,
    C: Fn(&CellState<T>) -> T,
 {
    &&& forall|
        adjacency: Adjacency,
        running: CellState<T>,
        neighbour: CellState<T>,
        next: CellState<T>,
    |
        kept(running) && kept(neighbour) && #[trigger] kinetics.exchange.ensures(
            (&parameters, adjacency, running, neighbour),
            next,
        ) ==> kept(next)
    &&& forall|diffused: CellState<T>, previous: CellState<T>, next: CellState<T>|
        kept(diffused) && kept(previous) && #[trigger] kinetics.react.ensures(
            (&parameters, diffused, previous),
            next,
        ) ==> kept(next)
}

/// Whether `kept` holds of every cell of the grid.
pub open spec fn everywhere<T>(rows: Seq<Seq<T>>, kept: spec_fn(T) -> bool) -> bool {
    forall|x: int, y: int|
        0 <= y < rows.len() && 0 <= x < rows[y].len() ==> kept(#[trigger] rows[y][x])
}

/// Whether the kinetics leave a cell at `rest` alone as long as its
/// neighbours hold `rest` too: an exchange between two such cells and the
/// reaction on such a cell give `rest` again.
pub open spec fn at_rest<T, X, R, C>(
    kinetics: Kinetics<X, R, C>,
    parameters: Parameters<T>,
    rest: CellState<T>,
) -> bool where
    X: Fn(&Parameters<T>, Adjacency, CellState<T>, CellState<T>) -> CellState<T>,
    R: Fn(&Parameters<T>, CellState<T>, CellState<T>) -> CellState<T>,
    C: Fn(&CellState<T>) -> T,
 {
    closed_under(kinetics, parameters, |cell: CellState<T>| cell == rest)
}

/// Whether every cell of the grid holds `value`.
pub open spec fn uniform<T>(rows: Seq<Seq<T>>, value: T) -> bool {
    everywhere(rows, |cell: T| cell == value)
}

/// Diffusion does not lead out of a set of states that is closed under the
/// kinetics: a cell in such a state whose surrounding cells are all in such
/// states is in such a state after diffusion. No other cell of the grid
/// matters.
pub proof fn lemma_diffusion_stays_in_a_closed_set<T, X, R, C>(
    kinetics: Kinetics<X, R, C>,
    parameters: Parameters<T>,
    kept: spec_fn(CellState<T>) -> bool,
    universe: Seq<Seq<CellState<T>>>,
    position: Position,
    cell: CellState<T>,
    diffused: CellState<T>,
) where
    X: Fn(&Parameters<T>, Adjacency, CellState<T>, CellState<T>) -> CellState<T>,
    R: Fn(&Parameters<T>, CellState<T>, CellState<T>) -> CellState<T>,
    C: Fn(&CellState<T>) -> T,

    requires
        closed_under(kinetics, parameters, kept),
        is_rectangular(universe),
        kept(cell),
        forall|other: Position| #[trigger]
            surrounds(other, position, extent(universe)) ==> kept(
                universe[other.y as int][other.x as int],
            ),
        diffuses(
            kinetics.exchange,
            parameters,
            universe,
            neighbours_spec(position, extent(universe)),
            cell,
            diffused,
        ),
    ensures
        kept(diffused),
{
    lemma_diffusion_stays_among(kinetics, parameters, kept, universe, position, 8, cell, diffused);
}

/// The statement of [`lemma_diffusion_stays_in_a_closed_set`] for the first
/// `count` directions of the sweep.
proof fn lemma_diffusion_stays_among<T, X, R, C>(
    kinetics: Kinetics<X, R, C>,
    parameters: Parameters<T>,
    kept: spec_fn(CellState<T>) -> bool,
    universe: Seq<Seq<CellState<T>>>,
    position: Position,
    count: nat,
    cell: CellState<T>,
    diffused: CellState<T>,
) where
    X: Fn(&Parameters<T>, Adjacency, CellState<T>, CellState<T>) -> CellState<T>,
    R: Fn(&Parameters<T>, CellState<T>, CellState<T>) -> CellState<T>,
    C: Fn(&CellState<T>) -> T,

    requires
        closed_under(kinetics, parameters, kept),
        is_rectangular(universe),
        kept(cell),
        forall|other: Position| #[trigger]
            surrounds(other, position, extent(universe)) ==> kept(
                universe[other.y as int][other.x as int],
            ),
        diffuses(
            kinetics.exchange,
            parameters,
            universe,
            neighbours_among(position, extent(universe), count),
            cell,
            diffused,
        ),
    ensures
        kept(diffused),
    decreases count,
{
    if count > 0 {
        let dimensions = extent(universe);
        let earlier = neighbours_among(position, dimensions, (count - 1) as nat);
        let direction = Direction::in_sweep(count - 1);
        match neighbour_spec(position, dimensions, direction) {
            Some(found) => {
                let around = neighbours_among(position, dimensions, count);
                assert(around == earlier.push(Neighbour { direction, position: found }));
                assert(around.drop_last() =~= earlier);
                assert(surrounds(found, position, dimensions));
                let beside = universe[found.y as int][found.x as int];
                let running = choose|running: CellState<T>|
                    diffuses(kinetics.exchange, parameters, universe, earlier, cell, running)
                        && #[trigger] kinetics.exchange.ensures(
                        (&parameters, direction.adjacency(), running, beside),
                        diffused,
                    );
                lemma_diffusion_stays_among(
                    kinetics,
                    parameters,
                    kept,
                    universe,
                    position,
                    (count - 1) as nat,
                    cell,
                    running,
                );
            },
            None => {
                lemma_diffusion_stays_among(
                    kinetics,
                    parameters,
                    kept,
                    universe,
                    position,
                    (count - 1) as nat,
                    cell,
                    diffused,
                );
            },
        }
    }
}

/// A step does not lead out of a set of states that is closed under the
/// kinetics: where every cell of a generation is in such a state, every
/// cell of the next one is.
pub proof fn lemma_step_stays_in_a_closed_set<T, X, R, C>(
    kinetics: Kinetics<X, R, C>,
    parameters: Parameters<T>,
    kept: spec_fn(CellState<T>) -> bool,
    before: Seq<Seq<CellState<T>>>,
    after: Seq<Seq<CellState<T>>>,
) where
    X: Fn(&Parameters<T>, Adjacency, CellState<T>, CellState<T>) -> CellState<T>,
    R: Fn(&Parameters<T>, CellState<T>, CellState<T>) -> CellState<T>,
    C: Fn(&CellState<T>) -> T,

    requires
        closed_under(kinetics, parameters, kept),
        is_rectangular(before),
        everywhere(before, kept),
        evolves_once(kinetics, parameters, before, after),
    ensures
        everywhere(after, kept),
{
    assert forall|x: int, y: int| 0 <= y < after.len() && 0 <= x < after[y].len() implies kept(
        #[trigger] after[y][x],
    ) by {
        assert(after[y].len() == after[0].len());
        assert(before[y].len() == before[0].len());
        let position = Position { x: x as usize, y: y as usize };
        let cell = before[y][x];
        assert(kept(cell));
        assert(transitions(kinetics, parameters, before, position, cell, after[y][x]));
        let diffused = choose|diffused: CellState<T>|
            diffuses(
                kinetics.exchange,
                parameters,
                before,
                neighbours_spec(position, extent(before)),
                cell,
                diffused,
            ) && #[trigger] kinetics.react.ensures((&parameters, diffused, cell), after[y][x]);
        assert forall|other: Position| #[trigger]
            surrounds(other, position, extent(before)) implies kept(
            before[other.y as int][other.x as int],
        ) by {
            assert(before[other.y as int].len() == before[0].len());
        }
        lemma_diffusion_stays_in_a_closed_set(
            kinetics,
            parameters,
            kept,
            before,
            position,
            cell,
            diffused,
        );
    }
}

/// Where every cell of a generation is in a state to which the colour
/// function gives the colour `shade` and no other, a reading of that
/// generation holds `shade` everywhere, whatever the map held before.
pub proof fn lemma_reading_of_one_colour<T, C>(
    colour: C,
    kept: spec_fn(CellState<T>) -> bool,
    shade: T,
    universe: Seq<Seq<CellState<T>>>,
    colored_map: Seq<Seq<T>>,
) where C: Fn(&CellState<T>) -> T
    requires
        forall|cell: CellState<T>, seen: T|
            kept(cell) && #[trigger] colour.ensures((&cell,), seen) ==> seen == shade,
        is_rectangular(universe),
        everywhere(universe, kept),
        coloured(colour, universe, colored_map),
    ensures
        uniform(colored_map, shade),
{
    assert forall|x: int, y: int|
        0 <= y < colored_map.len() && 0 <= x < colored_map[y].len() implies #[trigger] colored_map[y][x]
        == shade by {
        assert(colored_map[y].len() == colored_map[0].len());
        assert(universe[y].len() == universe[0].len());
        assert(kept(universe[y][x]));
        assert(colour.ensures((&universe[y][x],), colored_map[y][x]));
    }
}

/// A grid in which every cell holds a state of rest is a fixed point of the
/// step: the generation that follows it holds that state everywhere.
pub proof fn lemma_rest_is_a_fixed_point<T, X, R, C>(
    kinetics: Kinetics<X, R, C>,
    parameters: Parameters<T>,
    rest: CellState<T>,
    before: Seq<Seq<CellState<T>>>,
    after: Seq<Seq<CellState<T>>>,
) where
    X: Fn(&Parameters<T>, Adjacency, CellState<T>, CellState<T>) -> CellState<T>,
    R: Fn(&Parameters<T>, CellState<T>, CellState<T>) -> CellState<T>,
    C: Fn(&CellState<T>) -> T,

    requires
        at_rest(kinetics, parameters, rest),
        is_rectangular(before),
        uniform(before, rest),
        evolves_once(kinetics, parameters, before, after),
    ensures
        uniform(after, rest),
{
    lemma_step_stays_in_a_closed_set(
        kinetics,
        parameters,
        |cell: CellState<T>| cell == rest,
        before,
        after,
    );
}

} // verus!
