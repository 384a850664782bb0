//! The first generation: a quiescent grid in which a few cells are
//! activated at random.

use rand::rngs::StdRng;
use rand::seq::SliceRandom;
use rand::Rng;
use vstd::prelude::*;
use crate::cell::{CellState, Position};
use crate::grid::{shaped, ColoredMap, Grid, Universe};
use crate::kinetics::colour_total;

verus! {

/// The generator that seeding draws from. It can be built from a seed, so
/// that a run can be repeated.
#[verifier::external_type_specification]
#[verifier::external_body]
pub struct ExStdRng(StdRng);

/// The number of cells that the usual seeding activates.
pub const SEEDED_CELLS: usize = 3;

/// How the cells to activate are chosen.
#[derive(Debug, Clone, Copy, PartialEq, Eq, Structural)]
pub enum SeedingPolicy {
    /// As many cells as given, all different, every set of that size being
    /// as likely as any other.
    FixedCount(usize),
    /// Every cell by a draw of its own, which activates it with the
    /// probability `numerator / denominator`.
    PerCellRatio { numerator: u32, denominator: u32 },
}

/// Why a grid could not be seeded.
#[derive(Debug, Clone, Copy, PartialEq, Eq, Structural)]
pub enum SeedingError {
    /// The grid would have no rows or no columns.
    EmptyExtent,
    /// The grid has fewer cells than are to be activated.
    TooFewPositions,
    /// The ratio has a denominator of zero or is greater than one.
    InvalidRatio,
}

/// The reason for which seeding a grid of extent `dimensions` by `policy` is
/// refused, if there is one.
pub open spec fn refusal(dimensions: Position, policy: SeedingPolicy) -> Option<SeedingError> {
    if dimensions.x == 0 || dimensions.y == 0 {
        Some(SeedingError::EmptyExtent)
    } else {
        match policy {
            SeedingPolicy::FixedCount(count) => if count > dimensions.x * dimensions.y {
                Some(SeedingError::TooFewPositions)
            } else {
                None
            },
            SeedingPolicy::PerCellRatio { numerator, denominator } => if denominator == 0 || numerator
                > denominator {
                Some(SeedingError::InvalidRatio)
            } else {
                None
            },
        }
    }
}

/// Whether the cell at `(x, y)` is quiescent: it holds `zero` of both
/// substances and its colour is `zero`.
pub open spec fn quiescent_at<T>(
    universe: Seq<Seq<CellState<T>>>,
    colored_map: Seq<Seq<T>>,
    x: int,
    y: int,
    zero: T,
) -> bool {
    universe[y][x] == (CellState { a: zero, b: zero }) && colored_map[y][x] == zero
}

/// Whether the cell at `(x, y)` is activated: it holds `one` of both
/// substances and its colour is a colour of that state.
pub open spec fn activated_at<T, C>(
    universe: Seq<Seq<CellState<T>>>,
    colored_map: Seq<Seq<T>>,
    x: int,
    y: int,
    one: T,
    colour: C,
) -> bool where C: Fn(&CellState<T>) -> T {
    universe[y][x] == (CellState { a: one, b: one }) && colour.ensures(
        (&CellState { a: one, b: one },),
        colored_map[y][x],
    )
}

/// Whether exactly the cells at `chosen` are activated and all others are
/// quiescent.
pub open spec fn seeded_at<T, C>(
    universe: Seq<Seq<CellState<T>>>,
    colored_map: Seq<Seq<T>>,
    dimensions: Position,
    chosen: Seq<Position>,
    zero: T,
    one: T,
    colour: C,
) -> bool where C: Fn(&CellState<T>) -> T {
    forall|x: int, y: int|
        #![trigger universe[y][x]]
        0 <= x < dimensions.x && 0 <= y < dimensions.y ==> if chosen.contains(
            Position { x: x as usize, y: y as usize },
        ) {
            activated_at(universe, colored_map, x, y, one, colour)
        } else {
            quiescent_at(universe, colored_map, x, y, zero)
        }
}

/// Whether `universe` and `colored_map` can be what seeding by `policy`
/// makes of a grid of extent `dimensions`.
///
/// With a fixed count there are that many positions, all different and all
/// on the grid, whose cells are activated, and every other cell is
/// quiescent. With a ratio every cell is one or the other; a ratio of zero
/// leaves every cell quiescent and a ratio of one activates every cell.
pub open spec fn seeded<T, C>(
    universe: Seq<Seq<CellState<T>>>,
    colored_map: Seq<Seq<T>>,
    dimensions: Position,
    policy: SeedingPolicy,
    zero: T,
    one: T,
    colour: C,
) -> bool where C: Fn(&CellState<T>) -> T {
    &&& shaped(universe, dimensions)
    &&& shaped(colored_map, dimensions)
    &&& match policy {
        SeedingPolicy::FixedCount(count) => exists|chosen: Seq<Position>|
            {
                &&& chosen.len() == count
                &&& chosen.no_duplicates()
                &&& forall|i: int| 0 <= i < chosen.len() ==> (#[trigger] chosen[i]).within(dimensions)
                &&& #[trigger] seeded_at(universe, colored_map, dimensions, chosen, zero, one, colour)
            },
        SeedingPolicy::PerCellRatio { numerator, denominator } => forall|x: int, y: int|
            #![trigger universe[y][x]]
            0 <= x < dimensions.x && 0 <= y < dimensions.y ==> {
                &&& quiescent_at(universe, colored_map, x, y, zero) || activated_at(
                    universe,
                    colored_map,
                    x,
                    y,
                    one,
                    colour,
                )
                &&& numerator == 0 ==> quiescent_at(universe, colored_map, x, y, zero)
                &&& numerator == denominator ==> activated_at(universe, colored_map, x, y, one, colour)
            },
    }
}

/// Rearranges `order` by `rand::seq::SliceRandom::shuffle`, which only swaps
/// elements: afterwards the vector holds what it held before, each value as
/// often as before. Nothing is said of the arrangement, which is drawn from
/// `rng`.
#[verifier::external_body]
fn shuffle(order: &mut Vec<Position>, rng: &mut StdRng)
    ensures
        final(order)@.to_multiset() == old(order)@.to_multiset(),
{
    order.shuffle(rng);
}

/// One draw by `rand::Rng::gen_ratio`, which is `true` with the probability
/// `numerator / denominator`. The draw is certain at both ends: always
/// `false` for a numerator of zero, always `true` where numerator and
/// denominator are equal. The outside function panics on the ratios that
/// the precondition leaves out.
#[verifier::external_body]
fn draw(rng: &mut StdRng, numerator: u32, denominator: u32) -> (hit: bool)
    requires
        denominator != 0,
        numerator <= denominator,
    ensures
        numerator == 0 ==> !hit,
        numerator == denominator ==> hit,
{
    rng.gen_ratio(numerator, denominator)
}

/// Every position of a grid of extent `dimensions`, each once: row after
/// row, and within a row column after column.
pub fn positions(dimensions: &Position) -> (all: Vec<Position>)
    ensures
        all@.len() == dimensions.x * dimensions.y,
        forall|x: int, y: int|
            0 <= x < dimensions.x && 0 <= y < dimensions.y ==> #[trigger] all@[y * dimensions.x + x] == (
            Position { x: x as usize, y: y as usize }),
        all@.no_duplicates(),
        forall|i: int| 0 <= i < all@.len() ==> (#[trigger] all@[i]).within(*dimensions),
        forall|position: Position| position.within(*dimensions) ==> all@.contains(position),
{
    let mut all: Vec<Position> = Vec::new();
    let mut y: usize = 0;
    while y < dimensions.y
        invariant
            y <= dimensions.y,
            all@.len() == dimensions.x * y,
            forall|i: int, j: int|
                0 <= i < dimensions.x && 0 <= j < y ==> #[trigger] all@[j * dimensions.x + i] == (
                Position { x: i as usize, y: j as usize }),
            all@.no_duplicates(),
            forall|i: int| 0 <= i < all@.len() ==> (#[trigger] all@[i]).x < dimensions.x && all@[i].y < y,
            forall|position: Position|
                position.x < dimensions.x && position.y < y ==> all@.contains(position),
        decreases dimensions.y - y,
    {
        let mut x: usize = 0;
        while x < dimensions.x
            invariant
                x <= dimensions.x,
                y < dimensions.y,
                all@.len() == dimensions.x * y + x,
                forall|i: int, j: int|
                    0 <= i < dimensions.x && (0 <= j < y || (j == y && i < x)) ==> #[trigger] all@[j
                        * dimensions.x + i] == (Position { x: i as usize, y: j as usize }),
                all@.no_duplicates(),
                forall|i: int|
                    0 <= i < all@.len() ==> (#[trigger] all@[i]).x < dimensions.x && (all@[i].y < y
                        || (all@[i].y == y && all@[i].x < x)),
                forall|position: Position|
                    position.x < dimensions.x && (position.y < y || (position.y == y && position.x < x))
                        ==> all@.contains(position),
            decreases dimensions.x - x,
        {
            let ghost earlier = all@;
            all.push(Position { x, y });
            proof {
                assert forall|position: Position|
                    position.x < dimensions.x && (position.y < y || (position.y == y && position.x < x
                        + 1)) implies all@.contains(position) by {
                    if position.y == y && position.x == x {
                        assert(all@[earlier.len() as int] == position);
                    } else {
                        assert(earlier.contains(position));
                        let i = choose|i: int| 0 <= i < earlier.len() && earlier[i] == position;
                        assert(all@[i] == position);
                    }
                }
                assert forall|i: int, j: int|
                    0 <= i < dimensions.x && (0 <= j < y || (j == y && i < x + 1)) implies #[trigger] all@[j
                    * dimensions.x + i] == (Position { x: i as usize, y: j as usize }) by {
                    lemma_row_major_index(i, j, dimensions.x as int, y as int);
                    if j == y && i == x {
                        assert(j * dimensions.x + i == earlier.len()) by (nonlinear_arith)
                            requires
                                j == y,
                                i == x,
                                earlier.len() == dimensions.x * y + x,
                        ;
                    } else {
                        assert(j * dimensions.x + i < earlier.len()) by (nonlinear_arith)
                            requires
                                0 <= i < dimensions.x,
                                0 <= j < y || (j == y && i < x),
                                earlier.len() == dimensions.x * y + x,
                        ;
                        assert(earlier[j * dimensions.x + i] == (Position { x: i as usize, y: j as usize }));
                    }
                }
            }
            x += 1;
        }
        proof {
            assert(dimensions.x * y + dimensions.x == dimensions.x * (y + 1)) by (nonlinear_arith);
        }
        y += 1;
    }
    all
}

/// The place of column `i` of row `j` in a list of rows of `width` cells
/// each is not negative.
proof fn lemma_row_major_index(i: int, j: int, width: int, rows: int)
    requires
        0 <= i < width,
        0 <= j <= rows,
    ensures
        0 <= j * width + i,
{
    assert(0 <= j * width) by (nonlinear_arith)
        requires
            0 <= j,
            0 <= width,
    ;
}

/// Whether every cell of the grid is quiescent.
pub open spec fn all_quiescent<T>(
    universe: Seq<Seq<CellState<T>>>,
    colored_map: Seq<Seq<T>>,
    dimensions: Position,
    zero: T,
) -> bool {
    forall|x: int, y: int|
        #![trigger universe[y][x]]
        0 <= x < dimensions.x && 0 <= y < dimensions.y ==> quiescent_at(
            universe,
            colored_map,
            x,
            y,
            zero,
        )
}

/// Whether exactly the cells that `hits` marks are activated and all others
/// are quiescent.
pub open spec fn seeded_by_hits<T, C>(
    universe: Seq<Seq<CellState<T>>>,
    colored_map: Seq<Seq<T>>,
    dimensions: Position,
    hits: Seq<Seq<bool>>,
    zero: T,
    one: T,
    colour: C,
) -> bool where C: Fn(&CellState<T>) -> T {
    forall|x: int, y: int|
        #![trigger universe[y][x]]
        0 <= x < dimensions.x && 0 <= y < dimensions.y ==> if hits[y][x] {
            activated_at(universe, colored_map, x, y, one, colour)
        } else {
            quiescent_at(universe, colored_map, x, y, zero)
        }
}

/// Activates the first `count` cells of `order` in a quiescent grid, and no
/// other: each of them gets `one` of both substances and the colour that
/// `colour` gives to that state.
pub fn activate_first<T: Copy, C>(
    dimensions: &Position,
    order: &Vec<Position>,
    count: usize,
    universe: Universe<T>,
    colored_map: ColoredMap<T>,
    zero: T,
    one: T,
    colour: &C,
) -> (made: (Universe<T>, ColoredMap<T>)) where C: Fn(&CellState<T>) -> T
    requires
        colour_total(*colour),
        shaped(universe@, *dimensions),
        shaped(colored_map@, *dimensions),
        all_quiescent(universe@, colored_map@, *dimensions, zero),
        count <= order@.len(),
        order@.no_duplicates(),
        forall|i: int| 0 <= i < order@.len() ==> (#[trigger] order@[i]).within(*dimensions),
    ensures
        shaped(made.0@, *dimensions),
        shaped(made.1@, *dimensions),
        seeded_at(made.0@, made.1@, *dimensions, order@.take(count as int), zero, one, *colour),
{
    let mut universe = universe;
    let mut colored_map = colored_map;
    let activated = CellState { a: one, b: one };
    let mut i: usize = 0;
    while i < count
        invariant
            i <= count <= order@.len(),
            colour_total(*colour),
            activated == (CellState { a: one, b: one }),
            shaped(universe@, *dimensions),
            shaped(colored_map@, *dimensions),
            forall|k: int| 0 <= k < order@.len() ==> (#[trigger] order@[k]).within(*dimensions),
            seeded_at(universe@, colored_map@, *dimensions, order@.take(i as int), zero, one, *colour),
        decreases count - i,
    {
        let position = order[i];
        let ghost universe_before = universe@;
        let ghost map_before = colored_map@;
        assert(position.within(*dimensions));
        let shade = colour(&activated);
        universe.put(&position, activated);
        colored_map.put(&position, shade);
        proof {
            let before = order@.take(i as int);
            let now = order@.take(i + 1);
            assert(now == before.push(position));
            assert forall|x: int, y: int|
                #![trigger universe@[y][x]]
                0 <= x < dimensions.x && 0 <= y < dimensions.y implies if now.contains(
                Position { x: x as usize, y: y as usize },
            ) {
                activated_at(universe@, colored_map@, x, y, one, *colour)
            } else {
                quiescent_at(universe@, colored_map@, x, y, zero)
            } by {
                let here = Position { x: x as usize, y: y as usize };
                if here == position {
                    assert(now[i as int] == here);
                } else {
                    if before.contains(here) {
                        let k = choose|k: int| 0 <= k < before.len() && before[k] == here;
                        assert(now[k] == here);
                    }
                    if now.contains(here) {
                        let k = choose|k: int| 0 <= k < now.len() && now[k] == here;
                        assert(before[k] == here);
                    }
                    assert(universe@[y][x] == universe_before[y][x]);
                    assert(colored_map@[y][x] == map_before[y][x]);
                }
            }
        }
        i += 1;
    }
    (universe, colored_map)
}

/// Activates, in a quiescent grid, every cell that `hits` marks, and no
/// other: each of them gets `one` of both substances and the colour that
/// `colour` gives to that state.
pub fn activate_hits<T: Copy, C>(
    dimensions: &Position,
    hits: &Grid<bool>,
    universe: Universe<T>,
    colored_map: ColoredMap<T>,
    zero: T,
    one: T,
    colour: &C,
) -> (made: (Universe<T>, ColoredMap<T>)) where C: Fn(&CellState<T>) -> T
    requires
        colour_total(*colour),
        shaped(hits@, *dimensions),
        shaped(universe@, *dimensions),
        shaped(colored_map@, *dimensions),
        all_quiescent(universe@, colored_map@, *dimensions, zero),
    ensures
        shaped(made.0@, *dimensions),
        shaped(made.1@, *dimensions),
        seeded_by_hits(made.0@, made.1@, *dimensions, hits@, zero, one, *colour),
{
    let mut universe = universe;
    let mut colored_map = colored_map;
    let activated = CellState { a: one, b: one };
    let mut y: usize = 0;
    while y < dimensions.y
        invariant
            y <= dimensions.y,
            colour_total(*colour),
            activated == (CellState { a: one, b: one }),
            shaped(hits@, *dimensions),
            shaped(universe@, *dimensions),
            shaped(colored_map@, *dimensions),
            forall|i: int, j: int|
                #![trigger universe@[j][i]]
                0 <= i < dimensions.x && 0 <= j < dimensions.y ==> if j < y && hits@[j][i] {
                    activated_at(universe@, colored_map@, i, j, one, *colour)
                } else {
                    quiescent_at(universe@, colored_map@, i, j, zero)
                },
        decreases dimensions.y - y,
    {
        let mut x: usize = 0;
        while x < dimensions.x
            invariant
                x <= dimensions.x,
                y < dimensions.y,
                colour_total(*colour),
                activated == (CellState { a: one, b: one }),
                shaped(hits@, *dimensions),
                shaped(universe@, *dimensions),
                shaped(colored_map@, *dimensions),
                forall|i: int, j: int|
                    #![trigger universe@[j][i]]
                    0 <= i < dimensions.x && 0 <= j < dimensions.y ==> if (j < y || (j == y && i < x))
                        && hits@[j][i] {
                        activated_at(universe@, colored_map@, i, j, one, *colour)
                    } else {
                        quiescent_at(universe@, colored_map@, i, j, zero)
                    },
            decreases dimensions.x - x,
        {
            let position = Position { x, y };
            if hits.at(&position) {
                let ghost universe_before = universe@;
                let ghost map_before = colored_map@;
                let shade = colour(&activated);
                universe.put(&position, activated);
                colored_map.put(&position, shade);
                proof {
                    assert forall|i: int, j: int|
                        #![trigger universe@[j][i]]
                        0 <= i < dimensions.x && 0 <= j < dimensions.y && !(i == x && j == y) implies quiescent_at(
                        universe@,
                        colored_map@,
                        i,
                        j,
                        zero,
                    ) == quiescent_at(universe_before, map_before, i, j, zero) && activated_at(
                        universe@,
                        colored_map@,
                        i,
                        j,
                        one,
                        *colour,
                    ) == activated_at(universe_before, map_before, i, j, one, *colour) by {
                        assert(universe@[j][i] == universe_before[j][i]);
                        assert(colored_map@[j][i] == map_before[j][i]);
                    }
                    assert(activated_at(universe@, colored_map@, x as int, y as int, one, *colour));
                }
            }
            x += 1;
        }
        y += 1;
    }
    (universe, colored_map)
}

/// One draw for every cell of the grid `hits`, column by column and within
/// a column row by row; a cell is marked where its draw came out `true`. A
/// ratio of zero marks no cell and a ratio of one marks every cell; in
/// between, which cells are marked is left to `rng`.
fn draw_hits(
    dimensions: &Position,
    numerator: u32,
    denominator: u32,
    rng: &mut StdRng,
    hits: Grid<bool>,
) -> (drawn: Grid<bool>)
    requires
        denominator != 0,
        numerator <= denominator,
        shaped(hits@, *dimensions),
        forall|x: int, y: int|
            0 <= x < dimensions.x && 0 <= y < dimensions.y ==> !(#[trigger] hits@[y][x]),
    ensures
        shaped(drawn@, *dimensions),
        numerator == 0 ==> forall|x: int, y: int|
            0 <= x < dimensions.x && 0 <= y < dimensions.y ==> !(#[trigger] drawn@[y][x]),
        numerator == denominator ==> forall|x: int, y: int|
            0 <= x < dimensions.x && 0 <= y < dimensions.y ==> #[trigger] drawn@[y][x],
{
    let mut hits = hits;
    let mut x: usize = 0;
    while x < dimensions.x
        invariant
            x <= dimensions.x,
            denominator != 0 && numerator <= denominator,
            shaped(hits@, *dimensions),
            forall|i: int, j: int|
                #![trigger hits@[j][i]]
                0 <= i < dimensions.x && 0 <= j < dimensions.y ==> {
                    &&& numerator == 0 || i >= x ==> !hits@[j][i]
                    &&& numerator == denominator && i < x ==> hits@[j][i]
                },
        decreases dimensions.x - x,
    {
        let mut y: usize = 0;
        while y < dimensions.y
            invariant
                x < dimensions.x,
                y <= dimensions.y,
                denominator != 0 && numerator <= denominator,
                shaped(hits@, *dimensions),
                forall|i: int, j: int|
                    #![trigger hits@[j][i]]
                    0 <= i < dimensions.x && 0 <= j < dimensions.y ==> {
                        &&& numerator == 0 || i > x || (i == x && j >= y) ==> !hits@[j][i]
                        &&& numerator == denominator && (i < x || (i == x && j < y)) ==> hits@[j][i]
                    },
            decreases dimensions.y - y,
        {
            if draw(rng, numerator, denominator) {
                hits.put(&Position { x, y }, true);
            }
            y += 1;
        }
        x += 1;
    }
    hits
}

/// The first generation of a grid of extent `dimensions`, and its reading.
///
/// The grid starts quiescent: every cell holds `zero` of both substances and
/// has the colour `zero`. Then cells are activated as `policy` says: an
/// activated cell holds `one` of both substances and has the colour that
/// `colour` gives to that state. With a fixed count all positions are
/// shuffled uniformly and [`activate_first`] activates the first ones, so
/// they are all different. With a ratio one draw is made for every cell and
/// [`activate_hits`] activates the cells whose draw came out `true`.
///
/// Seeding is refused for a grid without rows or columns, for a count that
/// the grid cannot hold, and for a ratio that is no probability.
pub fn initialize_universe<T: Copy, C>(
    dimensions: &Position,
    policy: &SeedingPolicy,
    rng: &mut StdRng,
    zero: T,
    one: T,
    colour: &C,
) -> (made: Result<(Universe<T>, ColoredMap<T>), SeedingError>) where C: Fn(&CellState<T>) -> T
    requires
        colour_total(*colour),
    ensures
        match made {
            Ok((universe, colored_map)) => {
                &&& refusal(*dimensions, *policy) is None
                &&& seeded(universe@, colored_map@, *dimensions, *policy, zero, one, *colour)
            },
            Err(error) => refusal(*dimensions, *policy) == Some(error),
        },
{
    let made_universe = Grid::new(dimensions, CellState { a: zero, b: zero });
    let made_map = Grid::new(dimensions, zero);
    match (made_universe, made_map) {
        (Ok(universe), Ok(colored_map)) => {
            match policy {
                SeedingPolicy::FixedCount(count) => {
                    let mut order = positions(dimensions);
                    if *count > order.len() {
                        return Err(SeedingError::TooFewPositions);
                    }
                    let ghost listed = order@;
                    shuffle(&mut order, rng);
                    proof {
                        lemma_rearranged(listed, order@, *dimensions);
                    }
                    let (universe, colored_map) = activate_first(
                        dimensions,
                        &order,
                        *count,
                        universe,
                        colored_map,
                        zero,
                        one,
                        colour,
                    );
                    proof {
                        let chosen = order@.take(*count as int);
                        assert forall|i: int| 0 <= i < chosen.len() implies (#[trigger] chosen[i]).within(
                            *dimensions,
                        ) by {
                            assert(chosen[i] == order@[i]);
                        }
                        assert(seeded_at(
                            universe@,
                            colored_map@,
                            *dimensions,
                            chosen,
                            zero,
                            one,
                            *colour,
                        ));
                    }
                    Ok((universe, colored_map))
                },
                SeedingPolicy::PerCellRatio { numerator, denominator } => {
                    if *denominator == 0 || *numerator > *denominator {
                        return Err(SeedingError::InvalidRatio);
                    }
                    match Grid::new(dimensions, false) {
                        Ok(unmarked) => {
                            let hits = draw_hits(
                                dimensions,
                                *numerator,
                                *denominator,
                                rng,
                                unmarked,
                            );
                            let (universe, colored_map) = activate_hits(
                                dimensions,
                                &hits,
                                universe,
                                colored_map,
                                zero,
                                one,
                                colour,
                            );
                            Ok((universe, colored_map))
                        },
                        Err(_) => Err(SeedingError::EmptyExtent),
                    }
                },
            }
        },
        _ => Err(SeedingError::EmptyExtent),
    }
}

/// A rearrangement of a list of different positions on the grid is again a
/// list of different positions on the grid.
proof fn lemma_rearranged(listed: Seq<Position>, order: Seq<Position>, dimensions: Position)
    requires
        listed.no_duplicates(),
        forall|i: int| 0 <= i < listed.len() ==> (#[trigger] listed[i]).within(dimensions),
        order.to_multiset() == listed.to_multiset(),
    ensures
        order.len() == listed.len(),
        order.no_duplicates(),
        forall|i: int| 0 <= i < order.len() ==> (#[trigger] order[i]).within(dimensions),
{
    listed.lemma_multiset_has_no_duplicates();
    order.lemma_multiset_has_no_duplicates_conv();
    order.to_multiset_ensures();
    listed.to_multiset_ensures();
    assert forall|i: int| 0 <= i < order.len() implies (#[trigger] order[i]).within(dimensions) by {
        assert(order.contains(order[i]));
        assert(listed.to_multiset().count(order[i]) > 0);
        assert(listed.contains(order[i]));
        let k = choose|k: int| 0 <= k < listed.len() && listed[k] == order[i];
        assert(listed[k].within(dimensions));
    }
}

} // verus!
