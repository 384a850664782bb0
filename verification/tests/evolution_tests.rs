use ca_turing_pattern::{
    evolution_universe, get_diffusion_in_cell, total_simulation, transition, Adjacency, CellState,
    ColoredMap, Grid, Kinetics, Parameters, Position, Universe,
};
use std::cell::RefCell;

fn weight(adjacency: Adjacency) -> f32 {
    f32::from(adjacency.weight_hundredths()) / 100.0
}

fn exchange(
    parameters: &Parameters<f32>,
    adjacency: Adjacency,
    running: CellState<f32>,
    neighbour: CellState<f32>,
) -> CellState<f32> {
    let w = weight(adjacency);
    let mut cell = running;
    cell.a -= w * parameters.d_a * cell.a;
    cell.b -= w * parameters.d_b * cell.b;
    cell.a += w * parameters.d_a * neighbour.a;
    cell.b += w * parameters.d_b * neighbour.b;
    cell
}

fn react(
    parameters: &Parameters<f32>,
    diffused: CellState<f32>,
    previous: CellState<f32>,
) -> CellState<f32> {
    let mut cell = diffused;
    cell.a += parameters.f * (1.0 - previous.a);
    cell.b -= parameters.k * previous.b;
    let reaction = parameters.r * previous.a * (previous.b * previous.b);
    cell.a -= reaction;
    cell.b += reaction;
    cell
}

fn colour(cell: &CellState<f32>) -> f32 {
    if cell.a + cell.b <= 0.0 {
        return 0.0;
    }
    cell.b / (cell.a + cell.b)
}

type Exchange = fn(&Parameters<f32>, Adjacency, CellState<f32>, CellState<f32>) -> CellState<f32>;
type React = fn(&Parameters<f32>, CellState<f32>, CellState<f32>) -> CellState<f32>;
type Colour = fn(&CellState<f32>) -> f32;

fn kinetics() -> Kinetics<Exchange, React, Colour> {
    Kinetics { exchange, react, colour }
}

fn parameters(n_x: usize, n_y: usize) -> Parameters<f32> {
    Parameters { d_a: 0.6, d_b: 0.3, f: 0.2, k: 0.1, r: 0.5, n_x, n_y }
}

fn centre_activated() -> (Universe<f32>, ColoredMap<f32>) {
    let dimensions = Position::new(3, 3);
    let mut universe = Grid::new(&dimensions, CellState::new(0.0f32, 0.0f32)).unwrap();
    universe.set(&Position::new(1, 1), CellState::new(1.0, 1.0)).unwrap();
    let colored_map = Grid::new(&dimensions, 0.0f32).unwrap();
    (universe, colored_map)
}

fn bits(universe: &Universe<f32>) -> Vec<Vec<(u32, u32)>> {
    let dimensions = universe.dimensions();
    (0..dimensions.y)
        .map(|y| {
            (0..dimensions.x)
                .map(|x| {
                    let cell = universe.get(&Position::new(x, y)).unwrap();
                    (cell.a.to_bits(), cell.b.to_bits())
                })
                .collect()
        })
        .collect()
}

fn map_bits(colored_map: &ColoredMap<f32>) -> Vec<Vec<u32>> {
    let dimensions = colored_map.dimensions();
    (0..dimensions.y)
        .map(|y| {
            (0..dimensions.x)
                .map(|x| colored_map.get(&Position::new(x, y)).unwrap().to_bits())
                .collect()
        })
        .collect()
}

#[test]
fn one_step_from_an_activated_centre() {
    let (universe, mut colored_map) = centre_activated();
    let dimensions = Position::new(3, 3);
    let evolved =
        evolution_universe(&parameters(3, 3), &dimensions, universe, &mut colored_map, &kinetics());
    assert_eq!(
        bits(&evolved),
        vec![
            vec![
                (0x3e67d567, 0x3c6703b0),
                (0x3e9ad85e, 0x3d638c98),
                (0x3e67d567, 0x3c6703b0),
            ],
            vec![
                (0x3e9ad85e, 0x3d638c98),
                (0x3cfd2ea0, 0x3f9145f6),
                (0x3ea3d70a, 0x3d75c290),
            ],
            vec![
                (0x3e67d567, 0x3c6703b0),
                (0x3e948d40, 0x3d55e570),
                (0x3e6496ee, 0x3c59274e),
            ],
        ]
    );
    assert_eq!(
        map_bits(&colored_map),
        vec![
            vec![0x3d7023c4, 0x3e1ee8c7, 0x3d7023c4],
            vec![0x3e1ee8c7, 0x3f7936b0, 0x3e21af29],
            vec![0x3d7023c4, 0x3e1c312c, 0x3d659012],
        ]
    );
}

#[test]
fn last_neighbour_of_the_sweep_keeps_its_whole_gain() {
    // The centre lies west of (2, 1), and west is the last direction of the
    // sweep: nothing flows out after the gain of 0.2 * 0.6 and 0.2 * 0.3.
    let (universe, mut colored_map) = centre_activated();
    let evolved = evolution_universe(
        &parameters(3, 3),
        &Position::new(3, 3),
        universe,
        &mut colored_map,
        &kinetics(),
    );
    let east = evolved.get(&Position::new(2, 1)).unwrap();
    assert_eq!(east.a, 0.2f32 * 0.6f32 + 0.2f32);
    assert_eq!(east.b, 0.2f32 * 0.3f32);
    assert!((east.a - 0.32).abs() < 1e-6);
    assert!((east.b - 0.06).abs() < 1e-6);
}

#[test]
fn diffusion_alone_gives_the_stated_gains_before_later_outflow() {
    let (universe, _) = centre_activated();
    let parameters = parameters(3, 3);
    let dimensions = Position::new(3, 3);
    let none = CellState::new(0.0f32, 0.0f32);
    let east = get_diffusion_in_cell(
        &parameters,
        &none,
        &Position::new(2, 1),
        &dimensions,
        &universe,
        &(exchange as Exchange),
    );
    assert_eq!((east.a, east.b), (0.2f32 * 0.6f32, 0.2f32 * 0.3f32));
    // The centre lies north-west of (2, 2); four exchanges with empty
    // neighbours would follow on a larger grid, here none: the other
    // neighbours of the corner come earlier in the sweep.
    let corner = get_diffusion_in_cell(
        &parameters,
        &none,
        &Position::new(0, 0),
        &dimensions,
        &universe,
        &(exchange as Exchange),
    );
    let gained_a = 0.05f32 * 0.6f32;
    let gained_b = 0.05f32 * 0.3f32;
    assert_eq!(corner.a, gained_a - 0.2f32 * 0.6f32 * gained_a);
    assert_eq!(corner.b, gained_b - 0.2f32 * 0.3f32 * gained_b);
}

#[test]
fn three_generations_from_an_activated_centre() {
    let (universe, mut colored_map) = centre_activated();
    let last = total_simulation(
        3,
        &parameters(3, 3),
        &Position::new(3, 3),
        universe,
        &mut colored_map,
        &kinetics(),
    );
    assert_eq!(
        bits(&last),
        vec![
            vec![
                (0x3f036f6e, 0x3d4791af),
                (0x3f0210bb, 0x3e00849b),
                (0x3f03c9aa, 0x3d4a38fd),
            ],
            vec![
                (0x3f01dcfc, 0x3e003623),
                (0x3ecd983b, 0x3f185b99),
                (0x3f01f34e, 0x3e09a68e),
            ],
            vec![
                (0x3f031df8, 0x3d45624d),
                (0x3f01d21a, 0x3df20618),
                (0x3f036a76, 0x3d40cd28),
            ],
        ]
    );
    for y in 0..3 {
        for x in 0..3 {
            let position = Position::new(x, y);
            let cell = last.get(&position).unwrap();
            assert_eq!(colored_map.get(&position).unwrap().to_bits(), colour(&cell).to_bits());
        }
    }
}

#[test]
fn no_generation_returns_the_universe_unchanged() {
    let (universe, _) = centre_activated();
    let mut colored_map = Grid::new(&Position::new(3, 3), 0.25f32).unwrap();
    let before = bits(&universe);
    let after = total_simulation(
        0,
        &parameters(3, 3),
        &Position::new(3, 3),
        universe,
        &mut colored_map,
        &kinetics(),
    );
    assert_eq!(bits(&after), before);
    assert_eq!(map_bits(&colored_map), vec![vec![0.25f32.to_bits(); 3]; 3]);
}

#[test]
fn negative_count_runs_no_generation() {
    let (universe, _) = centre_activated();
    let mut colored_map = Grid::new(&Position::new(3, 3), 0.25f32).unwrap();
    let before = bits(&universe);
    let after = total_simulation(
        -4,
        &parameters(3, 3),
        &Position::new(3, 3),
        universe,
        &mut colored_map,
        &kinetics(),
    );
    assert_eq!(bits(&after), before);
    assert_eq!(map_bits(&colored_map), vec![vec![0.25f32.to_bits(); 3]; 3]);
}

#[test]
fn runs_compose() {
    let parameters = parameters(4, 3);
    let dimensions = Position::new(4, 3);
    let mut start = Grid::new(&dimensions, CellState::new(0.0f32, 0.0f32)).unwrap();
    start.set(&Position::new(1, 1), CellState::new(1.0, 1.0)).unwrap();
    start.set(&Position::new(3, 2), CellState::new(1.0, 1.0)).unwrap();
    for (n, m) in [(0, 5), (5, 0), (1, 1), (2, 3), (4, 1)] {
        let mut map_split = Grid::new(&dimensions, 0.0f32).unwrap();
        let between =
            total_simulation(n, &parameters, &dimensions, start.clone(), &mut map_split, &kinetics());
        let split =
            total_simulation(m, &parameters, &dimensions, between, &mut map_split, &kinetics());
        let mut map_whole = Grid::new(&dimensions, 0.0f32).unwrap();
        let whole = total_simulation(
            n + m,
            &parameters,
            &dimensions,
            start.clone(),
            &mut map_whole,
            &kinetics(),
        );
        assert_eq!(bits(&split), bits(&whole));
        assert_eq!(map_bits(&map_split), map_bits(&map_whole));
    }
}

#[test]
fn one_generation_of_the_driver_is_one_step() {
    let (universe, mut map_step) = centre_activated();
    let mut map_run = map_step.clone();
    let parameters = parameters(3, 3);
    let dimensions = Position::new(3, 3);
    let stepped =
        evolution_universe(&parameters, &dimensions, universe.clone(), &mut map_step, &kinetics());
    let run = total_simulation(1, &parameters, &dimensions, universe, &mut map_run, &kinetics());
    assert_eq!(bits(&stepped), bits(&run));
    assert_eq!(map_bits(&map_step), map_bits(&map_run));
}

#[test]
fn step_is_deterministic_and_leaves_its_input_alone() {
    let (universe, mut first_map) = centre_activated();
    let mut second_map = first_map.clone();
    let kept = universe.clone();
    let parameters = parameters(3, 3);
    let dimensions = Position::new(3, 3);
    let first =
        evolution_universe(&parameters, &dimensions, universe, &mut first_map, &kinetics());
    let second =
        evolution_universe(&parameters, &dimensions, kept.clone(), &mut second_map, &kinetics());
    assert_eq!(bits(&first), bits(&second));
    assert_eq!(map_bits(&first_map), map_bits(&second_map));
    assert_eq!(kept.get(&Position::new(1, 1)).map(|c| (c.a, c.b)), Some((1.0, 1.0)));
    assert_eq!(kept.get(&Position::new(0, 0)).map(|c| (c.a, c.b)), Some((0.0, 0.0)));
}

#[test]
fn empty_grid_without_feed_stays_empty() {
    let dimensions = Position::new(4, 3);
    let parameters = Parameters { d_a: 0.6f32, d_b: 0.3, f: 0.0, k: 0.1, r: 0.5, n_x: 4, n_y: 3 };
    let universe = Grid::new(&dimensions, CellState::new(0.0f32, 0.0f32)).unwrap();
    let mut colored_map = Grid::new(&dimensions, 0.5f32).unwrap();
    let last =
        total_simulation(6, &parameters, &dimensions, universe, &mut colored_map, &kinetics());
    assert_eq!(bits(&last), vec![vec![(0, 0); 4]; 3]);
    assert_eq!(map_bits(&colored_map), vec![vec![0; 4]; 3]);
}

#[test]
fn empty_grid_with_feed_gains_the_feed_rate() {
    let dimensions = Position::new(2, 2);
    let universe = Grid::new(&dimensions, CellState::new(0.0f32, 0.0f32)).unwrap();
    let mut colored_map = Grid::new(&dimensions, 0.5f32).unwrap();
    let evolved =
        evolution_universe(&parameters(2, 2), &dimensions, universe, &mut colored_map, &kinetics());
    assert_eq!(bits(&evolved), vec![vec![(0.2f32.to_bits(), 0); 2]; 2]);
    assert_eq!(map_bits(&colored_map), vec![vec![0; 2]; 2]);
}

#[test]
fn colour_map_reads_the_new_generation() {
    let (universe, mut colored_map) = centre_activated();
    let evolved = evolution_universe(
        &parameters(3, 3),
        &Position::new(3, 3),
        universe,
        &mut colored_map,
        &kinetics(),
    );
    for y in 0..3 {
        for x in 0..3 {
            let position = Position::new(x, y);
            let cell = evolved.get(&position).unwrap();
            let shade = colored_map.get(&position).unwrap();
            assert_eq!(shade, cell.b / (cell.a + cell.b));
            assert!((0.0..=1.0).contains(&shade));
        }
    }
}

#[test]
fn transition_writes_one_colour_only() {
    let (universe, _) = centre_activated();
    let mut colored_map = Grid::new(&Position::new(3, 3), 7.0f32).unwrap();
    let position = Position::new(2, 1);
    let cell = universe.get(&position).unwrap();
    let evolved = transition(
        &parameters(3, 3),
        &cell,
        &position,
        &Position::new(3, 3),
        &universe,
        &mut colored_map,
        &kinetics(),
    );
    assert_eq!((evolved.a.to_bits(), evolved.b.to_bits()), (0x3ea3d70a, 0x3d75c290));
    for y in 0..3 {
        for x in 0..3 {
            let expected = if x == 2 && y == 1 { f32::from_bits(0x3e21af29) } else { 7.0 };
            assert_eq!(colored_map.get(&Position::new(x, y)), Some(expected));
        }
    }
}

#[test]
fn diffusion_visits_the_neighbours_clockwise_from_north_west() {
    // Every cell holds its own row-major number; the exchange notes which
    // neighbour it was called with and on which running value.
    let rows: Vec<Vec<CellState<u32>>> = (0..3u32)
        .map(|y| (0..3u32).map(|x| CellState::new(3 * y + x, 0)).collect())
        .collect();
    let universe = Grid::from_rows(rows).unwrap();
    let parameters = Parameters { d_a: 0u32, d_b: 0, f: 0, k: 0, r: 0, n_x: 3, n_y: 3 };
    let seen: RefCell<Vec<(Adjacency, u32, u32)>> = RefCell::new(Vec::new());
    let noting = |_: &Parameters<u32>,
                  adjacency: Adjacency,
                  running: CellState<u32>,
                  neighbour: CellState<u32>| {
        seen.borrow_mut().push((adjacency, running.b, neighbour.a));
        CellState::new(running.a, running.b + 1)
    };
    let centre = universe.get(&Position::new(1, 1)).unwrap();
    let diffused = get_diffusion_in_cell(
        &parameters,
        &centre,
        &Position::new(1, 1),
        &Position::new(3, 3),
        &universe,
        &noting,
    );
    assert_eq!((diffused.a, diffused.b), (4, 8));
    assert_eq!(
        *seen.borrow(),
        vec![
            (Adjacency::Diagonal, 0, 0),
            (Adjacency::Orthogonal, 1, 1),
            (Adjacency::Diagonal, 2, 2),
            (Adjacency::Orthogonal, 3, 5),
            (Adjacency::Diagonal, 4, 8),
            (Adjacency::Orthogonal, 5, 7),
            (Adjacency::Diagonal, 6, 6),
            (Adjacency::Orthogonal, 7, 3),
        ]
    );
    seen.borrow_mut().clear();
    let corner = universe.get(&Position::new(0, 0)).unwrap();
    let diffused = get_diffusion_in_cell(
        &parameters,
        &corner,
        &Position::new(0, 0),
        &Position::new(3, 3),
        &universe,
        &noting,
    );
    assert_eq!((diffused.a, diffused.b), (0, 3));
    assert_eq!(
        *seen.borrow(),
        vec![(Adjacency::Orthogonal, 0, 1), (Adjacency::Diagonal, 1, 4), (Adjacency::Orthogonal, 2, 3)]
    );
}

#[test]
fn sweep_covers_every_position_once() {
    let dimensions = Position::new(4, 3);
    let universe = Grid::new(&dimensions, CellState::new(1u32, 2u32)).unwrap();
    let mut colored_map = Grid::new(&dimensions, 0u32).unwrap();
    let parameters = Parameters { d_a: 0u32, d_b: 0, f: 0, k: 0, r: 0, n_x: 4, n_y: 3 };
    let reactions = RefCell::new(0u32);
    let counting = Kinetics {
        exchange: |_: &Parameters<u32>, _: Adjacency, running: CellState<u32>, _: CellState<u32>| {
            running
        },
        react: |_: &Parameters<u32>, diffused: CellState<u32>, _: CellState<u32>| {
            *reactions.borrow_mut() += 1;
            CellState::new(diffused.a, *reactions.borrow())
        },
        colour: |cell: &CellState<u32>| cell.b * 10,
    };
    let evolved = evolution_universe(&parameters, &dimensions, universe, &mut colored_map, &counting);
    assert_eq!(*reactions.borrow(), 12);
    for y in 0..3 {
        for x in 0..4 {
            let position = Position::new(x, y);
            let order = (4 * y + x + 1) as u32;
            let cell = evolved.get(&position).unwrap();
            assert_eq!((cell.a, cell.b), (1, order));
            assert_eq!(colored_map.get(&position), Some(order * 10));
        }
    }
}

#[test]
fn diffusion_reads_the_surrounding_cells_only() {
    let dimensions = Position::new(4, 4);
    let parameters = parameters(4, 4);
    let mut first = Grid::new(&dimensions, CellState::new(0.25f32, 0.5f32)).unwrap();
    first.set(&Position::new(1, 0), CellState::new(0.75, 0.125)).unwrap();
    let mut second = first.clone();
    // Neither the cell itself nor a cell two steps away is read.
    second.set(&Position::new(0, 0), CellState::new(0.9, 0.9)).unwrap();
    second.set(&Position::new(2, 0), CellState::new(0.9, 0.9)).unwrap();
    second.set(&Position::new(0, 2), CellState::new(0.9, 0.9)).unwrap();
    second.set(&Position::new(3, 3), CellState::new(0.9, 0.9)).unwrap();
    second.set(&Position::new(3, 0), CellState::new(0.9, 0.9)).unwrap();
    second.set(&Position::new(0, 3), CellState::new(0.9, 0.9)).unwrap();
    let cell = CellState::new(0.5f32, 0.5f32);
    let corner = Position::new(0, 0);
    let on_first =
        get_diffusion_in_cell(&parameters, &cell, &corner, &dimensions, &first, &(exchange as Exchange));
    let on_second = get_diffusion_in_cell(
        &parameters,
        &cell,
        &corner,
        &dimensions,
        &second,
        &(exchange as Exchange),
    );
    assert_eq!(
        (on_first.a.to_bits(), on_first.b.to_bits()),
        (on_second.a.to_bits(), on_second.b.to_bits())
    );
    // A surrounding cell is read.
    second.set(&Position::new(1, 1), CellState::new(0.9, 0.9)).unwrap();
    let changed = get_diffusion_in_cell(
        &parameters,
        &cell,
        &corner,
        &dimensions,
        &second,
        &(exchange as Exchange),
    );
    assert_ne!(changed.a.to_bits(), on_first.a.to_bits());
}

#[test]
fn second_substance_does_not_appear_by_itself() {
    let dimensions = Position::new(4, 3);
    let universe = Grid::new(&dimensions, CellState::new(0.0f32, 0.0f32)).unwrap();
    let mut colored_map = Grid::new(&dimensions, 0.75f32).unwrap();
    let last = total_simulation(
        5,
        &parameters(4, 3),
        &dimensions,
        universe,
        &mut colored_map,
        &kinetics(),
    );
    for y in 0..3 {
        for x in 0..4 {
            let position = Position::new(x, y);
            assert_eq!(last.get(&position).unwrap().b, 0.0);
            assert!(last.get(&position).unwrap().a > 0.0);
            assert_eq!(colored_map.get(&position), Some(0.0));
        }
    }
}
