use ca_turing_pattern::{CellState, Grid, GridError, Parameters, Position, States};

#[test]
fn new_grid_holds_the_fill_everywhere() {
    let grid = Grid::new(&Position::new(3, 2), 7u32).unwrap();
    let dimensions = grid.dimensions();
    assert_eq!(dimensions.x, 3);
    assert_eq!(dimensions.y, 2);
    for y in 0..2 {
        for x in 0..3 {
            assert_eq!(grid.get(&Position::new(x, y)), Some(7));
        }
    }
}

#[test]
fn new_grid_refuses_an_empty_extent() {
    assert_eq!(Grid::new(&Position::new(0, 4), 1u8).err(), Some(GridError::EmptyExtent));
    assert_eq!(Grid::new(&Position::new(4, 0), 1u8).err(), Some(GridError::EmptyExtent));
    assert_eq!(Grid::new(&Position::new(0, 0), 1u8).err(), Some(GridError::EmptyExtent));
}

#[test]
fn get_outside_the_grid_finds_nothing() {
    let grid = Grid::new(&Position::new(3, 2), 0i32).unwrap();
    assert_eq!(grid.get(&Position::new(3, 0)), None);
    assert_eq!(grid.get(&Position::new(0, 2)), None);
    assert_eq!(grid.get(&Position::new(usize::MAX, usize::MAX)), None);
    assert_eq!(grid.get(&Position::new(2, 1)), Some(0));
}

#[test]
fn set_changes_one_cell_only() {
    let mut grid = Grid::new(&Position::new(3, 2), 0i32).unwrap();
    assert_eq!(grid.set(&Position::new(2, 1), 9), Ok(()));
    for y in 0..2 {
        for x in 0..3 {
            let expected = if x == 2 && y == 1 { 9 } else { 0 };
            assert_eq!(grid.get(&Position::new(x, y)), Some(expected));
            assert_eq!(grid.at(&Position::new(x, y)), expected);
        }
    }
}

#[test]
fn set_outside_the_grid_is_reported() {
    let mut grid = Grid::new(&Position::new(3, 2), 0i32).unwrap();
    assert_eq!(grid.set(&Position::new(3, 1), 9), Err(GridError::OutOfBounds));
    assert_eq!(grid.set(&Position::new(1, 2), 9), Err(GridError::OutOfBounds));
    for y in 0..2 {
        for x in 0..3 {
            assert_eq!(grid.get(&Position::new(x, y)), Some(0));
        }
    }
}

#[test]
fn from_rows_keeps_rows_and_columns() {
    let grid = Grid::from_rows(vec![vec![1, 2, 3], vec![4, 5, 6]]).unwrap();
    let dimensions = grid.dimensions();
    assert_eq!((dimensions.x, dimensions.y), (3, 2));
    assert_eq!(grid.get(&Position::new(0, 0)), Some(1));
    assert_eq!(grid.get(&Position::new(2, 0)), Some(3));
    assert_eq!(grid.get(&Position::new(0, 1)), Some(4));
    assert_eq!(grid.get(&Position::new(2, 1)), Some(6));
}

#[test]
fn from_rows_refuses_what_is_no_rectangle() {
    let none: Vec<Vec<u8>> = Vec::new();
    assert_eq!(Grid::from_rows(none).err(), Some(GridError::EmptyExtent));
    let empty_row: Vec<Vec<u8>> = vec![Vec::new(), Vec::new()];
    assert_eq!(Grid::from_rows(empty_row).err(), Some(GridError::EmptyExtent));
    assert_eq!(Grid::from_rows(vec![vec![1, 2], vec![3]]).err(), Some(GridError::Ragged));
    assert_eq!(Grid::from_rows(vec![vec![1], vec![2, 3]]).err(), Some(GridError::Ragged));
}

#[test]
fn position_within_dimensions() {
    let dimensions = Position::new(3, 2);
    assert!(Position::new(0, 0).is_within(&dimensions));
    assert!(Position::new(2, 1).is_within(&dimensions));
    assert!(!Position::new(3, 1).is_within(&dimensions));
    assert!(!Position::new(2, 2).is_within(&dimensions));
}

#[test]
fn cell_state_is_overwritten_whole() {
    let mut cell = CellState::new(1.0f32, 0.5f32);
    assert_eq!((cell.a, cell.b), (1.0, 0.5));
    cell.change_state(0.25, 0.75);
    assert_eq!((cell.a, cell.b), (0.25, 0.75));
}

#[test]
fn states_shift_moves_current_to_previous() {
    let mut states = States::initialize(0.0f32, 1.0, 0.5);
    assert_eq!((states.prev.a, states.prev.b), (0.0, 0.0));
    assert_eq!((states.curr.a, states.curr.b), (1.0, 0.5));
    states.shift();
    assert_eq!((states.prev.a, states.prev.b), (1.0, 0.5));
    assert_eq!((states.curr.a, states.curr.b), (1.0, 0.5));
}

#[test]
fn parameters_give_their_dimensions() {
    let parameters = Parameters { d_a: 0.6f32, d_b: 0.3, f: 0.2, k: 0.1, r: 0.5, n_x: 600, n_y: 400 };
    let dimensions = parameters.dimensions();
    assert_eq!((dimensions.x, dimensions.y), (600, 400));
}
