//! Verified core of a two-substance reaction-diffusion automaton on a
//! rectangular grid.
//!
//! The library owns everything that is structure: the grid and its bounds,
//! the eight-neighbour stencil and the order in which it is walked, the sweep
//! that builds one generation from the previous one, the driver that chains
//! generations, and the seeding of the first generation. It never computes on
//! a concentration itself: the scalar type is a parameter, and the arithmetic
//! of one exchange, of the local reaction and of the colour reading is handed
//! in as a [`Kinetics`]. Every contract is therefore stated relative to what
//! those three functions promise.

pub mod cell;
pub mod diffusion;
pub mod evolution;
pub mod grid;
pub mod kinetics;
pub mod laws;
pub mod neighbourhood;
pub mod seeding;

pub use cell::{CellState, Parameters, Position, States};
pub use diffusion::{get_adjacent_cells_diffusion, get_diffusion_in_cell};
pub use evolution::{evolution_universe, total_simulation, transition};
pub use grid::{ColoredMap, Grid, GridError, Universe};
pub use kinetics::Kinetics;
pub use neighbourhood::{neighbour, neighbours, Adjacency, Direction, Neighbour};
pub use seeding::{
    activate_first, activate_hits, initialize_universe, positions, SeedingError, SeedingPolicy,
    SEEDED_CELLS,
};
