//! The arithmetic of the model, as the library sees it: three functions that
//! the caller hands in.

use vstd::prelude::*;
use crate::cell::{CellState, Parameters};
use crate::neighbourhood::Adjacency;

verus! {

/// The three functions that compute on concentrations.
///
/// * `exchange(parameters, adjacency, running, neighbour)` is one step of
///   diffusion: the running value of a cell after it has given to, and
///   taken from, one neighbour that lies at `adjacency` and held `neighbour`
///   in the previous generation.
/// * `react(parameters, diffused, previous)` is the local reaction: the
///   cell's next state, from its value after diffusion and the value it had
///   in the previous generation.
/// * `colour(cell)` is the one scalar by which a cell is shown.
pub struct Kinetics<X, R, C> {
    pub exchange: X,
    pub react: R,
    pub colour: C,
}

/// Whether `exchange` may be called on every input.
pub open spec fn exchange_total<T, X>(exchange: X) -> bool where
    X: Fn(&Parameters<T>, Adjacency, CellState<T>, CellState<T>) -> CellState<T>,
 {
    forall|parameters: &Parameters<T>, adjacency: Adjacency, running: CellState<T>, neighbour: CellState<T>|
        #[trigger] exchange.requires((parameters, adjacency, running, neighbour))
}

/// Whether `react` may be called on every input.
pub open spec fn react_total<T, R>(react: R) -> bool where
    R: Fn(&Parameters<T>, CellState<T>, CellState<T>) -> CellState<T>,
 {
    forall|parameters: &Parameters<T>, diffused: CellState<T>, previous: CellState<T>|
        #[trigger] react.requires((parameters, diffused, previous))
}

/// Whether `colour` may be called on every input.
pub open spec fn colour_total<T, C>(colour: C) -> bool where C: Fn(&CellState<T>) -> T {
    forall|cell: &CellState<T>| #[trigger] colour.requires((cell,))
}

/// Whether all three functions may be called on every input.
pub open spec fn total<T, X, R, C>(kinetics: Kinetics<X, R, C>) -> bool where
    X: Fn(&Parameters<T>, Adjacency, CellState<T>, CellState<T>) -> CellState<T>,
    R: Fn(&Parameters<T>, CellState<T>, CellState<T>) -> CellState<T>,
    C: Fn(&CellState<T>) -> T,
 {
    &&& exchange_total(kinetics.exchange)
    &&& react_total(kinetics.react)
    &&& colour_total(kinetics.colour)
}

/// Whether `exchange` gives one result only on each input.
pub open spec fn exchange_deterministic<T, X>(exchange: X) -> bool where
    X: Fn(&Parameters<T>, Adjacency, CellState<T>, CellState<T>) -> CellState<T>,
 {
    forall|
        parameters: &Parameters<T>,
        adjacency: Adjacency,
        running: CellState<T>,
        neighbour: CellState<T>,
        first: CellState<T>,
        second: CellState<T>,
    |
        #[trigger] exchange.ensures((parameters, adjacency, running, neighbour), first)
            && #[trigger] exchange.ensures((parameters, adjacency, running, neighbour), second)
            ==> first == second
}

/// Whether `react` gives one result only on each input.
pub open spec fn react_deterministic<T, R>(react: R) -> bool where
    R: Fn(&Parameters<T>, CellState<T>, CellState<T>) -> CellState<T>,
 {
    forall|
        parameters: &Parameters<T>,
        diffused: CellState<T>,
        previous: CellState<T>,
        first: CellState<T>,
        second: CellState<T>,
    |
        #[trigger] react.ensures((parameters, diffused, previous), first) && #[trigger] react.ensures(
            (parameters, diffused, previous),
            second,
        ) ==> first == second
}

/// Whether `colour` gives one result only on each input.
pub open spec fn colour_deterministic<T, C>(colour: C) -> bool where C: Fn(&CellState<T>) -> T {
    forall|cell: &CellState<T>, first: T, second: T|
        #[trigger] colour.ensures((cell,), first) && #[trigger] colour.ensures((cell,), second)
            ==> first == second
}

/// Whether each of the three functions gives one result only on each input.
pub open spec fn deterministic<T, X, R, C>(kinetics: Kinetics<X, R, C>) -> bool where
    X: Fn(&Parameters<T>, Adjacency, CellState<T>, CellState<T>) -> CellState<T>,
    R: Fn(&Parameters<T>, CellState<T>, CellState<T>) -> CellState<T>,
    C: Fn(&CellState<T>) -> T,
 {
    &&& exchange_deterministic(kinetics.exchange)
    &&& react_deterministic(kinetics.react)
    &&& colour_deterministic(kinetics.colour)
}

} // verus!
