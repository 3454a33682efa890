//! The cells of the board.

use vstd::prelude::*;

verus! {

/// What occupies a cell. A cell has exactly one state at any time.
#[derive(Copy, Clone, PartialEq, Eq, Debug, Structural)]
pub enum TileState {
    SnakeOccupied,
    FoodOccupied,
    BorderDeathZone,
    Free,
}

/// A cell together with its zero-based coordinates: `x_coordinate` is the
/// column, `y_coordinate` the row.
///
/// A `Tile` is a value: one handed out by the board records the state that the
/// cell had at that moment.
#[derive(Copy, Clone, PartialEq, Eq, Debug, Structural)]
pub struct Tile {
    pub state: TileState,
    pub x_coordinate: usize,
    pub y_coordinate: usize,
}

} // verus!
