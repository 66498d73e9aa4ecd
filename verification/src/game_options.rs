use vstd::prelude::*;

verus! {

/// Width of the board grid in cells, including the one-cell wall border
/// on the left and right edges.
pub const BOARD_WIDTH: usize = 12;

/// Height of the board grid in cells, including the one-cell wall border
/// on the bottom and top edges.
pub const BOARD_HEIGHT: usize = 24;

} // verus!
