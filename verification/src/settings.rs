//! The fixed numbers of the game: the size of the grid and the pace of its
//! animations.

use vstd::prelude::*;

verus! {

/// Rows of empty space above the blocks when a stage starts.
pub const UP_SPACE_HEIGHT: i32 = 6;

/// Rows of randomly coloured blocks.
pub const NORMAL_BLOCKS_HEIGHT: i32 = 100;

/// Rows of clear blocks at the bottom; digging one wins the stage.
pub const CLEAR_BLOCKS_HEIGHT: i32 = 7;

pub const CELLS_X_LEN: i32 = 9;

pub const CELLS_X_MIN: i32 = 0;

pub const CELLS_X_MAX: i32 = CELLS_X_LEN - 1;

pub const CELLS_Y_LEN: i32 = UP_SPACE_HEIGHT + NORMAL_BLOCKS_HEIGHT + CLEAR_BLOCKS_HEIGHT;

pub const CELLS_Y_MIN: i32 = 0;

pub const CELLS_Y_MAX: i32 = CELLS_Y_LEN - 1;

/// Columns of the grid, as an array length.
pub const GRID_WIDTH: usize = 9;

/// Rows of the grid, as an array length.
pub const GRID_HEIGHT: usize = 113;

/// Number of cells in the grid.
pub const CELL_COUNT: usize = 1017;

pub const AIR_MAX: i32 = 3000;

/// One air capsule is placed in every band of this many rows.
pub const AIR_SPAWN_INTERVAL: i32 = 20;

/// Air gained from a capsule: a fifth of a full tank.
pub const AIR_REFILL: i32 = 600;

/// Air lost when a brown block breaks: 23 percent of a full tank.
pub const BROWN_AIR_PENALTY: i32 = 690;

pub const BLOCK_LIFE_MAX: i32 = 100;

/// Life that one hit takes from a brown block.
pub const BROWN_DIG_DAMAGE: i32 = 25;

/// A group that has just landed vanishes when it has this many cells.
pub const ERASE_SIZE: usize = 4;

pub const FPS: i32 = 30;

/// Frames the player takes to walk one cell.
pub const WALK_FRAMES: i32 = 3;

/// Frames the player, or a loose cell past its shaking, takes to fall one cell.
pub const FALL_FRAMES: i32 = 3;

/// Frames a loose cell shakes before it starts to fall.
pub const SHAKE_FRAMES: i32 = 43;

/// What a cell's frame counter holds while its animation does not run.
pub const TIMER_OFF: i32 = -1;

} // verus!
