//! A falling-block digging game, simulated one frame at a time.
//!
//! A player tunnels through a grid of coloured blocks. Blocks of one colour
//! that touch form a group; what is not held up by the floor shakes, falls
//! and may vanish when it lands in a group of four or more. The player's air
//! runs down with every frame.
//!
//! The crate holds the simulation only. Drawing, sound and input belong to
//! the program that drives it with [`Game::update`].

pub mod board;
pub mod cascade;
pub mod cell;
mod dice;
pub mod digging;
pub mod game;
pub mod geometry;
pub mod gravity;
pub mod groups;
pub mod labels;
pub mod limits;
pub mod moves;
pub mod player;
pub mod settings;
pub mod stage;
pub mod support;
pub mod tick;

pub use board::Grid;
pub use cell::{BlockColor, Cell, CellType};
pub use game::{Game, GameState};
pub use geometry::{Command, Direction, Point};
pub use limits::clamp;
pub use player::{Player, PlayerState};
pub use stage::field_color;
pub use settings::{
    AIR_MAX, AIR_REFILL, AIR_SPAWN_INTERVAL, BLOCK_LIFE_MAX, BROWN_AIR_PENALTY, BROWN_DIG_DAMAGE,
    CELLS_X_LEN, CELLS_X_MAX, CELLS_X_MIN, CELLS_Y_LEN, CELLS_Y_MAX, CELLS_Y_MIN, CELL_COUNT,
    CLEAR_BLOCKS_HEIGHT, ERASE_SIZE, FALL_FRAMES, FPS, GRID_HEIGHT, GRID_WIDTH,
    NORMAL_BLOCKS_HEIGHT, SHAKE_FRAMES, TIMER_OFF, UP_SPACE_HEIGHT, WALK_FRAMES,
};
