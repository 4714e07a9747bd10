//! The game: the grid, the player and the flags that a frame reads and
//! writes.

use rand::rngs::StdRng;
use vstd::prelude::*;

use crate::board::Grid;
use crate::cell::Cell;
use crate::geometry::{Direction, Point};
use crate::player::Player;
use crate::settings::{CELLS_X_MAX, CELLS_X_MIN, CELLS_Y_MAX, CELLS_Y_MIN, GRID_HEIGHT, GRID_WIDTH};

verus! {

pub struct Game {
    /// The generator that lays out the stage.
    pub rng: StdRng,
    pub is_debug: bool,
    pub is_over: bool,
    pub is_clear: bool,
    pub frame: i32,
    pub player: Player,
    /// Names of the sounds to play for this frame. Whoever plays them
    /// empties the list.
    pub requested_sounds: Vec<&'static str>,
    /// The cells, row by row: `cells[y][x]`.
    pub cells: [[Cell; GRID_WIDTH]; GRID_HEIGHT],
    /// The topmost row that is shown.
    pub camera_y: i32,
    /// Rows the player has fallen, over all stages.
    pub depth: i32,
}

/// What a game is, apart from the state of its random generator.
#[verifier::ext_equal]
pub struct GameState {
    pub grid: Grid,
    pub player: Player,
    pub is_debug: bool,
    pub is_over: bool,
    pub is_clear: bool,
    pub frame: i32,
    pub sounds: Seq<&'static str>,
    pub camera_y: i32,
    pub depth: i32,
}

impl View for Game {
    type V = GameState;

    open spec fn view(&self) -> GameState {
        GameState {
            grid: Map::new(|p: Point| p.valid(), |p: Point| self.cells[p.y as int][p.x as int]),
            player: self.player,
            is_debug: self.is_debug,
            is_over: self.is_over,
            is_clear: self.is_clear,
            frame: self.frame,
            sounds: self.requested_sounds@,
            camera_y: self.camera_y,
            depth: self.depth,
        }
    }
}

impl Game {
    /// The position next to `p` in the given direction, or nothing at the
    /// edge of the grid.
    pub fn neighbor(&self, p: Point, direction: Direction) -> (next: Option<Point>)
        requires
            p.valid(),
        ensures
            next == p.neighbor(direction),
            next matches Some(q) ==> q.valid(),
    {
        match direction {
            Direction::Left => {
                if p.x - 1 >= CELLS_X_MIN {
                    Some(Point::new(p.x - 1, p.y))
                } else {
                    None
                }
            },
            Direction::Right => {
                if p.x + 1 <= CELLS_X_MAX {
                    Some(Point::new(p.x + 1, p.y))
                } else {
                    None
                }
            },
            Direction::Up => {
                if p.y - 1 >= CELLS_Y_MIN {
                    Some(Point::new(p.x, p.y - 1))
                } else {
                    None
                }
            },
            Direction::Down => {
                if p.y + 1 <= CELLS_Y_MAX {
                    Some(Point::new(p.x, p.y + 1))
                } else {
                    None
                }
            },
        }
    }

    /// The cell at `p`.
    pub fn cell<'a>(&'a self, p: Point) -> (cell: &'a Cell)
        requires
            p.valid(),
        ensures
            *cell == self@.grid[p],
    {
        &self.cells[p.y as usize][p.x as usize]
    }

    /// The cell at `p`, to be changed in place. Nothing else changes.
    pub fn cell_mut<'a>(&'a mut self, p: Point) -> (cell: &'a mut Cell)
        requires
            p.valid(),
        ensures
            *cell == old(self)@.grid[p],
            final(self)@ == (GameState { grid: old(self)@.grid.insert(p, *final(cell)), ..old(self)@ }),
    {
        &mut self.cells[p.y as usize][p.x as usize]
    }

    pub fn get_depth(&self) -> (depth: i32)
        ensures
            depth == self@.depth,
    {
        self.depth
    }

    /// Switches the debug display on or off.
    pub fn toggle_debug(&mut self)
        ensures
            final(self)@ == (GameState { is_debug: !old(self)@.is_debug, ..old(self)@ }),
    {
        self.is_debug = !self.is_debug;
    }

    /// Puts `cell` at `p`.
    pub fn put(&mut self, p: Point, cell: Cell)
        requires
            p.valid(),
        ensures
            final(self)@ == (GameState { grid: old(self)@.grid.insert(p, cell), ..old(self)@ }),
    {
        *self.cell_mut(p) = cell;
    }
}

} // verus!
