//! One cell of the grid.

use vstd::prelude::*;

use crate::geometry::Point;
use crate::settings::{BLOCK_LIFE_MAX, FALL_FRAMES, SHAKE_FRAMES, TIMER_OFF};

verus! {

/// What occupies a cell.
#[derive(Debug, Clone, Copy, Eq, PartialEq, Structural)]
pub enum CellType {
    /// Nothing.
    Empty,
    /// An air capsule.
    Air,
    Block,
}

/// The colour of a block. It means nothing for a cell that holds no block.
#[derive(Debug, Clone, Copy, Eq, PartialEq, Structural)]
pub enum BlockColor {
    Red,
    Yellow,
    Green,
    Blue,
    /// The floor layer: digging it wins the stage.
    Clear,
    /// A hard block that takes several hits and costs air when it breaks.
    Brown,
}

impl BlockColor {
    /// The ordinary colour with the given number, counted from 0.
    pub open spec fn ordinary(index: int) -> BlockColor {
        if index == 0 {
            BlockColor::Red
        } else if index == 1 {
            BlockColor::Yellow
        } else if index == 2 {
            BlockColor::Green
        } else {
            BlockColor::Blue
        }
    }

    /// One of the four ordinary colours, chosen by the remainder of `n`
    /// divided by 4.
    pub fn from_u32(n: u32) -> (color: BlockColor)
        ensures
            color == Self::ordinary(n as int % 4),
    {
        match n % 4 {
            0 => BlockColor::Red,
            1 => BlockColor::Yellow,
            2 => BlockColor::Green,
            _ => BlockColor::Blue,
        }
    }
}

#[derive(Clone, Copy)]
pub struct Cell {
    pub cell_type: CellType,
    pub color: BlockColor,
    /// The first cell of the group that this block belongs to. It is worked
    /// out anew in every frame.
    pub leader: Option<Point>,
    pub block_life: i32,
    /// The cell is held up, by the floor or by what it rests on. Worked out
    /// anew in every frame.
    pub grounded: bool,
    /// Frames spent shaking, or negative while the cell does not shake.
    pub shaking_frames: i32,
    /// Frames spent falling, or negative while the cell does not fall.
    pub falling_frames: i32,
    /// The cell came down one row in this frame.
    pub fell: bool,
}

impl Cell {
    /// An empty cell, as the grid holds before a stage is laid out.
    pub open spec fn blank() -> Cell {
        Cell {
            cell_type: CellType::Empty,
            color: BlockColor::Red,
            leader: None,
            block_life: BLOCK_LIFE_MAX,
            grounded: false,
            shaking_frames: TIMER_OFF,
            falling_frames: TIMER_OFF,
            fell: false,
        }
    }

    pub fn new() -> (cell: Cell)
        ensures
            cell == Self::blank(),
    {
        Cell {
            cell_type: CellType::Empty,
            color: BlockColor::Red,
            leader: None,
            block_life: BLOCK_LIFE_MAX,
            grounded: false,
            shaking_frames: -1,
            falling_frames: -1,
            fell: false,
        }
    }

    /// The cell holds a block or an air capsule.
    pub open spec fn occupied(self) -> bool {
        self.cell_type != CellType::Empty
    }

    /// The cell with what it held taken away. Everything else stays: the
    /// colour, the life, the label, the timers.
    pub open spec fn emptied(self) -> Cell {
        Cell { cell_type: CellType::Empty, ..self }
    }

    /// Tells whether the cell is due to fall.
    pub fn is_due_to_fall(&self) -> (due: bool)
        ensures
            due == self.due_to_fall(),
    {
        self.cell_type != CellType::Empty && !self.grounded && self.shaking_frames > SHAKE_FRAMES
            && self.falling_frames > FALL_FRAMES
    }

    /// The cell holds something, nothing holds it up, and it has shaken and
    /// fallen for its full time: at its next turn it comes down one row.
    pub open spec fn due_to_fall(self) -> bool {
        self.occupied() && !self.grounded && self.shaking_frames > SHAKE_FRAMES
            && self.falling_frames > FALL_FRAMES
    }
}

} // verus!
