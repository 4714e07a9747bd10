//! Positions on the grid, the four directions and the player's commands.

use vstd::prelude::*;

use crate::settings::{CELLS_X_LEN, CELLS_X_MAX, CELLS_X_MIN, CELLS_Y_MAX, CELLS_Y_MIN, CELL_COUNT};

verus! {

/// What the player asks for in one frame.
#[derive(Debug, Clone, Copy, Eq, PartialEq, Structural)]
pub enum Command {
    /// No key is held.
    Idle,
    Left,
    Right,
    Down,
    Up,
}

#[derive(Debug, Clone, Copy, Eq, PartialEq, Structural)]
pub enum Direction {
    Left,
    Right,
    Up,
    Down,
}

impl Direction {
    /// The four directions, in the order in which a group is explored.
    pub fn all() -> (all: [Direction; 4])
        ensures
            all@ == seq![Direction::Left, Direction::Right, Direction::Up, Direction::Down],
    {
        let all = [Direction::Left, Direction::Right, Direction::Up, Direction::Down];
        assert(all@ =~= seq![Direction::Left, Direction::Right, Direction::Up, Direction::Down]);
        all
    }

    /// The direction that a command names.
    pub open spec fn of_command(command: Command) -> Direction {
        match command {
            Command::Left => Direction::Left,
            Command::Right => Direction::Right,
            Command::Up => Direction::Up,
            _ => Direction::Down,
        }
    }

    /// The direction of a command other than [`Command::Idle`].
    pub fn from_command(command: Command) -> (direction: Direction)
        requires
            command != Command::Idle,
        ensures
            direction == Self::of_command(command),
    {
        match command {
            Command::Left => Direction::Left,
            Command::Right => Direction::Right,
            Command::Up => Direction::Up,
            _ => Direction::Down,
        }
    }
}

/// A position on the grid: column `x` from the left, row `y` from the top.
#[derive(Debug, Copy, Clone, Eq, PartialEq, Structural)]
pub struct Point {
    pub x: i32,
    pub y: i32,
}

impl Point {
    /// The position lies on the grid.
    pub open spec fn valid(self) -> bool {
        CELLS_X_MIN <= self.x <= CELLS_X_MAX && CELLS_Y_MIN <= self.y <= CELLS_Y_MAX
    }

    /// The position at column `x` and row `y`, given as integers.
    pub open spec fn at(x: int, y: int) -> Point {
        Point { x: x as i32, y: y as i32 }
    }

    /// Tells whether the position lies on the grid.
    pub fn is_valid(&self) -> (valid: bool)
        ensures
            valid == self.valid(),
    {
        CELLS_X_MIN <= self.x && self.x <= CELLS_X_MAX && CELLS_Y_MIN <= self.y && self.y
            <= CELLS_Y_MAX
    }

    /// A position on the grid. Positions off the grid are never made.
    pub fn new(x: i32, y: i32) -> (p: Point)
        requires
            CELLS_X_MIN <= x <= CELLS_X_MAX,
            CELLS_Y_MIN <= y <= CELLS_Y_MAX,
        ensures
            p == (Point { x, y }),
            p.valid(),
    {
        Point { x: x, y: y }
    }

    /// The place of the position when the grid is read row by row from the
    /// top, each row from the left.
    pub open spec fn rank(self) -> int {
        self.y * CELLS_X_LEN + self.x
    }

    /// The position that has the given place in that reading.
    pub open spec fn of_rank(rank: int) -> Point {
        Point::at(rank % (CELLS_X_LEN as int), rank / (CELLS_X_LEN as int))
    }

    /// The position one row up.
    pub open spec fn above(self) -> Point {
        Point::at(self.x as int, self.y - 1)
    }

    /// The position one row down.
    pub open spec fn below(self) -> Point {
        Point::at(self.x as int, self.y + 1)
    }

    /// The position one step away in the given direction, unless that step
    /// leaves the grid. The grid has edges: nothing wraps around.
    pub open spec fn neighbor(self, direction: Direction) -> Option<Point> {
        match direction {
            Direction::Left => if self.x - 1 >= CELLS_X_MIN {
                Some(Point::at(self.x - 1, self.y as int))
            } else {
                None
            },
            Direction::Right => if self.x + 1 <= CELLS_X_MAX {
                Some(Point::at(self.x + 1, self.y as int))
            } else {
                None
            },
            Direction::Up => if self.y - 1 >= CELLS_Y_MIN {
                Some(self.above())
            } else {
                None
            },
            Direction::Down => if self.y + 1 <= CELLS_Y_MAX {
                Some(self.below())
            } else {
                None
            },
        }
    }

    /// The two positions share an edge.
    pub open spec fn touches(self, other: Point) -> bool {
        ||| self.x == other.x && (self.y - other.y == 1 || other.y - self.y == 1)
        ||| self.y == other.y && (self.x - other.x == 1 || other.x - self.x == 1)
    }
}

/// Reading the grid row by row numbers its positions from 0 to
/// `CELL_COUNT - 1`, each once.
pub proof fn lemma_rank_numbers_the_grid()
    ensures
        forall|p: Point| #[trigger] p.valid() ==> 0 <= p.rank() < CELL_COUNT && Point::of_rank(p.rank()) == p,
        forall|i: int|
            0 <= i < CELL_COUNT ==> (#[trigger] Point::of_rank(i)).valid() && Point::of_rank(i).rank()
                == i,
{
}

/// Two positions touch exactly when one is the other's neighbour in some
/// direction.
pub proof fn lemma_touching_is_neighboring(p: Point, q: Point)
    requires
        p.valid(),
        q.valid(),
    ensures
        p.touches(q) <==> exists|d: Direction| #[trigger] p.neighbor(d) == Some(q),
{
    if p.touches(q) {
        if p.x == q.x {
            if p.y - q.y == 1 {
                assert(p.neighbor(Direction::Up) == Some(q));
            } else {
                assert(p.neighbor(Direction::Down) == Some(q));
            }
        } else {
            if p.x - q.x == 1 {
                assert(p.neighbor(Direction::Left) == Some(q));
            } else {
                assert(p.neighbor(Direction::Right) == Some(q));
            }
        }
    }
}

} // verus!
