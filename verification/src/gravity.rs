//! Gravity: what nothing holds up shakes, then falls, then comes down one
//! row.

use vstd::prelude::*;

use crate::board::Grid;
use crate::cell::{Cell, CellType};
use crate::game::{Game, GameState};
use crate::geometry::{Direction, Point};
use crate::settings::{
    CELLS_X_LEN, CELLS_X_MIN, CELLS_Y_LEN, CELLS_Y_MAX, CELLS_Y_MIN, FALL_FRAMES, SHAKE_FRAMES,
};

verus! {

impl Cell {
    /// The cell after its own turn in a gravity pass, if nothing comes down
    /// on it. The mark of having fallen is wiped. A cell that holds nothing,
    /// or is held up, is otherwise left alone. A loose cell starts to shake,
    /// or shakes on; past its shaking it starts to fall, or falls on; past
    /// its falling it leaves, and what stays behind holds nothing.
    pub open spec fn after_turn(self) -> Cell {
        let wiped = Cell { fell: false, ..self };
        if !self.occupied() || self.grounded {
            wiped
        } else if self.shaking_frames < 0 {
            Cell { shaking_frames: 0, ..wiped }
        } else if self.shaking_frames <= SHAKE_FRAMES {
            Cell { shaking_frames: (self.shaking_frames + 1) as i32, ..wiped }
        } else if self.falling_frames < 0 {
            Cell { falling_frames: 0, ..wiped }
        } else if self.falling_frames <= FALL_FRAMES {
            Cell { falling_frames: (self.falling_frames + 1) as i32, ..wiped }
        } else {
            wiped.emptied()
        }
    }

    /// The cell as it arrives one row further down: unchanged but for the
    /// mark of having fallen.
    pub open spec fn landed(self) -> Cell {
        Cell { fell: true, ..self }
    }
}

/// No cell of the bottom row is due to fall: there is no row for it to come
/// down to.
pub open spec fn floor_settled(grid: Grid) -> bool {
    forall|p: Point| #[trigger] p.valid() && p.y == CELLS_Y_MAX ==> !grid[p].due_to_fall()
}

/// In a pass that has come to column `x` of row `y`, working upwards from
/// the bottom row and through each row from the left, the cell at `p` has
/// had its turn.
pub open spec fn turn_taken(p: Point, x: int, y: int) -> bool {
    p.y > y || (p.y == y && p.x < x)
}

/// The cell at `p` while a gravity pass over `grid` stands at column `x` of
/// row `y`. Three turns touch a cell: its own, the turn of the cell above,
/// which may come down on it, and the turn of the cell two rows up, which in
/// coming down bursts an air capsule beneath it.
pub open spec fn cell_in_pass(grid: Grid, p: Point, x: int, y: int) -> Cell {
    let up = p.above();
    let own = if turn_taken(p, x, y) {
        grid[p].after_turn()
    } else {
        grid[p]
    };
    let held = if p.y > CELLS_Y_MIN && turn_taken(up, x, y) && grid[up].due_to_fall() {
        grid[up].landed()
    } else {
        own
    };
    if p.y > CELLS_Y_MIN + 1 && turn_taken(up.above(), x, y) && grid[up.above()].due_to_fall()
        && held.cell_type == CellType::Air {
        held.emptied()
    } else {
        held
    }
}

/// The cell at `p` after a gravity pass over `grid`. If the cell above was
/// due to fall, its whole contents are now here, marked as fallen;
/// otherwise the cell has had its own turn. If the cell two rows up was due
/// to fall and what is here now is an air capsule, the capsule is gone.
pub open spec fn fallen_cell(grid: Grid, p: Point) -> Cell {
    let up = p.above();
    let held = if p.y > CELLS_Y_MIN && grid[up].due_to_fall() {
        grid[up].landed()
    } else {
        grid[p].after_turn()
    };
    if p.y > CELLS_Y_MIN + 1 && grid[up.above()].due_to_fall() && held.cell_type == CellType::Air {
        held.emptied()
    } else {
        held
    }
}

/// The grid after a gravity pass.
pub open spec fn fallen(grid: Grid) -> Grid {
    Map::new(|p: Point| p.valid(), |p: Point| fallen_cell(grid, p))
}

/// The cell after the given number of turns of its own, with nothing coming
/// down on it.
pub open spec fn after_turns(cell: Cell, turns: nat) -> Cell
    decreases turns,
{
    if turns == 0 {
        cell
    } else {
        after_turns(cell, (turns - 1) as nat).after_turn()
    }
}

/// The time a cell takes to fall. A cell that holds something, is not held
/// up and has neither shaken nor fallen yet needs one turn to start
/// shaking, `SHAKE_FRAMES + 1` turns to shake, one to start falling and
/// `FALL_FRAMES + 1` to fall. Until then it stays in place, and then it is
/// due: the turn after that takes it one row down.
pub proof fn lemma_time_to_fall(cell: Cell, turns: nat)
    requires
        cell.occupied(),
        !cell.grounded,
        cell.shaking_frames < 0,
        cell.falling_frames < 0,
        1 <= turns <= SHAKE_FRAMES + FALL_FRAMES + 4,
    ensures
        after_turns(cell, turns) == (Cell {
            fell: false,
            shaking_frames: if turns <= SHAKE_FRAMES + 2 {
                (turns - 1) as i32
            } else {
                (SHAKE_FRAMES + 1) as i32
            },
            falling_frames: if turns <= SHAKE_FRAMES + 2 {
                cell.falling_frames
            } else {
                (turns - SHAKE_FRAMES - 3) as i32
            },
            ..cell
        }),
        after_turns(cell, turns).due_to_fall() <==> turns == SHAKE_FRAMES + FALL_FRAMES + 4,
        turns == SHAKE_FRAMES + FALL_FRAMES + 4 ==> !after_turns(cell, turns).after_turn().occupied(),
    decreases turns,
{
    if turns > 1 {
        lemma_time_to_fall(cell, (turns - 1) as nat);
    } else {
        assert(after_turns(cell, 0) == cell);
    }
}

/// The number of cells that hold something among the first `rows` rows of
/// column `x`.
pub open spec fn held_in_column(grid: Grid, x: int, rows: int) -> int
    decreases rows,
{
    if rows <= 0 {
        0
    } else {
        held_in_column(grid, x, rows - 1) + if grid[Point::at(x, rows - 1)].occupied() {
            1int
        } else {
            0int
        }
    }
}

/// The number of cells that hold something in the first `columns` columns.
pub open spec fn held_in_columns(grid: Grid, columns: int) -> int
    decreases columns,
{
    if columns <= 0 {
        0
    } else {
        held_in_columns(grid, columns - 1) + held_in_column(
            grid,
            columns - 1,
            CELLS_Y_LEN as int,
        )
    }
}

/// The number of cells of the grid that hold something.
pub open spec fn held(grid: Grid) -> int {
    held_in_columns(grid, CELLS_X_LEN as int)
}

/// A cell that is due to fall comes down whole. What the cell held is one
/// row further down after the pass, unchanged but for the mark of having
/// fallen; only an air capsule bursts on arrival if the cell above it was
/// due to fall as well. The cell that it left is empty, unless the cell
/// above has come down into it.
pub proof fn lemma_fall_moves_whole_cell(grid: Grid, p: Point)
    requires
        p.valid(),
        p.y < CELLS_Y_MAX,
        grid[p].due_to_fall(),
    ensures
        ({
            let pushed = p.y > CELLS_Y_MIN && grid[p.above()].due_to_fall();
            &&& fallen(grid)[p.below()] == if pushed && grid[p].cell_type == CellType::Air {
                grid[p].landed().emptied()
            } else {
                grid[p].landed()
            }
            &&& !pushed ==> fallen(grid)[p] == (Cell { fell: false, ..grid[p] }).emptied()
        }),
{
    assert(p.below().valid());
    assert(p.below().above() == p);
}

/// A cell that nothing comes down on, and that is not due to fall itself,
/// stays where it is: the pass only moves its timers on, and bursts it if
/// it is an air capsule and the cell two rows up comes down.
pub proof fn lemma_fall_leaves_the_rest(grid: Grid, p: Point)
    requires
        p.valid(),
        !grid[p].due_to_fall(),
        p.y > CELLS_Y_MIN ==> !grid[p.above()].due_to_fall(),
    ensures
        fallen(grid)[p].cell_type == grid[p].cell_type || (grid[p].cell_type == CellType::Air
            && fallen(grid)[p].cell_type == CellType::Empty),
        fallen(grid)[p].color == grid[p].color,
        fallen(grid)[p].block_life == grid[p].block_life,
        !fallen(grid)[p].fell,
{
}

/// In every column, the pass leaves no more cells holding something among
/// the first rows than there were; and one fewer, if the last of these rows
/// held a cell that was due to fall, for that cell has left them.
proof fn lemma_fall_never_adds_to_column(grid: Grid, x: int, rows: int)
    requires
        0 <= x < CELLS_X_LEN,
        0 <= rows <= CELLS_Y_LEN,
    ensures
        held_in_column(fallen(grid), x, rows) + (if rows > 0 && grid[Point::at(
            x,
            rows - 1,
        )].due_to_fall() {
            1int
        } else {
            0int
        }) <= held_in_column(grid, x, rows),
    decreases rows,
{
    if rows > 0 {
        lemma_fall_never_adds_to_column(grid, x, rows - 1);
        let p = Point::at(x, rows - 1);
        assert(p.valid());
        if rows > 1 {
            assert(p.above() == Point::at(x, rows - 2));
        }
    }
}

proof fn lemma_fall_never_adds_to_columns(grid: Grid, columns: int)
    requires
        floor_settled(grid),
        0 <= columns <= CELLS_X_LEN,
    ensures
        held_in_columns(fallen(grid), columns) <= held_in_columns(grid, columns),
    decreases columns,
{
    if columns > 0 {
        lemma_fall_never_adds_to_columns(grid, columns - 1);
        lemma_fall_never_adds_to_column(grid, columns - 1, CELLS_Y_LEN as int);
        assert(Point::at(columns - 1, CELLS_Y_LEN - 1).valid());
    }
}

/// A gravity pass never adds to the cells that hold something. It may take
/// some away: an air capsule bursts under what comes down on the cell above
/// it, and what comes down on a cell that held something takes its place.
pub proof fn lemma_fall_never_adds(grid: Grid)
    requires
        floor_settled(grid),
    ensures
        held(fallen(grid)) <= held(grid),
{
    lemma_fall_never_adds_to_columns(grid, CELLS_X_LEN as int);
}

/// The grid after the turn of the cell at `p` alone. The cell has its own
/// turn. If it was due to fall, the cell below now holds what it held, and
/// an air capsule two rows down is gone.
pub open spec fn turned(grid: Grid, p: Point) -> Grid {
    Map::new(
        |q: Point| q.valid(),
        |q: Point|
            if q == p {
                grid[p].after_turn()
            } else if grid[p].due_to_fall() && q == p.below() {
                grid[p].landed()
            } else if grid[p].due_to_fall() && q == p.below().below() && grid[q].cell_type
                == CellType::Air {
                grid[q].emptied()
            } else {
                grid[q]
            },
    )
}

/// The turn of the cell at `p` takes a pass from the state in which it has
/// come to `p` to the state in which it has come to the next cell.
proof fn lemma_turn_moves_pass_on(start: Grid, before: Grid, p: Point, q: Point)
    requires
        floor_settled(start),
        p.valid(),
        q.valid(),
        forall|r: Point| #[trigger] r.valid() ==> before[r] == cell_in_pass(
            start,
            r,
            p.x as int,
            p.y as int,
        ),
    ensures
        turned(before, p)[q] == cell_in_pass(start, q, p.x + 1, p.y as int),
{
    assert(before[p] == start[p]);
    if q.y > CELLS_Y_MIN {
        assert(q.above().valid());
        if q.y > CELLS_Y_MIN + 1 {
            assert(q.above().above().valid());
        }
    }
    if q == p {
    } else if q == p.below() {
    } else if q == p.below().below() {
    } else {
    }
}

impl Game {
    /// One gravity pass. Every cell gets one turn, the bottom row first and
    /// each row from the left, so that a cell that comes down is not moved
    /// again in the same pass. Cells fall one by one, not group by group.
    pub fn fall_ungrounded_blocks(&mut self)
        requires
            floor_settled(old(self)@.grid),
        ensures
            final(self)@ == (GameState { grid: fallen(old(self)@.grid), ..old(self)@ }),
    {
        let ghost start = self@.grid;
        let mut y = CELLS_Y_LEN;
        while y > CELLS_Y_MIN
            invariant
                CELLS_Y_MIN <= y <= CELLS_Y_LEN,
                floor_settled(start),
                start == old(self)@.grid,
                self@ == (GameState { grid: self@.grid, ..old(self)@ }),
                forall|q: Point| #[trigger]
                    q.valid() ==> self@.grid[q] == cell_in_pass(start, q, 0, y - 1),
            decreases y,
        {
            y -= 1;
            for x in CELLS_X_MIN..CELLS_X_LEN
                invariant
                    CELLS_Y_MIN <= y < CELLS_Y_LEN,
                    floor_settled(start),
                    start == old(self)@.grid,
                    self@ == (GameState { grid: self@.grid, ..old(self)@ }),
                    forall|q: Point| #[trigger]
                        q.valid() ==> self@.grid[q] == cell_in_pass(start, q, x as int, y as int),
            {
                let p = Point::new(x, y);
                let ghost before = self@.grid;
                assert(before[p] == start[p]);
                self.take_turn(p);
                assert forall|q: Point| #[trigger] q.valid() implies self@.grid[q] == cell_in_pass(
                    start,
                    q,
                    x + 1,
                    y as int,
                ) by {
                    lemma_turn_moves_pass_on(start, before, p, q);
                }
            }
        }
        assert(self@.grid =~= fallen(start));
    }

    /// The turn of one cell in a gravity pass.
    fn take_turn(&mut self, p: Point)
        requires
            p.valid(),
            old(self)@.grid[p].due_to_fall() ==> p.y < CELLS_Y_MAX,
        ensures
            final(self)@ == (GameState { grid: turned(old(self)@.grid, p), ..old(self)@ }),
    {
        self.cell_mut(p).fell = false;
        if self.cell(p).cell_type != CellType::Empty {
            if !self.cell(p).grounded {
                if self.cell(p).shaking_frames < 0 {
                    self.cell_mut(p).shaking_frames = 0;
                } else if self.cell(p).shaking_frames <= SHAKE_FRAMES {
                    self.cell_mut(p).shaking_frames += 1;
                } else {
                    if self.cell(p).falling_frames < 0 {
                        self.cell_mut(p).falling_frames = 0;
                    } else if self.cell(p).falling_frames <= FALL_FRAMES {
                        self.cell_mut(p).falling_frames += 1;
                    } else {
                        let down = self.neighbor(p, Direction::Down).unwrap();
                        *self.cell_mut(down) = *self.cell(p);
                        self.cell_mut(p).cell_type = CellType::Empty;
                        self.cell_mut(down).fell = true;

                        if let Some(down2) = self.neighbor(down, Direction::Down) {
                            if self.cell(down2).cell_type == CellType::Air {
                                self.cell_mut(down2).cell_type = CellType::Empty;
                            }
                        }
                    }
                }
            }
        }
        assert(self@.grid =~= turned(old(self)@.grid, p));
    }
}

} // verus!
