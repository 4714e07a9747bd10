//! The cascade: a group that a falling block has just joined vanishes when
//! it is large enough.

use vstd::prelude::*;

use crate::board::Grid;
use crate::cell::{Cell, CellType};
use crate::game::{Game, GameState};
use crate::geometry::Point;
use crate::groups::{
    lemma_members, lemma_members_follow_labels, lemma_take_one_more, members,
};
use crate::settings::{CELLS_X_LEN, CELLS_X_MIN, CELLS_Y_LEN, CELLS_Y_MIN, ERASE_SIZE};

verus! {

/// The cell at `p` is a block that has just come down and carries `label`.
pub open spec fn lands_in(grid: Grid, p: Point, label: Option<Point>) -> bool {
    grid[p].cell_type == CellType::Block && grid[p].fell && grid[p].leader == label
}

/// Among the first `turns` cells in reading order, some block that has just
/// come down carries `label`.
pub open spec fn landed_by_turn(grid: Grid, label: Option<Point>, turns: int) -> bool {
    exists|p: Point| p.valid() && p.rank() < turns && #[trigger] lands_in(grid, p, label)
}

/// Some block that has just come down carries `label`.
pub open spec fn landed(grid: Grid, label: Option<Point>) -> bool {
    exists|p: Point| p.valid() && #[trigger] lands_in(grid, p, label)
}

/// The label counts enough cells for its group to vanish.
pub open spec fn large(grid: Grid, label: Option<Point>) -> bool {
    members(grid, label).len() >= ERASE_SIZE
}

/// The cell at `q` vanishes in the cascade: its label counts at least
/// [`ERASE_SIZE`] cells, and one of them is a block that has just come down.
pub open spec fn vanishes(grid: Grid, q: Point) -> bool {
    large(grid, grid[q].leader) && landed(grid, grid[q].leader)
}

/// The grid after the cascade: what vanishes holds nothing any more, and
/// nothing else has changed.
pub open spec fn cascaded(grid: Grid) -> Grid {
    Map::new(
        |q: Point| q.valid(),
        |q: Point|
            if vanishes(grid, q) {
                grid[q].emptied()
            } else {
                grid[q]
            },
    )
}

/// The cascade goes by size. Where a block has just come down, every cell
/// that carries its label is emptied if the label counts at least
/// [`ERASE_SIZE`] cells. If it counts fewer, none of them vanishes on
/// account of that label: each is left exactly as it was.
pub proof fn lemma_cascade_goes_by_size(grid: Grid, p: Point, q: Point)
    requires
        p.valid(),
        q.valid(),
        grid[p].cell_type == CellType::Block,
        grid[p].fell,
        grid[q].leader == grid[p].leader,
    ensures
        members(grid, grid[p].leader).len() >= ERASE_SIZE ==> cascaded(grid)[q]
            == grid[q].emptied(),
        members(grid, grid[p].leader).len() < ERASE_SIZE ==> cascaded(grid)[q] == grid[q],
{
    assert(lands_in(grid, p, grid[q].leader));
}

/// The cascade touches nothing but groups that a block has just come down
/// into: a cell whose label no such block carries is left as it was.
pub proof fn lemma_cascade_spares_the_rest(grid: Grid, q: Point)
    requires
        q.valid(),
        forall|p: Point|
            p.valid() && grid[p].cell_type == CellType::Block && grid[p].fell ==> grid[p].leader
                != grid[q].leader,
    ensures
        cascaded(grid)[q] == grid[q],
{
    if landed(grid, grid[q].leader) {
        let p = choose|p: Point| p.valid() && #[trigger] lands_in(grid, p, grid[q].leader);
        assert(false);
    }
}

impl Game {
    /// Erases every group that a block has just come down into, if the
    /// group counts at least [`ERASE_SIZE`] cells. Groups go by the labels
    /// that the cells carry, so the labels must be up to date.
    pub fn erase_connected_blocks(&mut self)
        ensures
            final(self)@ == (GameState { grid: cascaded(old(self)@.grid), ..old(self)@ }),
    {
        let ghost start = self@.grid;
        for y in CELLS_Y_MIN..CELLS_Y_LEN
            invariant
                start == old(self)@.grid,
                self@ == (GameState { grid: self@.grid, ..old(self)@ }),
                forall|q: Point| #[trigger]
                    q.valid() ==> self@.grid[q] == if large(start, start[q].leader)
                        && landed_by_turn(start, start[q].leader, y * CELLS_X_LEN) {
                        start[q].emptied()
                    } else {
                        start[q]
                    },
        {
            for x in CELLS_X_MIN..CELLS_X_LEN
                invariant
                    CELLS_Y_MIN <= y < CELLS_Y_LEN,
                    start == old(self)@.grid,
                    self@ == (GameState { grid: self@.grid, ..old(self)@ }),
                    forall|q: Point| #[trigger]
                        q.valid() ==> self@.grid[q] == if large(start, start[q].leader)
                            && landed_by_turn(start, start[q].leader, y * CELLS_X_LEN + x) {
                            start[q].emptied()
                        } else {
                            start[q]
                        },
            {
                let p = Point::new(x, y);
                let ghost before = self@.grid;
                let ghost turns = p.rank();
                proof {
                    lemma_members_follow_labels(before, start, start[p].leader);
                    lemma_members(start, start[p].leader);
                }
                if self.cell(p).cell_type == CellType::Block && self.cell(p).fell {
                    let component = self.get_component(p);
                    if component.len() >= ERASE_SIZE {
                        proof {
                            assert forall|i: int| 0 <= i < component@.len() implies (
                            #[trigger] component@[i]).valid() by {
                                assert(component@.contains(component@[i]));
                            }
                        }
                        self.empty_out(&component);
                    }
                }
                assert forall|q: Point| #[trigger] q.valid() implies self@.grid[q] == if large(
                    start,
                    start[q].leader,
                ) && landed_by_turn(start, start[q].leader, turns + 1) {
                    start[q].emptied()
                } else {
                    start[q]
                } by {
                    let label = start[q].leader;
                    if landed_by_turn(start, label, turns) {
                        let n = choose|n: Point|
                            n.valid() && n.rank() < turns && #[trigger] lands_in(start, n, label);
                        assert(lands_in(start, n, label));
                        assert(landed_by_turn(start, label, turns + 1));
                    }
                    if landed_by_turn(start, label, turns + 1) {
                        let n = choose|n: Point|
                            n.valid() && n.rank() < turns + 1 && #[trigger] lands_in(
                                start,
                                n,
                                label,
                            );
                        if n.rank() < turns {
                            assert(landed_by_turn(start, label, turns));
                        } else {
                            assert(n == p);
                        }
                    }
                    if lands_in(start, p, label) {
                        assert(landed_by_turn(start, label, turns + 1));
                        if large(start, label) && before[p] != start[p] {
                            assert(landed_by_turn(start, start[p].leader, turns));
                        }
                    }
                }
            }
        }
        assert forall|q: Point| #[trigger] q.valid() implies self@.grid[q] == cascaded(start)[q] by {
            let label = start[q].leader;
            if landed_by_turn(start, label, CELLS_Y_LEN * CELLS_X_LEN) {
                let n = choose|n: Point|
                    n.valid() && n.rank() < CELLS_Y_LEN * CELLS_X_LEN && #[trigger] lands_in(
                        start,
                        n,
                        label,
                    );
                assert(lands_in(start, n, label));
            }
            if landed(start, label) {
                let n = choose|n: Point| n.valid() && #[trigger] lands_in(start, n, label);
                assert(lands_in(start, n, label));
                assert(landed_by_turn(start, label, CELLS_Y_LEN * CELLS_X_LEN));
            }
        }
        assert(self@.grid =~= cascaded(start));
    }

    /// Takes away what every listed cell holds.
    fn empty_out(&mut self, component: &Vec<Point>)
        requires
            forall|i: int| 0 <= i < component@.len() ==> (#[trigger] component@[i]).valid(),
        ensures
            final(self)@ == (GameState { grid: final(self)@.grid, ..old(self)@ }),
            forall|q: Point| #[trigger]
                q.valid() ==> final(self)@.grid[q] == if component@.contains(q) {
                    old(self)@.grid[q].emptied()
                } else {
                    old(self)@.grid[q]
                },
    {
        let mut i: usize = 0;
        while i < component.len()
            invariant
                0 <= i <= component@.len(),
                forall|i: int| 0 <= i < component@.len() ==> (#[trigger] component@[i]).valid(),
                self@ == (GameState { grid: self@.grid, ..old(self)@ }),
                forall|q: Point| #[trigger]
                    q.valid() ==> self@.grid[q] == if component@.take(i as int).contains(q) {
                        old(self)@.grid[q].emptied()
                    } else {
                        old(self)@.grid[q]
                    },
            decreases component@.len() - i,
        {
            let point = component[i];
            proof {
                lemma_take_one_more(component@, i as int);
            }
            self.cell_mut(point).cell_type = CellType::Empty;
            i += 1;
        }
        assert(component@.take(component@.len() as int) =~= component@);
    }
}

} // verus!
