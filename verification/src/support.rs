//! Support: which cells are held up, by the floor or by what they rest on.

use vstd::prelude::*;

use crate::board::Grid;
use crate::cell::{Cell, CellType};
use crate::game::{Game, GameState};
use crate::geometry::{Direction, Point};
use crate::groups::{lemma_members, lemma_take_one_more, members};
use crate::settings::{
    CELLS_X_LEN, CELLS_X_MIN, CELLS_Y_LEN, CELLS_Y_MAX, CELLS_Y_MIN, CELL_COUNT, TIMER_OFF,
};

verus! {

/// The place of a position in the sweep that works out support: the bottom
/// row first, each row from the left.
pub open spec fn sweep_rank(p: Point) -> int {
    (CELLS_Y_MAX - p.y) * CELLS_X_LEN + p.x
}

/// Support found at `m` reaches `q`: an air capsule holds only itself, a
/// block holds every cell that carries its label.
pub open spec fn lends_support(grid: Grid, m: Point, q: Point) -> bool {
    match grid[m].cell_type {
        CellType::Empty => false,
        CellType::Air => m == q,
        CellType::Block => grid[m].leader == grid[q].leader,
    }
}

/// A block at `m` carries the label of `q`: support found at the block
/// holds `q` and calls off its shaking and falling.
pub open spec fn anchors(grid: Grid, m: Point, q: Point) -> bool {
    grid[m].cell_type == CellType::Block && grid[m].leader == grid[q].leader
}

/// The cell at `q` is supported once the first `turns` cells of the sweep
/// have had their turn: one of them was found resting, in the bottom row or
/// on a cell that holds something and was supported by then, and its
/// support reaches `q`.
pub open spec fn supported_by_turn(grid: Grid, q: Point, turns: int) -> bool
    decreases turns,
{
    exists|m: Point|
        m.valid() && sweep_rank(m) < turns && #[trigger] lends_support(grid, m, q) && (m.y
            == CELLS_Y_MAX || (grid[m.below()].occupied() && supported_by_turn(
            grid,
            m.below(),
            sweep_rank(m),
        )))
}

/// At its turn in the sweep the cell at `m` is found resting: it lies in the
/// bottom row, or the cell below holds something and is already supported.
pub open spec fn rests(grid: Grid, m: Point) -> bool {
    m.y == CELLS_Y_MAX || (grid[m.below()].occupied() && supported_by_turn(
        grid,
        m.below(),
        sweep_rank(m),
    ))
}

/// Some block that carries the label of `q` is found resting among the
/// first `turns` cells of the sweep.
pub open spec fn anchored_by_turn(grid: Grid, q: Point, turns: int) -> bool {
    exists|m: Point|
        m.valid() && sweep_rank(m) < turns && #[trigger] anchors(grid, m, q) && rests(grid, m)
}

/// The cell at `q` when the first `turns` cells of the sweep have had their
/// turn. A cell whose label is anchored is supported and its shaking and
/// falling are called off; an air capsule found resting is supported; every
/// other cell is not.
pub open spec fn cell_in_sweep(grid: Grid, q: Point, turns: int) -> Cell {
    if anchored_by_turn(grid, q, turns) {
        Cell { grounded: true, shaking_frames: TIMER_OFF, falling_frames: TIMER_OFF, ..grid[q] }
    } else if grid[q].cell_type == CellType::Air && sweep_rank(q) < turns && rests(grid, q) {
        Cell { grounded: true, ..grid[q] }
    } else {
        Cell { grounded: false, ..grid[q] }
    }
}

/// The cell at `q` is supported when the sweep is over.
pub open spec fn supported(grid: Grid, q: Point) -> bool {
    supported_by_turn(grid, q, CELL_COUNT as int)
}

/// The grid after support has been worked out.
pub open spec fn propped(grid: Grid) -> Grid {
    Map::new(|q: Point| q.valid(), |q: Point| cell_in_sweep(grid, q, CELL_COUNT as int))
}

/// Support by a given turn, said with [`rests`]: some cell that had its turn
/// was found resting and its support reaches `q`.
pub proof fn lemma_supported_by_turn(grid: Grid, q: Point, turns: int)
    ensures
        supported_by_turn(grid, q, turns) <==> exists|m: Point|
            m.valid() && sweep_rank(m) < turns && #[trigger] lends_support(grid, m, q) && rests(
                grid,
                m,
            ),
{
    if supported_by_turn(grid, q, turns) {
        let m = choose|m: Point|
            m.valid() && sweep_rank(m) < turns && #[trigger] lends_support(grid, m, q) && (m.y
                == CELLS_Y_MAX || (grid[m.below()].occupied() && supported_by_turn(
                grid,
                m.below(),
                sweep_rank(m),
            )));
        assert(lends_support(grid, m, q) && rests(grid, m));
    }
    if exists|m: Point|
        m.valid() && sweep_rank(m) < turns && #[trigger] lends_support(grid, m, q) && rests(
            grid,
            m,
        ) {
        let m = choose|m: Point|
            m.valid() && sweep_rank(m) < turns && #[trigger] lends_support(grid, m, q) && rests(
                grid,
                m,
            );
        assert(lends_support(grid, m, q));
    }
}

/// A cell carries the mark of support at a point of the sweep exactly when
/// it is supported by then.
pub proof fn lemma_mark_is_support(grid: Grid, q: Point, turns: int)
    requires
        q.valid(),
    ensures
        cell_in_sweep(grid, q, turns).grounded == supported_by_turn(grid, q, turns),
{
    lemma_supported_by_turn(grid, q, turns);
    if anchored_by_turn(grid, q, turns) {
        let m = choose|m: Point|
            m.valid() && sweep_rank(m) < turns && #[trigger] anchors(grid, m, q) && rests(grid, m);
        assert(lends_support(grid, m, q));
    } else if grid[q].cell_type == CellType::Air && sweep_rank(q) < turns && rests(grid, q) {
        assert(lends_support(grid, q, q));
    } else {
        if supported_by_turn(grid, q, turns) {
            let m = choose|m: Point|
                m.valid() && sweep_rank(m) < turns && #[trigger] lends_support(grid, m, q) && rests(
                    grid,
                    m,
                );
            if grid[m].cell_type == CellType::Block {
                assert(anchors(grid, m, q));
            }
            assert(false);
        }
    }
}

/// One more turn of the sweep adds the support found at the cell whose turn
/// it was, and nothing else.
pub proof fn lemma_support_grows_by_turn(grid: Grid, q: Point, m: Point)
    requires
        m.valid(),
    ensures
        supported_by_turn(grid, q, sweep_rank(m) + 1) <==> supported_by_turn(
            grid,
            q,
            sweep_rank(m),
        ) || (lends_support(grid, m, q) && rests(grid, m)),
        anchored_by_turn(grid, q, sweep_rank(m) + 1) <==> anchored_by_turn(grid, q, sweep_rank(m))
            || (anchors(grid, m, q) && rests(grid, m)),
{
    let turns = sweep_rank(m);
    lemma_supported_by_turn(grid, q, turns);
    lemma_supported_by_turn(grid, q, turns + 1);
    if supported_by_turn(grid, q, turns + 1) {
        let n = choose|n: Point|
            n.valid() && sweep_rank(n) < turns + 1 && #[trigger] lends_support(grid, n, q) && rests(
                grid,
                n,
            );
        if sweep_rank(n) < turns {
            assert(supported_by_turn(grid, q, turns));
        } else {
            assert(n == m);
        }
    }
    if supported_by_turn(grid, q, turns) {
        let n = choose|n: Point|
            n.valid() && sweep_rank(n) < turns && #[trigger] lends_support(grid, n, q) && rests(
                grid,
                n,
            );
        assert(lends_support(grid, n, q));
    }
    if lends_support(grid, m, q) && rests(grid, m) {
        assert(supported_by_turn(grid, q, turns + 1));
    }
    if anchored_by_turn(grid, q, turns + 1) {
        let n = choose|n: Point|
            n.valid() && sweep_rank(n) < turns + 1 && #[trigger] anchors(grid, n, q) && rests(
                grid,
                n,
            );
        if sweep_rank(n) < turns {
            assert(anchored_by_turn(grid, q, turns));
        } else {
            assert(n == m);
        }
    }
    if anchored_by_turn(grid, q, turns) {
        let n = choose|n: Point|
            n.valid() && sweep_rank(n) < turns && #[trigger] anchors(grid, n, q) && rests(grid, n);
        assert(anchors(grid, n, q));
    }
    if anchors(grid, m, q) && rests(grid, m) {
        assert(anchored_by_turn(grid, q, turns + 1));
    }
}

/// Whatever the bottom row holds is supported: the floor holds it up.
pub proof fn lemma_floor_is_held(grid: Grid, q: Point)
    requires
        q.valid(),
        q.y == CELLS_Y_MAX,
        grid[q].occupied(),
    ensures
        propped(grid)[q].grounded,
        supported(grid, q),
{
    assert(rests(grid, q));
    assert(lends_support(grid, q, q));
    if grid[q].cell_type == CellType::Block {
        assert(anchors(grid, q, q));
    }
    lemma_mark_is_support(grid, q, CELL_COUNT as int);
}

/// Support once found is not lost as the sweep goes on.
pub proof fn lemma_support_lasts(grid: Grid, q: Point, sooner: int, later: int)
    requires
        sooner <= later,
        supported_by_turn(grid, q, sooner),
    ensures
        supported_by_turn(grid, q, later),
{
    lemma_supported_by_turn(grid, q, sooner);
    lemma_supported_by_turn(grid, q, later);
    let m = choose|m: Point|
        m.valid() && sweep_rank(m) < sooner && #[trigger] lends_support(grid, m, q) && rests(
            grid,
            m,
        );
    assert(lends_support(grid, m, q));
}

/// The mark of support, cell by cell. After the pass a cell is marked
/// exactly when some cell whose support reaches it was found resting at its
/// turn: for an air capsule that is the capsule itself, for a block any
/// block that carries its label. So a group is supported as one, exactly
/// when one of its members lies in the bottom row or on a cell that holds
/// something and was already supported when the member's turn came.
pub proof fn lemma_held_iff_some_member_rests(grid: Grid, q: Point)
    requires
        q.valid(),
    ensures
        propped(grid)[q].grounded <==> supported(grid, q),
        supported(grid, q) <==> exists|m: Point|
            m.valid() && #[trigger] lends_support(grid, m, q) && rests(grid, m),
{
    lemma_mark_is_support(grid, q, CELL_COUNT as int);
    lemma_supported_by_turn(grid, q, CELL_COUNT as int);
    if exists|m: Point| m.valid() && #[trigger] lends_support(grid, m, q) && rests(grid, m) {
        let m = choose|m: Point| m.valid() && #[trigger] lends_support(grid, m, q) && rests(grid, m);
        assert(sweep_rank(m) < CELL_COUNT);
        assert(lends_support(grid, m, q));
    }
    if supported(grid, q) {
        let m = choose|m: Point|
            m.valid() && sweep_rank(m) < CELL_COUNT && #[trigger] lends_support(grid, m, q)
                && rests(grid, m);
        assert(lends_support(grid, m, q));
    }
}

/// Blocks that carry one label are supported together, and with their
/// support their shaking and falling is called off.
pub proof fn lemma_group_held_as_one(grid: Grid, p: Point, q: Point)
    requires
        p.valid(),
        q.valid(),
        grid[p].cell_type == CellType::Block,
        grid[p].leader == grid[q].leader,
        propped(grid)[p].grounded,
    ensures
        propped(grid)[q] == grid[q].held_up(),
{
    let turns = CELL_COUNT as int;
    assert(anchored_by_turn(grid, p, turns));
    let m = choose|m: Point|
        m.valid() && sweep_rank(m) < turns && #[trigger] anchors(grid, m, p) && rests(grid, m);
    assert(anchors(grid, m, q));
}

/// What is supported has footing in the end: some cell whose support
/// reaches it lies in the bottom row, or on a cell that holds something and
/// is supported when the pass is over.
pub proof fn lemma_supported_has_footing(grid: Grid, q: Point)
    requires
        q.valid(),
        supported(grid, q),
    ensures
        exists|m: Point|
            m.valid() && #[trigger] lends_support(grid, m, q) && (m.y == CELLS_Y_MAX || (
            grid[m.below()].occupied() && supported(grid, m.below()))),
{
    lemma_supported_by_turn(grid, q, CELL_COUNT as int);
    let m = choose|m: Point|
        m.valid() && sweep_rank(m) < CELL_COUNT && #[trigger] lends_support(grid, m, q) && rests(
            grid,
            m,
        );
    if m.y != CELLS_Y_MAX {
        lemma_support_lasts(grid, m.below(), sweep_rank(m), CELL_COUNT as int);
    }
    assert(lends_support(grid, m, q));
}

/// A cell that lies on a supported cell is found resting, provided that the
/// support of the lower cell does not come from above: every cell whose
/// support reaches the lower cell has its turn before the upper one. That
/// is so for a cell on an air capsule, and for a cell on a block whose
/// group does not rise above the block's row.
pub proof fn lemma_resting_on_support(grid: Grid, m: Point)
    requires
        m.valid(),
        m.y < CELLS_Y_MAX,
        grid[m.below()].occupied(),
        supported(grid, m.below()),
        forall|n: Point|
            n.valid() && #[trigger] lends_support(grid, n, m.below()) ==> sweep_rank(n)
                < sweep_rank(m),
    ensures
        rests(grid, m),
{
    lemma_supported_by_turn(grid, m.below(), CELL_COUNT as int);
    lemma_supported_by_turn(grid, m.below(), sweep_rank(m));
    let n = choose|n: Point|
        n.valid() && sweep_rank(n) < CELL_COUNT && #[trigger] lends_support(grid, n, m.below())
            && rests(grid, n);
    assert(lends_support(grid, n, m.below()));
}

impl Cell {
    /// The cell once it is held up as part of a group: supported, neither
    /// shaking nor falling.
    pub open spec fn held_up(self) -> Cell {
        Cell { grounded: true, shaking_frames: TIMER_OFF, falling_frames: TIMER_OFF, ..self }
    }
}

impl Game {
    /// Works out anew which cells are supported. All marks are wiped. Then
    /// the rows are swept from the bottom up, each from the left. A cell
    /// not yet marked that lies in the bottom row, or on a cell that holds
    /// something and is marked, is found resting. An air capsule found
    /// resting is marked. A block found resting marks every cell that
    /// carries its label and calls off their shaking and falling: a group
    /// is held up as one, whatever hangs from it.
    pub fn update_grounded(&mut self)
        ensures
            final(self)@ == (GameState { grid: propped(old(self)@.grid), ..old(self)@ }),
    {
        let ghost start = self@.grid;
        for y in CELLS_Y_MIN..CELLS_Y_LEN
            invariant
                start == old(self)@.grid,
                self@ == (GameState { grid: self@.grid, ..old(self)@ }),
                forall|q: Point| #[trigger]
                    q.valid() ==> self@.grid[q] == if q.y < y {
                        Cell { grounded: false, ..start[q] }
                    } else {
                        start[q]
                    },
        {
            for x in CELLS_X_MIN..CELLS_X_LEN
                invariant
                    CELLS_Y_MIN <= y < CELLS_Y_LEN,
                    start == old(self)@.grid,
                    self@ == (GameState { grid: self@.grid, ..old(self)@ }),
                    forall|q: Point| #[trigger]
                        q.valid() ==> self@.grid[q] == if q.y < y || (q.y == y && q.x < x) {
                            Cell { grounded: false, ..start[q] }
                        } else {
                            start[q]
                        },
            {
                let p = Point::new(x, y);
                self.cell_mut(p).grounded = false;
            }
        }
        assert forall|q: Point| #[trigger] q.valid() implies self@.grid[q] == cell_in_sweep(
            start,
            q,
            0,
        ) by {
            assert(!anchored_by_turn(start, q, 0));
        }

        let mut y = CELLS_Y_LEN;
        while y > CELLS_Y_MIN
            invariant
                CELLS_Y_MIN <= y <= CELLS_Y_LEN,
                start == old(self)@.grid,
                self@ == (GameState { grid: self@.grid, ..old(self)@ }),
                forall|q: Point| #[trigger]
                    q.valid() ==> self@.grid[q] == cell_in_sweep(
                        start,
                        q,
                        (CELLS_Y_LEN - y) * CELLS_X_LEN,
                    ),
            decreases y,
        {
            y -= 1;
            for x in CELLS_X_MIN..CELLS_X_LEN
                invariant
                    CELLS_Y_MIN <= y < CELLS_Y_LEN,
                    start == old(self)@.grid,
                    self@ == (GameState { grid: self@.grid, ..old(self)@ }),
                    forall|q: Point| #[trigger]
                        q.valid() ==> self@.grid[q] == cell_in_sweep(
                            start,
                            q,
                            (CELLS_Y_MAX - y) * CELLS_X_LEN + x,
                        ),
            {
                let p = Point::new(x, y);
                let ghost before = self@.grid;
                let ghost turns = sweep_rank(p);
                proof {
                    lemma_mark_is_support(start, p, turns);
                    if p.y < CELLS_Y_MAX {
                        assert(p.below().valid());
                        lemma_mark_is_support(start, p.below(), turns);
                    }
                }
                if self.cell(p).grounded == false {
                    let grounded = match self.neighbor(p, Direction::Down) {
                        None => true,
                        Some(down) => self.cell(down).cell_type != CellType::Empty && self.cell(
                            down,
                        ).grounded,
                    };
                    assert(grounded == rests(start, p));
                    if grounded {
                        match self.cell(p).cell_type {
                            CellType::Empty => {},
                            CellType::Air => self.cell_mut(p).grounded = true,
                            CellType::Block => {
                                let component = self.get_component(p);
                                proof {
                                    lemma_members(before, before[p].leader);
                                    assert forall|i: int|
                                        0 <= i < component@.len() implies (#[trigger] component@[i]).valid() by {
                                        assert(component@.contains(component@[i]));
                                    }
                                }
                                self.hold_up(&component);
                            },
                        };
                    }
                }
                assert forall|q: Point| #[trigger] q.valid() implies self@.grid[q]
                    == cell_in_sweep(start, q, turns + 1) by {
                    lemma_support_grows_by_turn(start, q, p);
                    lemma_support_grows_by_turn(start, p, p);
                    assert(before[q] == cell_in_sweep(start, q, turns));
                    assert(before[p] == cell_in_sweep(start, p, turns));
                    if before[p].grounded {
                        assert(self@.grid[q] == before[q]);
                        if anchors(start, p, q) && rests(start, p) {
                            assert(anchored_by_turn(start, p, turns));
                            let n = choose|n: Point|
                                n.valid() && sweep_rank(n) < turns && #[trigger] anchors(
                                    start,
                                    n,
                                    p,
                                ) && rests(start, n);
                            assert(anchors(start, n, q));
                        }
                        if q == p && start[p].cell_type == CellType::Air {
                            assert(anchored_by_turn(start, p, turns));
                        }
                    } else {
                        assert(!anchored_by_turn(start, p, turns));
                    }
                }
            }
        }
        assert(self@.grid =~= propped(start));
    }

    /// Marks every listed cell as held up.
    fn hold_up(&mut self, component: &Vec<Point>)
        requires
            forall|i: int| 0 <= i < component@.len() ==> (#[trigger] component@[i]).valid(),
        ensures
            final(self)@ == (GameState { grid: final(self)@.grid, ..old(self)@ }),
            forall|q: Point| #[trigger]
                q.valid() ==> final(self)@.grid[q] == if component@.contains(q) {
                    old(self)@.grid[q].held_up()
                } else {
                    old(self)@.grid[q]
                },
    {
        let mut i: usize = 0;
        while i < component.len()
            invariant
                0 <= i <= component@.len(),
                forall|i: int| 0 <= i < component@.len() ==> (#[trigger] component@[i]).valid(),
                self@ == (GameState { grid: self@.grid, ..old(self)@ }),
                forall|q: Point| #[trigger]
                    q.valid() ==> self@.grid[q] == if component@.take(i as int).contains(q) {
                        old(self)@.grid[q].held_up()
                    } else {
                        old(self)@.grid[q]
                    },
            decreases component@.len() - i,
        {
            let point = component[i];
            proof {
                lemma_take_one_more(component@, i as int);
            }
            self.cell_mut(point).grounded = true;
            self.cell_mut(point).shaking_frames = TIMER_OFF;
            self.cell_mut(point).falling_frames = TIMER_OFF;
            i += 1;
        }
        assert(component@.take(component@.len() as int) =~= component@);
    }
}

} // verus!
