//! Laying out a stage: empty rows on top, a field of coloured blocks with a
//! few air capsules, and a floor of clear blocks.

use vstd::prelude::*;

use crate::board::{whole, Grid};
use crate::cell::{BlockColor, Cell, CellType};
use crate::dice::{draw_ratio, draw_u32, seeded};
use crate::game::{Game, GameState};
use crate::geometry::Point;
use crate::player::Player;
use crate::tick::playable;
use crate::settings::{
    AIR_SPAWN_INTERVAL, CELLS_X_LEN, CELLS_X_MIN, CELLS_Y_LEN, CELLS_Y_MAX, CLEAR_BLOCKS_HEIGHT,
    GRID_HEIGHT, GRID_WIDTH, UP_SPACE_HEIGHT,
};

verus! {

/// A cell that has never been touched but for what it holds and its colour.
pub open spec fn plain(cell_type: CellType, color: BlockColor) -> Cell {
    Cell { cell_type, color, ..Cell::blank() }
}

/// The first row of the floor.
pub open spec fn floor_top() -> int {
    CELLS_Y_LEN - CLEAR_BLOCKS_HEIGHT
}

/// The band of rows, counted from 0 at the top of the field, in which row
/// `y` lies. Every band gets one air capsule.
pub open spec fn air_band(y: int) -> int {
    (y - UP_SPACE_HEIGHT) / (AIR_SPAWN_INTERVAL as int)
}

/// The grid of a stage that has just been laid out, whatever the draws were:
/// blank rows on top; then a field in which every cell holds a block of an
/// ordinary colour or a brown one, or else an air capsule, with exactly one
/// capsule in every band of the field; then the floor of clear blocks.
pub open spec fn laid_out(grid: Grid) -> bool {
    &&& whole(grid)
    &&& forall|p: Point| #[trigger] p.valid() && p.y < UP_SPACE_HEIGHT ==> grid[p] == Cell::blank()
    &&& forall|p: Point| #[trigger]
        p.valid() && UP_SPACE_HEIGHT <= p.y < floor_top() ==> {
            &&& grid[p] == plain(grid[p].cell_type, grid[p].color)
            &&& grid[p].occupied()
            &&& grid[p].color != BlockColor::Clear
        }
    &&& forall|p: Point| #[trigger]
        p.valid() && floor_top() <= p.y ==> grid[p] == plain(CellType::Block, BlockColor::Clear)
    &&& one_capsule_per_band(grid, air_band(floor_top()))
}

/// Each of the first `bands` bands of the field holds exactly one capsule.
pub open spec fn one_capsule_per_band(grid: Grid, bands: int) -> bool {
    &&& forall|band: int| 0 <= band < bands ==> #[trigger] band_has_capsule(grid, band)
    &&& forall|p: Point, q: Point, band: int|
        band < bands && #[trigger] holds_capsule_of(grid, p, band) && #[trigger] holds_capsule_of(
            grid,
            q,
            band,
        ) ==> p == q
}

/// Some cell of the given band holds an air capsule.
pub open spec fn band_has_capsule(grid: Grid, band: int) -> bool {
    exists|p: Point| #[trigger] holds_capsule_of(grid, p, band)
}

/// `p` lies in the given band of the field and holds an air capsule.
pub open spec fn holds_capsule_of(grid: Grid, p: Point, band: int) -> bool {
    p.valid() && UP_SPACE_HEIGHT <= p.y && air_band(p.y as int) == band && grid[p].cell_type
        == CellType::Air
}

/// Where a capsule goes in the band that starts at row `depth`, for the two
/// numbers drawn: the column is the first number's remainder by the width of
/// the grid, the row lies below `depth` by the second number's remainder by
/// the height of a band.
pub open spec fn capsule_place(depth: int, column_draw: int, row_draw: int) -> Point {
    Point::at(column_draw % (CELLS_X_LEN as int), depth + row_draw % (AIR_SPAWN_INTERVAL as int))
}

/// The colour of a block of the field, for what was drawn: brown if the
/// draw for brown has hit, else the ordinary colour that the number drawn
/// picks by its remainder.
pub fn field_color(brown: bool, draw: u32) -> (color: BlockColor)
    ensures
        color == if brown {
            BlockColor::Brown
        } else {
            BlockColor::ordinary(draw as int % 4)
        },
{
    if brown {
        BlockColor::Brown
    } else {
        BlockColor::from_u32(draw)
    }
}

impl Game {
    /// A new game on a freshly laid out stage. The stage is drawn from a
    /// generator started with `seed`.
    pub fn new(seed: u64) -> (game: Game)
        ensures
            laid_out(game@.grid),
            game@.player == Player::start(),
            !game@.is_debug,
            !game@.is_over,
            !game@.is_clear,
            game@.frame == -1,
            game@.sounds == Seq::<&'static str>::empty(),
            game@.camera_y == 0,
            game@.depth == 0,
            playable(game@),
    {
        let rng = seeded(seed);
        let mut game = Game {
            rng: rng,
            is_debug: false,
            is_over: false,
            is_clear: false,
            frame: -1,
            player: Player::new(),
            requested_sounds: Vec::new(),
            cells: [[Cell::new(); GRID_WIDTH]; GRID_HEIGHT],
            camera_y: 0,
            depth: 0,
        };
        assert forall|p: Point| #[trigger] p.valid() implies game@.grid[p] == Cell::blank() by {
            assert(game.cells[p.y as int][p.x as int] == Cell::blank());
        }
        game.fill_field();
        game.scatter_air();
        let ghost scattered = game@.grid;
        game.lay_floor();
        proof {
            let bands = air_band(floor_top());
            assert forall|band: int| 0 <= band < bands implies #[trigger] band_has_capsule(
                game@.grid,
                band,
            ) by {
                assert(band_has_capsule(scattered, band));
                let p = choose|p: Point| #[trigger] holds_capsule_of(scattered, p, band);
                assert(holds_capsule_of(game@.grid, p, band));
            }
            assert forall|p: Point, q: Point, band: int|
                band < bands && #[trigger] holds_capsule_of(game@.grid, p, band)
                    && #[trigger] holds_capsule_of(game@.grid, q, band) implies p == q by {
                assert(holds_capsule_of(scattered, p, band));
                assert(holds_capsule_of(scattered, q, band));
            }
        }
        game
    }

    /// A new game on a fresh stage that carries the depth reached so far.
    pub fn next_stage(&self, seed: u64) -> (game: Game)
        ensures
            laid_out(game@.grid),
            game@.player == Player::start(),
            !game@.is_debug,
            !game@.is_over,
            !game@.is_clear,
            game@.frame == -1,
            game@.sounds == Seq::<&'static str>::empty(),
            game@.camera_y == 0,
            game@.depth == self@.depth,
            playable(game@),
    {
        let mut game = Game::new(seed);
        game.depth = self.depth;
        game
    }

    /// Fills every row below the top margin with blocks: each brown with a
    /// chance of one in twenty, else of an ordinary colour drawn evenly.
    fn fill_field(&mut self)
        requires
            forall|p: Point| #[trigger] p.valid() ==> old(self)@.grid[p] == Cell::blank(),
        ensures
            final(self)@ == (GameState { grid: final(self)@.grid, ..old(self)@ }),
            forall|p: Point| #[trigger]
                p.valid() ==> final(self)@.grid[p] == if p.y < UP_SPACE_HEIGHT {
                    Cell::blank()
                } else {
                    plain(CellType::Block, final(self)@.grid[p].color)
                },
            forall|p: Point| #[trigger]
                p.valid() && p.y >= UP_SPACE_HEIGHT ==> final(self)@.grid[p].color
                    != BlockColor::Clear,
    {
        for y in UP_SPACE_HEIGHT..CELLS_Y_LEN
            invariant
                self@ == (GameState { grid: self@.grid, ..old(self)@ }),
                forall|p: Point| #[trigger]
                    p.valid() ==> self@.grid[p] == if p.y < UP_SPACE_HEIGHT || p.y >= y {
                        Cell::blank()
                    } else {
                        plain(CellType::Block, self@.grid[p].color)
                    },
                forall|p: Point| #[trigger]
                    p.valid() && UP_SPACE_HEIGHT <= p.y < y ==> self@.grid[p].color
                        != BlockColor::Clear,
        {
            for x in CELLS_X_MIN..CELLS_X_LEN
                invariant
                    UP_SPACE_HEIGHT <= y < CELLS_Y_LEN,
                    self@ == (GameState { grid: self@.grid, ..old(self)@ }),
                    forall|p: Point| #[trigger]
                        p.valid() ==> self@.grid[p] == if p.y < UP_SPACE_HEIGHT || p.y > y || (p.y
                            == y && p.x >= x) {
                            Cell::blank()
                        } else {
                            plain(CellType::Block, self@.grid[p].color)
                        },
                    forall|p: Point| #[trigger]
                        p.valid() && (UP_SPACE_HEIGHT <= p.y < y || (p.y == y && p.x < x))
                            ==> self@.grid[p].color != BlockColor::Clear,
            {
                let p = Point::new(x, y);
                let brown = draw_ratio(&mut self.rng, 1, 20);
                // A number is drawn only for a block that is not brown.
                let draw: u32 = if brown {
                    0
                } else {
                    draw_u32(&mut self.rng)
                };
                let color = field_color(brown, draw);
                self.cell_mut(p).cell_type = CellType::Block;
                self.cell_mut(p).color = color;
            }
        }
    }

    /// Puts one air capsule into every band of rows, at a place drawn at
    /// random within the band.
    fn scatter_air(&mut self)
        requires
            forall|p: Point| #[trigger]
                p.valid() ==> old(self)@.grid[p] == if p.y < UP_SPACE_HEIGHT {
                    Cell::blank()
                } else {
                    plain(CellType::Block, old(self)@.grid[p].color)
                },
        ensures
            final(self)@ == (GameState { grid: final(self)@.grid, ..old(self)@ }),
            forall|p: Point| #[trigger]
                p.valid() ==> final(self)@.grid[p] == if p.y < UP_SPACE_HEIGHT {
                    Cell::blank()
                } else {
                    plain(final(self)@.grid[p].cell_type, old(self)@.grid[p].color)
                },
            forall|p: Point| #[trigger]
                p.valid() && p.y >= UP_SPACE_HEIGHT ==> final(self)@.grid[p].occupied(),
            one_capsule_per_band(final(self)@.grid, air_band(floor_top())),
    {
        let mut depth = UP_SPACE_HEIGHT;
        while depth < CELLS_Y_LEN
            invariant
                UP_SPACE_HEIGHT <= depth < CELLS_Y_LEN + AIR_SPAWN_INTERVAL,
                (depth - UP_SPACE_HEIGHT) % (AIR_SPAWN_INTERVAL as int) == 0,
                self@ == (GameState { grid: self@.grid, ..old(self)@ }),
                forall|p: Point| #[trigger]
                    p.valid() ==> self@.grid[p] == if p.y < UP_SPACE_HEIGHT {
                        Cell::blank()
                    } else {
                        plain(self@.grid[p].cell_type, old(self)@.grid[p].color)
                    },
                forall|p: Point| #[trigger]
                    p.valid() && p.y >= UP_SPACE_HEIGHT ==> self@.grid[p].occupied(),
                forall|p: Point| #[trigger]
                    p.valid() && p.y >= depth ==> self@.grid[p].cell_type == CellType::Block,
                one_capsule_per_band(
                    self@.grid,
                    if depth < floor_top() {
                        air_band(depth as int)
                    } else {
                        air_band(floor_top())
                    },
                ),
            decreases CELLS_Y_LEN + AIR_SPAWN_INTERVAL - depth,
        {
            let ghost before = self@.grid;
            let column_draw = draw_u32(&mut self.rng);
            let row_draw = draw_u32(&mut self.rng);
            self.place_air(depth, column_draw, row_draw);
            proof {
                let place = capsule_place(depth as int, column_draw as int, row_draw as int);
                let here = air_band(depth as int);
                if depth < floor_top() {
                    assert(air_band(place.y as int) == here);
                    assert(holds_capsule_of(self@.grid, place, here));
                }
                assert forall|band: int| 0 <= band < here implies #[trigger] band_has_capsule(
                    self@.grid,
                    band,
                ) by {
                    assert(band_has_capsule(before, band));
                    let p = choose|p: Point| #[trigger] holds_capsule_of(before, p, band);
                    assert(holds_capsule_of(self@.grid, p, band));
                }
                assert forall|p: Point, q: Point, band: int|
                    band < here + 1 && band < air_band(floor_top()) && #[trigger] holds_capsule_of(
                        self@.grid,
                        p,
                        band,
                    ) && #[trigger] holds_capsule_of(self@.grid, q, band) implies p == q by {
                    if band < here {
                        assert(holds_capsule_of(before, p, band));
                        assert(holds_capsule_of(before, q, band));
                    }
                }
            }
            depth += AIR_SPAWN_INTERVAL;
        }
    }

    /// Puts an air capsule where the two draws send it within the band of
    /// rows that starts at `depth`, unless that place lies below the grid.
    pub fn place_air(&mut self, depth: i32, column_draw: u32, row_draw: u32)
        requires
            0 <= depth,
        ensures
            ({
                let place = capsule_place(depth as int, column_draw as int, row_draw as int);
                final(self)@ == if depth + row_draw % (AIR_SPAWN_INTERVAL as u32) < CELLS_Y_LEN {
                    GameState {
                        grid: old(self)@.grid.insert(
                            place,
                            Cell { cell_type: CellType::Air, ..old(self)@.grid[place] },
                        ),
                        ..old(self)@
                    }
                } else {
                    old(self)@
                }
            }),
    {
        let x = column_draw % (CELLS_X_LEN as u32);
        let y = depth as u32 + row_draw % (AIR_SPAWN_INTERVAL as u32);
        if y < CELLS_Y_LEN as u32 {
            let p = Point::new(x as i32, y as i32);
            self.cell_mut(p).cell_type = CellType::Air;
        }
    }

    /// Turns the bottom rows into the floor of clear blocks.
    fn lay_floor(&mut self)
        ensures
            final(self)@ == (GameState { grid: final(self)@.grid, ..old(self)@ }),
            forall|p: Point| #[trigger]
                p.valid() ==> final(self)@.grid[p] == if p.y < floor_top() {
                    old(self)@.grid[p]
                } else {
                    Cell {
                        cell_type: CellType::Block,
                        color: BlockColor::Clear,
                        ..old(self)@.grid[p]
                    }
                },
    {
        for y in 0..CLEAR_BLOCKS_HEIGHT
            invariant
                self@ == (GameState { grid: self@.grid, ..old(self)@ }),
                forall|p: Point| #[trigger]
                    p.valid() ==> self@.grid[p] == if p.y <= CELLS_Y_MAX - y {
                        old(self)@.grid[p]
                    } else {
                        Cell {
                            cell_type: CellType::Block,
                            color: BlockColor::Clear,
                            ..old(self)@.grid[p]
                        }
                    },
        {
            for x in CELLS_X_MIN..CELLS_X_LEN
                invariant
                    0 <= y < CLEAR_BLOCKS_HEIGHT,
                    self@ == (GameState { grid: self@.grid, ..old(self)@ }),
                    forall|p: Point| #[trigger]
                        p.valid() ==> self@.grid[p] == if p.y < CELLS_Y_MAX - y || (p.y
                            == CELLS_Y_MAX - y && p.x >= x) {
                            old(self)@.grid[p]
                        } else {
                            Cell {
                                cell_type: CellType::Block,
                                color: BlockColor::Clear,
                                ..old(self)@.grid[p]
                            }
                        },
            {
                let p = Point::new(x, CELLS_Y_MAX - y);
                self.cell_mut(p).cell_type = CellType::Block;
                self.cell_mut(p).color = BlockColor::Clear;
            }
        }
    }
}

} // verus!
