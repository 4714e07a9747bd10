//! Digging: a hit on a block, and the command that leads to it.

use vstd::prelude::*;

use crate::cell::{BlockColor, Cell, CellType};
use crate::game::{Game, GameState};
use crate::geometry::{Direction, Point};
use crate::player::{kept_in_tank, Player, PlayerState};
use crate::settings::{
    AIR_MAX, BLOCK_LIFE_MAX, BROWN_AIR_PENALTY, BROWN_DIG_DAMAGE, CELLS_X_LEN, CELLS_X_MIN,
    CELLS_Y_LEN, CELLS_Y_MIN,
};

verus! {

impl Cell {
    /// The cell after one hit: a brown block loses [`BROWN_DIG_DAMAGE`] of
    /// its life, any other block loses all of it.
    pub open spec fn hit(self) -> Cell {
        Cell {
            block_life: if self.color == BlockColor::Brown {
                (self.block_life - BROWN_DIG_DAMAGE) as i32
            } else {
                0
            },
            ..self
        }
    }

    /// One more hit leaves the block no life.
    pub open spec fn breaks(self) -> bool {
        self.hit().block_life <= 0
    }
}

/// The game after a hit on the cell at `p`.
///
/// A clear block wins the stage: the game is marked as cleared, its sound is
/// asked for, and no cell changes. Any other block is hit. If it has life
/// left, that is all. If not, every cell that carries its label is emptied:
/// the whole group goes at once. When the block that broke was brown, the
/// player pays [`BROWN_AIR_PENALTY`] of air and the sound of it is asked
/// for.
pub open spec fn dug(state: GameState, p: Point) -> GameState {
    let target = state.grid[p];
    if target.color == BlockColor::Clear {
        GameState { is_clear: true, sounds: state.sounds.push("clear.wav"), ..state }
    } else if !target.breaks() {
        GameState { grid: state.grid.insert(p, target.hit()), ..state }
    } else {
        let brown = target.color == BlockColor::Brown;
        GameState {
            grid: Map::new(
                |q: Point| q.valid(),
                |q: Point|
                    if q == p {
                        target.hit().emptied()
                    } else if state.grid[q].leader == target.leader {
                        state.grid[q].emptied()
                    } else {
                        state.grid[q]
                    },
            ),
            player: if brown {
                Player {
                    air: kept_in_tank(state.player.air - BROWN_AIR_PENALTY) as i32,
                    ..state.player
                }
            } else {
                state.player
            },
            sounds: if brown {
                state.sounds.push("break_brown.wav")
            } else {
                state.sounds
            },
            ..state
        }
    }
}

/// The game after a command in the given direction.
///
/// A player that is walking or falling takes no command. For a standing
/// player the command aims at the neighbouring cell, if there is one. A
/// block there is dug. An open cell to the left or right is walked into:
/// the player turns that way and starts to walk. Up and down there is
/// nothing to do but dig.
pub open spec fn commanded(state: GameState, direction: Direction) -> GameState {
    if state.player.state != PlayerState::Standing {
        state
    } else {
        match state.player.p.neighbor(direction) {
            None => state,
            Some(target) => if state.grid[target].cell_type == CellType::Block {
                dug(state, target)
            } else if direction == Direction::Left || direction == Direction::Right {
                GameState {
                    player: Player {
                        state: PlayerState::Walking,
                        direction: direction,
                        walking_frames: 0,
                        ..state.player
                    },
                    ..state
                }
            } else {
                state
            },
        }
    }
}

/// Digging a clear block wins the stage and touches no cell, whatever the
/// state of the game.
pub proof fn lemma_clear_dig_wins(state: GameState, p: Point)
    requires
        state.grid[p].color == BlockColor::Clear,
    ensures
        dug(state, p).is_clear,
        dug(state, p).grid == state.grid,
        dug(state, p).player == state.player,
        dug(dug(state, p), p).grid == state.grid,
{
}

/// One hit breaks a block that is neither clear nor brown, and with it goes
/// every cell that carries its label: each of them is emptied, and no other
/// cell changes.
pub proof fn lemma_dig_takes_the_group(state: GameState, p: Point, q: Point)
    requires
        p.valid(),
        q.valid(),
        state.grid[p].color != BlockColor::Clear,
        state.grid[p].color != BlockColor::Brown,
    ensures
        state.grid[q].leader == state.grid[p].leader ==> dug(state, p).grid[q].cell_type
            == CellType::Empty,
        state.grid[q].leader != state.grid[p].leader ==> dug(state, p).grid[q] == state.grid[q],
        dug(state, p).player == state.player,
        dug(state, p).sounds == state.sounds,
{
}

/// The cell after the given number of hits.
pub open spec fn hit_times(cell: Cell, hits: nat) -> Cell
    decreases hits,
{
    if hits == 0 {
        cell
    } else {
        hit_times(cell, (hits - 1) as nat).hit()
    }
}

/// A brown block at full life stands three hits, each of which takes
/// [`BROWN_DIG_DAMAGE`] of its life, and breaks at the fourth.
pub proof fn lemma_brown_breaks_at_fourth_hit(cell: Cell, hits: nat)
    requires
        cell.color == BlockColor::Brown,
        cell.block_life == BLOCK_LIFE_MAX,
        hits <= 4,
    ensures
        hit_times(cell, hits).block_life == BLOCK_LIFE_MAX - hits * BROWN_DIG_DAMAGE,
        hit_times(cell, hits).color == BlockColor::Brown,
        hits < 3 ==> !hit_times(cell, hits).breaks(),
        hits == 3 ==> hit_times(cell, hits).breaks(),
        hits < 4 ==> hit_times(cell, hits).block_life > 0,
        hits == 4 ==> hit_times(cell, hits).block_life <= 0,
    decreases hits,
{
    if hits > 0 {
        lemma_brown_breaks_at_fourth_hit(cell, (hits - 1) as nat);
    }
}

/// When a brown block breaks, the player is left with air within the tank.
pub proof fn lemma_penalty_keeps_air_in_tank(state: GameState, p: Point)
    requires
        0 <= state.player.air <= AIR_MAX,
    ensures
        0 <= dug(state, p).player.air <= AIR_MAX,
        dug(state, p).player.air <= state.player.air,
{
}

impl Game {
    /// Hits the cell at `p`, which holds a block.
    pub fn dig(&mut self, p: Point)
        requires
            p.valid(),
            old(self)@.grid[p].block_life - BROWN_DIG_DAMAGE >= i32::MIN,
            old(self)@.player.air - BROWN_AIR_PENALTY >= i32::MIN,
        ensures
            final(self)@ == dug(old(self)@, p),
    {
        if self.cell(p).color == BlockColor::Clear {
            self.is_clear = true;
            self.requested_sounds.push("clear.wav");
            return ;
        }
        if self.cell(p).color == BlockColor::Brown {
            self.cell_mut(p).block_life -= BROWN_DIG_DAMAGE;
        } else {
            self.cell_mut(p).block_life = 0;
        }
        if self.cell(p).block_life > 0 {
            return ;
        }
        if self.cell(p).color == BlockColor::Brown {
            self.player.add_air(-BROWN_AIR_PENALTY);
            self.requested_sounds.push("break_brown.wav");
        }
        let ghost hit = self@;
        let leader = self.cell(p).leader;
        for y in CELLS_Y_MIN..CELLS_Y_LEN
            invariant
                p.valid(),
                leader == hit.grid[p].leader,
                self@ == (GameState { grid: self@.grid, ..hit }),
                forall|q: Point| #[trigger]
                    q.valid() ==> self@.grid[q] == if q.y < y && hit.grid[q].leader == leader {
                        hit.grid[q].emptied()
                    } else {
                        hit.grid[q]
                    },
        {
            for x in CELLS_X_MIN..CELLS_X_LEN
                invariant
                    p.valid(),
                    CELLS_Y_MIN <= y < CELLS_Y_LEN,
                    leader == hit.grid[p].leader,
                    self@ == (GameState { grid: self@.grid, ..hit }),
                    forall|q: Point| #[trigger]
                        q.valid() ==> self@.grid[q] == if (q.y < y || (q.y == y && q.x < x))
                            && hit.grid[q].leader == leader {
                            hit.grid[q].emptied()
                        } else {
                            hit.grid[q]
                        },
            {
                let xy = Point::new(x, y);
                if self.cell(xy).leader == leader {
                    self.cell_mut(xy).cell_type = CellType::Empty;
                }
            }
        }
        assert(self@ =~= dug(old(self)@, p));
    }

    /// Carries out a command in the given direction: the player digs the
    /// block next to it, or starts to walk into the open cell beside it.
    pub fn dig_or_walk(&mut self, direction: Direction)
        requires
            old(self)@.player.p.valid(),
            old(self)@.player.air - BROWN_AIR_PENALTY >= i32::MIN,
            old(self)@.player.p.neighbor(direction) matches Some(target) ==> old(
                self,
            )@.grid[target].cell_type == CellType::Block ==> old(self)@.grid[target].block_life
                - BROWN_DIG_DAMAGE >= i32::MIN,
        ensures
            final(self)@ == commanded(old(self)@, direction),
    {
        if self.player.state != PlayerState::Standing {
            return ;
        }
        match direction {
            Direction::Left | Direction::Right => {
                if let Some(p) = self.neighbor(self.player.p, direction) {
                    match self.cell(p).cell_type {
                        CellType::Empty | CellType::Air => {
                            self.player.state = PlayerState::Walking;
                            self.player.direction = direction;
                            self.player.walking_frames = 0;
                        },
                        CellType::Block => {
                            self.dig(p);
                        },
                    }
                }
            },
            Direction::Up | Direction::Down => {
                if let Some(p) = self.neighbor(self.player.p, direction) {
                    match self.cell(p).cell_type {
                        CellType::Block => self.dig(p),
                        _ => {},
                    }
                }
            },
        }
    }
}

} // verus!
