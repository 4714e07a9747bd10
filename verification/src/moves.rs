//! The player's animation: starting to fall, falling on, walking on.

use vstd::prelude::*;

use crate::board::Grid;
use crate::cell::CellType;
use crate::game::{Game, GameState};
use crate::geometry::{Direction, Point};
use crate::player::{Player, PlayerState};
use crate::settings::{CELLS_Y_MAX, FALL_FRAMES, WALK_FRAMES};

verus! {

/// There is a cell below `p`, and it holds no block: whoever stands at `p`
/// has no footing.
pub open spec fn no_footing(grid: Grid, p: Point) -> bool {
    p.y < CELLS_Y_MAX && grid[p.below()].cell_type != CellType::Block
}

/// The game after one frame of the player's animation. A fall that ends in
/// this frame adds a row to the depth.
pub open spec fn moved(state: GameState) -> GameState {
    let open_below = no_footing(state.grid, state.player.p);
    GameState {
        player: state.player.animated(open_below),
        depth: if state.player.tipped(open_below).lands() {
            (state.depth + 1) as i32
        } else {
            state.depth
        },
        ..state
    }
}

/// Only a standing player starts to fall. A player in the middle of a walk
/// walks on whatever lies beneath it: its counter goes up by one, and
/// neither its place nor the depth changes before the walk has run its
/// time. A standing player without footing is falling after the frame.
pub proof fn lemma_walk_runs_to_its_end(state: GameState)
    requires
        state.player.walking_frames < i32::MAX,
    ensures
        state.player.state == PlayerState::Walking ==> moved(state).player == state.player.paced()
            && moved(state).depth == state.depth,
        state.player.state == PlayerState::Walking && state.player.walking_frames + 1
            < WALK_FRAMES ==> moved(state).player == (Player {
            walking_frames: (state.player.walking_frames + 1) as i32,
            ..state.player
        }),
        state.player.state == PlayerState::Standing && no_footing(state.grid, state.player.p)
            ==> moved(state).player == (Player {
            state: PlayerState::Falling,
            falling_frames: 1,
            ..state.player
        }),
        state.player.state == PlayerState::Standing && !no_footing(state.grid, state.player.p)
            ==> moved(state) == state,
{
}

impl Game {
    /// Moves the player's animation on by one frame. A standing player
    /// without footing starts to fall; a falling player falls on and lands
    /// after [`FALL_FRAMES`] frames, one row down; a walking player walks on
    /// and arrives after [`WALK_FRAMES`] frames, one column on.
    pub fn player_move(&mut self)
        requires
            old(self)@.player.on_course(),
            old(self)@.depth < i32::MAX,
        ensures
            final(self)@ == moved(old(self)@),
            final(self)@.player.on_course(),
    {
        if let Some(down) = self.neighbor(self.player.p, Direction::Down) {
            if (self.cell(down).cell_type == CellType::Empty || self.cell(down).cell_type
                == CellType::Air) && self.player.state == PlayerState::Standing {
                self.player.state = PlayerState::Falling;
                self.player.falling_frames = 0;
            }
        }
        if self.player.state == PlayerState::Falling {
            self.player.falling_frames += 1;
            if self.player.falling_frames >= FALL_FRAMES {
                self.player.falling_frames = 0;
                self.player.p.y += 1;
                self.player.state = PlayerState::Standing;
                self.depth += 1;
            }
        }
        if self.player.state == PlayerState::Walking {
            self.player.walking_frames += 1;
            if self.player.walking_frames >= WALK_FRAMES {
                if self.player.direction == Direction::Left {
                    self.player.p.x -= 1;
                } else {
                    self.player.p.x += 1;
                }
                self.player.state = PlayerState::Standing;
            }
        }
        assert(self@ =~= moved(old(self)@));
    }
}

} // verus!
