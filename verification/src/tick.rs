//! One frame of the game.

use vstd::prelude::*;

use crate::board::Grid;
use crate::cascade::{cascaded, vanishes};
use crate::cell::CellType;
use crate::digging::commanded;
use crate::game::{Game, GameState};
use crate::geometry::{Command, Direction, Point};
use crate::gravity::{fallen, floor_settled};
use crate::labels::labeled;
use crate::moves::moved;
use crate::player::{kept_in_tank, Player};
use crate::settings::{
    AIR_MAX, AIR_REFILL, BLOCK_LIFE_MAX, CELLS_X_LEN, CELLS_X_MIN, CELLS_Y_LEN, CELLS_Y_MAX,
    CELLS_Y_MIN,
};
use crate::support::{lemma_floor_is_held, propped};

verus! {

/// Every block has a life between nothing and [`BLOCK_LIFE_MAX`].
pub open spec fn lives_in_range(grid: Grid) -> bool {
    forall|q: Point| #[trigger]
        q.valid() && grid[q].cell_type == CellType::Block ==> 0 <= grid[q].block_life
            <= BLOCK_LIFE_MAX
}

/// The game is fit for a frame: the player is steady, no cell of the bottom
/// row is due to fall, and every block's life is in range.
pub open spec fn playable(state: GameState) -> bool {
    state.player.steady() && floor_settled(state.grid) && lives_in_range(state.grid)
}

/// The game after the player has picked up what lies in its cell: an air
/// capsule there is used up, the air rises by [`AIR_REFILL`] as far as the
/// tank holds, and the sound of it is asked for.
pub open spec fn refilled(state: GameState) -> GameState {
    let here = state.player.p;
    if state.grid[here].cell_type == CellType::Air {
        GameState {
            grid: state.grid.insert(here, state.grid[here].emptied()),
            player: Player {
                air: kept_in_tank(state.player.air + AIR_REFILL) as i32,
                ..state.player
            },
            sounds: state.sounds.push("shrink.wav"),
            ..state
        }
    } else {
        state
    }
}

/// The game after the player has used one unit of air. With none left the
/// game is over, and the sound of the crash is asked for.
pub open spec fn breathed(state: GameState) -> GameState {
    let air = state.player.air - 1;
    GameState {
        player: Player { air: air as i32, ..state.player },
        is_over: state.is_over || air <= 0,
        sounds: if air <= 0 {
            state.sounds.push("crash.wav")
        } else {
            state.sounds
        },
        ..state
    }
}

/// The game after a look at the player's cell: with a block in it the
/// player is crushed, the game is over, and the sound of the crash is asked
/// for.
pub open spec fn crushed(state: GameState) -> GameState {
    if state.grid[state.player.p].cell_type == CellType::Block {
        GameState { is_over: true, sounds: state.sounds.push("crash.wav"), ..state }
    } else {
        state
    }
}

/// The game with the camera five rows above the player.
pub open spec fn framed(state: GameState) -> GameState {
    GameState { camera_y: (state.player.p.y - 5) as i32, ..state }
}

/// The game after the end of a frame: capsule, air, crushing, camera.
pub open spec fn closed(state: GameState) -> GameState {
    framed(crushed(breathed(refilled(state))))
}

/// The game after the passes that come before the command: the player's
/// animation, gravity, the labels, the cascade.
pub open spec fn settled(state: GameState) -> GameState {
    let stepped = moved(state);
    GameState { grid: cascaded(labeled(fallen(stepped.grid))), ..stepped }
}

/// The game after the command of the frame, if there is one.
pub open spec fn steered(state: GameState, command: Command) -> GameState {
    if command == Command::Idle {
        state
    } else {
        commanded(state, Direction::of_command(command))
    }
}

/// The game one frame on.
///
/// The frame is counted in any case. A game that is over or cleared is not
/// touched otherwise. Else the player's animation moves on, gravity makes
/// its pass, the labels are worked out, the cascade erases what has landed
/// in a large group, and the command is carried out. If that has cleared
/// the stage the frame ends there. Else support is worked out and the frame
/// is closed: capsule, air, crushing, camera.
pub open spec fn ticked(state: GameState, command: Command) -> GameState {
    let counted = GameState { frame: (state.frame + 1) as i32, ..state };
    if state.is_over || state.is_clear {
        counted
    } else {
        let after_command = steered(settled(counted), command);
        if after_command.is_clear {
            after_command
        } else {
            closed(GameState { grid: propped(after_command.grid), ..after_command })
        }
    }
}

impl Game {
    /// Plays one frame with the given command.
    pub fn update(&mut self, command: Command)
        requires
            old(self)@.frame < i32::MAX,
            !old(self)@.is_over && !old(self)@.is_clear ==> playable(old(self)@) && old(
                self,
            )@.depth < i32::MAX,
        ensures
            final(self)@ == ticked(old(self)@, command),
            !final(self)@.is_over && !final(self)@.is_clear ==> playable(final(self)@),
    {
        self.frame += 1;
        if self.is_over || self.is_clear {
            return ;
        }
        let ghost counted = self@;
        proof {
            lemma_frame_stays_playable(old(self)@, command);
            lemma_command_is_safe(counted, command);
        }
        self.player_move();
        self.fall_ungrounded_blocks();
        self.set_leaders();
        self.erase_connected_blocks();
        assert(self@ == settled(counted));
        match command {
            Command::Left | Command::Right | Command::Up | Command::Down => {
                proof {
                    if let Some(target) = self@.player.p.neighbor(Direction::of_command(command)) {
                        assert(target.valid());
                    }
                }
                self.dig_or_walk(Direction::from_command(command));
                if self.is_clear {
                    return ;
                }
            },
            Command::Idle => {},
        }
        assert(self@ == steered(settled(counted), command));
        self.update_grounded();
        self.close_frame();
    }

    /// Tells whether the game is fit for [`Game::update`]: the frame can
    /// still be counted, and a game that goes on is playable and can still
    /// count a row of depth.
    pub fn can_update(&self) -> (fit: bool)
        ensures
            fit == (self@.frame < i32::MAX && (!self@.is_over && !self@.is_clear ==> playable(
                self@,
            ) && self@.depth < i32::MAX)),
    {
        if self.frame == i32::MAX {
            return false;
        }
        if self.is_over || self.is_clear {
            return true;
        }
        if self.depth == i32::MAX || !self.player.is_steady() {
            return false;
        }
        for y in CELLS_Y_MIN..CELLS_Y_LEN
            invariant
                self@.frame < i32::MAX,
                !self@.is_over,
                !self@.is_clear,
                self@.depth < i32::MAX,
                self@.player.steady(),
                forall|q: Point| #[trigger]
                    q.valid() && q.y < y ==> {
                        &&& q.y == CELLS_Y_MAX ==> !self@.grid[q].due_to_fall()
                        &&& self@.grid[q].cell_type == CellType::Block ==> 0
                            <= self@.grid[q].block_life <= BLOCK_LIFE_MAX
                    },
        {
            for x in CELLS_X_MIN..CELLS_X_LEN
                invariant
                    CELLS_Y_MIN <= y < CELLS_Y_LEN,
                    self@.frame < i32::MAX,
                    !self@.is_over,
                    !self@.is_clear,
                    self@.depth < i32::MAX,
                    self@.player.steady(),
                    forall|q: Point| #[trigger]
                        q.valid() && (q.y < y || (q.y == y && q.x < x)) ==> {
                            &&& q.y == CELLS_Y_MAX ==> !self@.grid[q].due_to_fall()
                            &&& self@.grid[q].cell_type == CellType::Block ==> 0
                                <= self@.grid[q].block_life <= BLOCK_LIFE_MAX
                        },
            {
                let q = Point::new(x, y);
                let cell = self.cell(q);
                if y == CELLS_Y_MAX && cell.is_due_to_fall() {
                    assert(q.valid() && !floor_settled(self@.grid));
                    return false;
                }
                if cell.cell_type == CellType::Block && (cell.block_life < 0 || cell.block_life
                    > BLOCK_LIFE_MAX) {
                    assert(q.valid() && !lives_in_range(self@.grid));
                    return false;
                }
            }
        }
        true
    }

    /// Ends the frame. The player picks up the air capsule in its cell, if
    /// there is one; a unit of air is used; without air, or with a block in
    /// the player's cell, the game is over; the camera follows the player.
    pub fn close_frame(&mut self)
        requires
            old(self)@.player.p.valid(),
            0 <= old(self)@.player.air <= AIR_MAX,
        ensures
            final(self)@ == closed(old(self)@),
    {
        let here = self.player.p;
        if self.cell(here).cell_type == CellType::Air {
            self.cell_mut(here).cell_type = CellType::Empty;
            self.player.add_air(AIR_REFILL);
            self.requested_sounds.push("shrink.wav");
        }
        self.player.air -= 1;
        if self.player.air <= 0 {
            self.is_over = true;
            self.requested_sounds.push("crash.wav");
        }
        if self.cell(here).cell_type == CellType::Block {
            self.is_over = true;
            self.requested_sounds.push("crash.wav");
        }
        self.camera_y = self.player.p.y - 5;
        assert(self@ =~= closed(old(self)@));
    }
}

/// Before the command of a frame is carried out, the game is fit for it:
/// the player is on the grid, whatever it aims at has a life in range if it
/// is a block, and the air is within the tank. After the command the player
/// is still on course with its air within the tank.
pub proof fn lemma_command_is_safe(counted: GameState, command: Command)
    requires
        playable(counted),
        counted.depth < i32::MAX,
    ensures
        ({
            let before = settled(counted);
            let after = steered(before, command);
            &&& before.player.on_course()
            &&& 0 <= before.player.air <= AIR_MAX
            &&& lives_in_range(before.grid)
            &&& after.player.on_course()
            &&& 0 <= after.player.air <= AIR_MAX
            &&& lives_in_range(after.grid)
        }),
{
    let stepped = moved(counted);
    lemma_fall_keeps_lives(counted.grid);
    let dropped = fallen(counted.grid);
    assert(lives_in_range(labeled(dropped)));
    assert(lives_in_range(cascaded(labeled(dropped))));
    let before = settled(counted);
    assert(before.player == stepped.player);
    if command != Command::Idle {
        let direction = Direction::of_command(command);
        if let Some(target) = before.player.p.neighbor(direction) {
            assert(target.valid());
        }
    }
}

/// A frame leaves a game that goes on fit for the next frame.
pub proof fn lemma_frame_stays_playable(state: GameState, command: Command)
    requires
        !state.is_over,
        !state.is_clear,
        playable(state),
        state.frame < i32::MAX,
        state.depth < i32::MAX,
    ensures
        !ticked(state, command).is_over && !ticked(state, command).is_clear ==> playable(
            ticked(state, command),
        ),
{
    let counted = GameState { frame: (state.frame + 1) as i32, ..state };
    lemma_command_is_safe(counted, command);
    let after = steered(settled(counted), command);
    if !after.is_clear {
        let held = GameState { grid: propped(after.grid), ..after };
        assert(lives_in_range(held.grid));
        assert forall|q: Point| #[trigger] q.valid() && q.y == CELLS_Y_MAX implies !held.grid[q].due_to_fall() by {
            if after.grid[q].occupied() {
                lemma_floor_is_held(after.grid, q);
            }
        }
        let last = closed(held);
        assert(last == ticked(state, command));
        if !last.is_over {
            assert(floor_settled(last.grid));
            assert(lives_in_range(last.grid));
        }
    }
}

/// The air stays within bounds. Picking up a capsule leaves the air within
/// the tank. The end of a frame takes one unit, so that the air ends no
/// lower than one below nothing; and a game whose air has run out is over.
pub proof fn lemma_air_stays_in_bounds(state: GameState)
    requires
        0 <= state.player.air <= AIR_MAX,
    ensures
        0 <= refilled(state).player.air <= AIR_MAX,
        refilled(state).player.air >= state.player.air,
        closed(state).player.air == refilled(state).player.air - 1,
        -1 <= closed(state).player.air < AIR_MAX,
        closed(state).player.air <= 0 ==> closed(state).is_over,
{
}

/// A game that is over stays as it is: further frames count themselves and
/// change nothing else, whatever the command. The same holds of a game that
/// is cleared.
pub proof fn lemma_ended_game_only_counts(state: GameState, command: Command)
    requires
        state.is_over || state.is_clear,
    ensures
        ticked(state, command) == (GameState { frame: (state.frame + 1) as i32, ..state }),
        ticked(state, command).is_over == state.is_over,
        ticked(state, command).sounds == state.sounds,
        ticked(state, command).player == state.player,
{
}

/// What has landed in a large group is gone before support is worked out:
/// in a frame that goes on to its end, support is worked out on a grid in
/// which the cascade has emptied every cell that vanishes.
pub proof fn lemma_cascade_comes_before_support(state: GameState, q: Point)
    requires
        q.valid(),
    ensures
        ({
            let labels = labeled(fallen(moved(state).grid));
            vanishes(labels, q) ==> settled(state).grid[q].cell_type == CellType::Empty
        }),
{
}

/// A gravity pass keeps every block's life in range.
pub proof fn lemma_fall_keeps_lives(grid: Grid)
    requires
        lives_in_range(grid),
    ensures
        lives_in_range(fallen(grid)),
{
    assert forall|q: Point| #[trigger]
        q.valid() && fallen(grid)[q].cell_type == CellType::Block implies 0 <= fallen(
        grid,
    )[q].block_life <= BLOCK_LIFE_MAX by {
        if q.y > 0 {
            assert(q.above().valid());
        }
    }
}

} // verus!
