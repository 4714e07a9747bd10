//! The player: where it stands, what it is doing and how much air it has.

use vstd::prelude::*;

use crate::geometry::{Direction, Point};
use crate::limits::clamp;
use crate::settings::{
    AIR_MAX, CELLS_X_LEN, CELLS_X_MAX, CELLS_X_MIN, CELLS_Y_MAX, FALL_FRAMES, WALK_FRAMES,
};

verus! {

#[derive(Debug, Clone, Copy, Eq, PartialEq, Structural)]
pub enum PlayerState {
    Standing,
    Walking,
    Falling,
}

pub struct Player {
    pub p: Point,
    pub air: i32,
    pub state: PlayerState,
    pub direction: Direction,
    pub walking_frames: i32,
    pub falling_frames: i32,
}

/// The number `value` kept within `min` and `max`.
pub open spec fn kept_within(min: int, value: int, max: int) -> int {
    if value < min {
        min
    } else if value > max {
        max
    } else {
        value
    }
}

/// An amount of air kept within the tank: between nothing and [`AIR_MAX`].
pub open spec fn kept_in_tank(air: int) -> int {
    kept_within(0, air, AIR_MAX as int)
}

impl Player {
    /// Adds `amount` to the air, or takes it away if it is negative. The air
    /// never leaves the tank: it stays between nothing and [`AIR_MAX`].
    pub fn add_air(&mut self, amount: i32)
        requires
            i32::MIN <= old(self).air + amount <= i32::MAX,
        ensures
            final(self).air == kept_in_tank(old(self).air + amount),
            final(self).p == old(self).p,
            final(self).state == old(self).state,
            final(self).direction == old(self).direction,
            final(self).walking_frames == old(self).walking_frames,
            final(self).falling_frames == old(self).falling_frames,
    {
        self.air = clamp(0, self.air + amount, AIR_MAX);
    }

    /// The player as a stage begins: standing in the middle column, just
    /// above the blocks, with a full tank.
    pub open spec fn start() -> Player {
        Player {
            p: Point { x: 4, y: 5 },
            air: AIR_MAX,
            state: PlayerState::Standing,
            direction: Direction::Left,
            walking_frames: 0,
            falling_frames: 0,
        }
    }

    pub fn new() -> (player: Player)
        ensures
            player == Self::start(),
            player.steady(),
    {
        let player = Player {
            p: Point::new(CELLS_X_LEN / 2, 5),
            air: AIR_MAX,
            direction: Direction::Left,
            walking_frames: 0,
            falling_frames: 0,
            state: PlayerState::Standing,
        };
        player
    }

    /// The player is on the grid, and the step that it is in the middle of
    /// ends on the grid: a fall has a row below to land on, a walk has a
    /// column to arrive in. The counter of the running animation can still
    /// be counted up.
    pub open spec fn on_course(self) -> bool {
        &&& self.p.valid()
        &&& self.state == PlayerState::Falling ==> self.p.y < CELLS_Y_MAX && self.falling_frames
            < i32::MAX
        &&& self.state == PlayerState::Walking ==> self.walking_frames < i32::MAX && if self.direction
            == Direction::Left {
            self.p.x > CELLS_X_MIN
        } else {
            self.p.x < CELLS_X_MAX
        }
    }

    /// The player is on course and its air is within the tank.
    pub open spec fn steady(self) -> bool {
        self.on_course() && 0 <= self.air <= AIR_MAX
    }

    /// Tells whether the player is steady.
    pub fn is_steady(&self) -> (steady: bool)
        ensures
            steady == self.steady(),
    {
        if !self.p.is_valid() || self.air < 0 || self.air > AIR_MAX {
            return false;
        }
        if self.state == PlayerState::Falling && !(self.p.y < CELLS_Y_MAX && self.falling_frames
            < i32::MAX) {
            return false;
        }
        if self.state == PlayerState::Walking {
            if self.walking_frames == i32::MAX {
                return false;
            }
            if self.direction == Direction::Left {
                return self.p.x > CELLS_X_MIN;
            } else {
                return self.p.x < CELLS_X_MAX;
            }
        }
        true
    }

    /// The player with a fall begun, if it stands and has no footing. Only
    /// a standing player starts to fall: a walk that has begun runs to its
    /// end, whatever lies beneath.
    pub open spec fn tipped(self, open_below: bool) -> Player {
        if open_below && self.state == PlayerState::Standing {
            Player { state: PlayerState::Falling, falling_frames: 0, ..self }
        } else {
            self
        }
    }

    /// This frame ends the player's fall by one row.
    pub open spec fn lands(self) -> bool {
        self.state == PlayerState::Falling && self.falling_frames + 1 >= FALL_FRAMES
    }

    /// The player after one frame of falling, if it falls: one frame further
    /// into the fall, or one row down and standing again.
    pub open spec fn dropped(self) -> Player {
        if self.lands() {
            Player { falling_frames: 0, p: self.p.below(), state: PlayerState::Standing, ..self }
        } else if self.state == PlayerState::Falling {
            Player { falling_frames: (self.falling_frames + 1) as i32, ..self }
        } else {
            self
        }
    }

    /// The column that a walk in the player's direction leads to: one to
    /// the left if the player faces left, else one to the right.
    pub open spec fn ahead(self) -> Point {
        if self.direction == Direction::Left {
            Point::at(self.p.x - 1, self.p.y as int)
        } else {
            Point::at(self.p.x + 1, self.p.y as int)
        }
    }

    /// The player after one frame of walking, if it walks: one frame
    /// further into the step, or arrived in the next column and standing.
    pub open spec fn paced(self) -> Player {
        if self.state != PlayerState::Walking {
            self
        } else if self.walking_frames + 1 >= WALK_FRAMES {
            Player {
                walking_frames: (self.walking_frames + 1) as i32,
                p: self.ahead(),
                state: PlayerState::Standing,
                ..self
            }
        } else {
            Player { walking_frames: (self.walking_frames + 1) as i32, ..self }
        }
    }

    /// The player after one frame of its animation, given whether the cell
    /// below it is open. A standing player without footing starts to fall;
    /// a falling player falls on; a walking one walks on, and finds out
    /// about its footing when it has arrived.
    pub open spec fn animated(self, open_below: bool) -> Player {
        self.tipped(open_below).dropped().paced()
    }
}

} // verus!
