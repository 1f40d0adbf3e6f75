//! The match: its phase, the score, and the hit-freeze countdown.

use crate::components::Field;
use crate::fixed::{clamp_i32, clamped};
use vstd::prelude::*;

verus! {

/// The phases of a match.
#[derive(Clone, Copy, Debug, PartialEq, Eq, PartialOrd, Ord, Structural)]
pub enum Phase {
    Start,
    Ongoing,
    LeftWin,
    RightWin,
}

impl Default for Phase {
    fn default() -> (phase: Self)
        ensures
            phase == Phase::Start,
    {
        Phase::Start
    }
}

/// The state of a match. `intensity` is the summed speed of the balls,
/// times four, as of the last collision pass. While `hitstun` is
/// positive the simulation stands still and only `hitstun` counts down.
#[derive(Clone, Copy, Debug, PartialEq, Eq)]
pub struct GameState {
    pub phase: Phase,
    pub left_score: i32,
    pub right_score: i32,
    pub intensity: i64,
    pub hitstun: i32,
}

/// `a + b`, held within the range of `i32`.
pub open spec fn bounded_sum(a: int, b: int) -> int {
    clamped(a + b, i32::MIN as int, i32::MAX as int)
}

/// The goal that a ball at horizontal position `x` has reached, as the
/// phase it ends the round with: past the right edge the left player
/// wins, past the left edge the right player.
pub open spec fn spec_goal(x: int, field: Field) -> Option<Phase> {
    if x > field.width {
        Some(Phase::LeftWin)
    } else if x < 0 {
        Some(Phase::RightWin)
    } else {
        None
    }
}

/// The goal that a ball at horizontal position `x` has reached, if any.
pub fn goal(x: i32, field: &Field) -> (side: Option<Phase>)
    ensures
        side == spec_goal(x as int, *field),
{
    if x > field.width {
        Some(Phase::LeftWin)
    } else if x < 0 {
        Some(Phase::RightWin)
    } else {
        None
    }
}

/// No position is a goal for both players, and a goal is always one of
/// the two winning phases.
pub proof fn lemma_goal_exclusive(x: int, field: Field)
    requires
        field.width >= 0,
    ensures
        !(x > field.width && x < 0),
        spec_goal(x, field) == Some(Phase::LeftWin) <==> x > field.width,
        spec_goal(x, field) == Some(Phase::RightWin) <==> x < 0,
        spec_goal(x, field) is None <==> 0 <= x <= field.width,
{
}

impl Default for GameState {
    fn default() -> (state: Self)
        ensures
            state == GameState::spec_new(),
    {
        GameState::new()
    }
}

impl GameState {
    /// The state of a match that waits for its first serve.
    pub open spec fn spec_new() -> GameState {
        GameState { phase: Phase::Start, left_score: 0, right_score: 0, intensity: 0, hitstun: 0 }
    }

    /// A match that waits for its first serve.
    pub fn new() -> (state: Self)
        ensures
            state == GameState::spec_new(),
    {
        GameState { phase: Phase::Start, left_score: 0, right_score: 0, intensity: 0, hitstun: 0 }
    }

    /// The state after a goal: the round ends with `side` and that
    /// player's score goes up by one. Nothing changes unless a round is
    /// being played and `side` is a winning phase.
    pub open spec fn spec_scored(self, side: Phase) -> GameState {
        if self.phase != Phase::Ongoing {
            self
        } else if side == Phase::LeftWin {
            GameState {
                phase: Phase::LeftWin,
                left_score: bounded_sum(self.left_score as int, 1) as i32,
                ..self
            }
        } else if side == Phase::RightWin {
            GameState {
                phase: Phase::RightWin,
                right_score: bounded_sum(self.right_score as int, 1) as i32,
                ..self
            }
        } else {
            self
        }
    }

    /// The state after `frames` more frames of hit-freeze were earned.
    pub open spec fn spec_stunned(self, frames: int) -> GameState {
        GameState { hitstun: bounded_sum(self.hitstun as int, frames) as i32, ..self }
    }

    /// Whether a start signal begins a round now: none is being played
    /// and no hit-freeze is running.
    pub open spec fn spec_can_serve(self) -> bool {
        self.hitstun <= 0 && self.phase != Phase::Ongoing
    }

    /// The horizontal direction of the next serve: toward the left after
    /// the right player has won, toward the right otherwise.
    pub open spec fn spec_serve_direction(self) -> int {
        if self.phase == Phase::RightWin {
            -1
        } else {
            1
        }
    }

    /// Whether the simulation stands still this frame.
    pub fn suspended(&self) -> (frozen: bool)
        ensures
            frozen == (self.hitstun > 0),
    {
        self.hitstun > 0
    }

    /// Counts one frame of hit-freeze down.
    pub fn cool_down(&mut self)
        requires
            old(self).hitstun > 0,
        ensures
            *final(self) == (GameState { hitstun: (old(self).hitstun - 1) as i32, ..*old(self) }),
    {
        self.hitstun = self.hitstun - 1;
    }

    /// Whether a start signal begins a round now.
    pub fn can_serve(&self) -> (ready: bool)
        ensures
            ready == self.spec_can_serve(),
    {
        self.hitstun <= 0 && !matches!(self.phase, Phase::Ongoing)
    }

    /// The horizontal direction of the next serve, `1` or `-1`.
    pub fn serve_direction(&self) -> (direction: i32)
        ensures
            direction == self.spec_serve_direction(),
    {
        if matches!(self.phase, Phase::RightWin) {
            -1
        } else {
            1
        }
    }

    /// Records a goal. The flag says whether it counted.
    pub fn score(&mut self, side: Phase) -> (counted: bool)
        ensures
            *final(self) == old(self).spec_scored(side),
            counted == (old(self).phase == Phase::Ongoing && (side == Phase::LeftWin || side
                == Phase::RightWin)),
            final(self).phase != old(self).phase ==> old(self).phase == Phase::Ongoing,
            final(self).left_score >= old(self).left_score,
            final(self).right_score >= old(self).right_score,
    {
        if !matches!(self.phase, Phase::Ongoing) {
            return false;
        }
        match side {
            Phase::LeftWin => {
                self.phase = Phase::LeftWin;
                self.left_score = clamp_i32(self.left_score as i128 + 1);
                true
            },
            Phase::RightWin => {
                self.phase = Phase::RightWin;
                self.right_score = clamp_i32(self.right_score as i128 + 1);
                true
            },
            _ => false,
        }
    }

    /// Adds `frames` frames of hit-freeze.
    pub fn stun(&mut self, frames: i32)
        ensures
            *final(self) == old(self).spec_stunned(frames as int),
    {
        self.hitstun = clamp_i32(self.hitstun as i128 + frames as i128);
    }

    /// Begins a round.
    pub fn begin_round(&mut self)
        ensures
            *final(self) == (GameState { phase: Phase::Ongoing, ..*old(self) }),
    {
        self.phase = Phase::Ongoing;
    }
}

} // verus!
