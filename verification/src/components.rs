//! The plain data attached to entities.

use vstd::prelude::*;

verus! {

/// Largest magnitude of a position coordinate of a stored entity.
pub const POSITION_MAX: i32 = 1_000_000_000;

/// Largest half-height or half-width of a capsule.
pub const EXTENT_MAX: i32 = 10_000_000;

/// Position and per-substep velocity, in raw units.
#[derive(Clone, Copy, Debug, Default, PartialEq, Eq)]
pub struct Transform {
    pub position: (i32, i32),
    pub velocity: (i32, i32),
}

/// A vertical capsule centred on its owner's position: `(half_width,
/// half_height)`. The half-width is the capsule's radius, the half-height
/// is the distance from the centre to either end of its core segment.
#[derive(Clone, Copy, Debug, Default, PartialEq, Eq)]
pub struct Bounds(pub i32, pub i32);

/// The four direction bindings of a human player, as key codes.
#[derive(Clone, Copy, Debug, Default, PartialEq, Eq)]
pub struct Controls {
    pub up: u32,
    pub left: u32,
    pub down: u32,
    pub right: u32,
}

/// Who steers a paddle. The number is a timestamp in milliseconds: for a
/// player the earliest time of the next shot, for the computer a timer
/// that nothing reads.
#[derive(Clone, Copy, Debug, PartialEq, Eq)]
pub enum ControlType {
    AI(i64),
    Player(Controls, i64),
}

/// The ball: its radius and the length its velocity is pinned to after
/// each bounce.
#[derive(Clone, Copy, Debug, Default, PartialEq, Eq)]
pub struct Ball {
    pub radius: i32,
    pub speed: i32,
}

/// A projectile.
#[derive(Clone, Copy, Debug, Default, PartialEq, Eq)]
pub struct Bullet {
    pub radius: i32,
}

/// The playing field's size in raw units.
#[derive(Clone, Copy, Debug, PartialEq, Eq)]
pub struct Field {
    pub width: i32,
    pub height: i32,
}

/// A paddle as the passes of a frame see it: a copy of its components.
/// `id` names the stored entity that the copy was taken from.
#[derive(Clone, Copy, Debug, PartialEq, Eq)]
pub struct PaddleEntry {
    pub id: Option<u64>,
    pub transform: Transform,
    pub bounds: Bounds,
    pub control: ControlType,
}

/// A ball as the passes of a frame see it. `id` is `None` for a ball
/// that was served in this frame; `alive` turns false when the ball
/// scores a goal.
#[derive(Clone, Copy, Debug, PartialEq, Eq)]
pub struct BallEntry {
    pub id: Option<u64>,
    pub alive: bool,
    pub transform: Transform,
    pub ball: Ball,
}

/// A bullet as the passes of a frame see it. `id` is `None` for a bullet
/// that was fired in this frame; `alive` turns false when the bullet
/// hits something.
#[derive(Clone, Copy, Debug, PartialEq, Eq)]
pub struct BulletEntry {
    pub id: Option<u64>,
    pub alive: bool,
    pub transform: Transform,
    pub bullet: Bullet,
}

/// What happened in a frame that a listener may want to play a sound
/// for.
#[derive(Clone, Copy, Debug, PartialEq, Eq, Structural)]
pub enum Event {
    BulletFired,
    BulletHitBall,
    BulletHitPaddle,
    BallHitWall,
    BallHitPaddle,
    Goal,
}

impl PaddleEntry {
    /// Both components that carry a range are valid.
    pub open spec fn valid(self) -> bool {
        self.transform.valid() && self.bounds.valid()
    }
}

impl BallEntry {
    /// Both components are valid.
    pub open spec fn valid(self) -> bool {
        self.transform.valid() && self.ball.valid()
    }
}

impl BulletEntry {
    /// Both components are valid.
    pub open spec fn valid(self) -> bool {
        self.transform.valid() && self.bullet.valid()
    }
}

impl Transform {
    /// The position lies within `POSITION_MAX` of the origin on both axes.
    pub open spec fn valid(self) -> bool {
        &&& -POSITION_MAX <= self.position.0 <= POSITION_MAX
        &&& -POSITION_MAX <= self.position.1 <= POSITION_MAX
    }

    /// Whether `valid` holds.
    pub fn is_valid(&self) -> (ok: bool)
        ensures
            ok == self.valid(),
    {
        -POSITION_MAX <= self.position.0 && self.position.0 <= POSITION_MAX
            && -POSITION_MAX <= self.position.1 && self.position.1 <= POSITION_MAX
    }
}

impl Bounds {
    /// Both extents lie between zero and `EXTENT_MAX`.
    pub open spec fn valid(self) -> bool {
        &&& 0 <= self.0 <= EXTENT_MAX
        &&& 0 <= self.1 <= EXTENT_MAX
    }

    /// Whether `valid` holds.
    pub fn is_valid(&self) -> (ok: bool)
        ensures
            ok == self.valid(),
    {
        0 <= self.0 && self.0 <= EXTENT_MAX && 0 <= self.1 && self.1 <= EXTENT_MAX
    }
}

impl Ball {
    /// The speed is positive and the radius is a capsule-sized length.
    pub open spec fn valid(self) -> bool {
        &&& 0 <= self.radius <= EXTENT_MAX
        &&& self.speed > 0
    }

    /// Whether `valid` holds.
    pub fn is_valid(&self) -> (ok: bool)
        ensures
            ok == self.valid(),
    {
        0 <= self.radius && self.radius <= EXTENT_MAX && self.speed > 0
    }
}

impl Bullet {
    /// The radius is a capsule-sized length.
    pub open spec fn valid(self) -> bool {
        0 <= self.radius <= EXTENT_MAX
    }

    /// Whether `valid` holds.
    pub fn is_valid(&self) -> (ok: bool)
        ensures
            ok == self.valid(),
    {
        0 <= self.radius && self.radius <= EXTENT_MAX
    }
}

} // verus!
