//! Steering: friction, the player's keys, the computer's chase of the
//! nearest ball, and the decision to fire.

use crate::components::{BallEntry, ControlType, Field, Transform, POSITION_MAX};
use crate::fixed::{clamp, clamp_i64, clamped, div_toward_zero, floor_sqrt, isqrt, trunc_div};
use crate::geometry::{spec_square_distance, square_distance};
use crate::particles::{Color, Emission};
use vstd::prelude::*;

verus! {

/// What a player's vertical keys add to a paddle's velocity per substep.
pub const THRUST: i32 = 300;

/// The most that the computer adds to its paddle's velocity per substep.
pub const CHASE_MAX: i32 = 250;

/// The computer's pull per unit of distance, before division by the
/// field's width.
pub const CHASE_GAIN: i32 = 60_000;

/// Milliseconds between two shots of one player.
pub const COOLDOWN: i64 = 350;

/// How far from the paddle's centre a bullet appears.
pub const MUZZLE: i32 = 32_000;

/// A bullet's horizontal speed.
pub const BULLET_SPEED: i32 = 2_000;

/// A bullet's radius.
pub const BULLET_RADIUS: i32 = 2_000;

/// The largest vertical speed a bullet is given at random.
pub const BULLET_DRIFT: i32 = 100;

/// What the input devices report for one frame: whether the start
/// control was just pressed, and the codes of the keys that are down.
#[derive(Debug)]
pub struct Input {
    pub start: bool,
    pub held: Vec<u32>,
}

impl Input {
    /// Whether the key `code` is down.
    pub fn is_held(&self, code: u32) -> (down: bool)
        ensures
            down == self.held@.contains(code),
    {
        let mut i: usize = 0;
        while i < self.held.len()
            invariant
                i <= self.held@.len(),
                forall|k: int| 0 <= k < i ==> self.held@[k] != code,
            decreases self.held@.len() - i,
        {
            if self.held[i] == code {
                return true;
            }
            i = i + 1;
        }
        false
    }
}

/// A velocity component after one substep of friction: nineteen
/// twentieths of it.
pub open spec fn damped(v: int) -> int {
    trunc_div(v * 19, 20)
}

/// `1` for true, `0` for false.
pub open spec fn unit(b: bool) -> int {
    if b {
        1
    } else {
        0
    }
}

/// A player's paddle after one substep of steering: friction on both
/// axes, then `THRUST` downward for the down key and upward for the up
/// key.
pub open spec fn spec_steer_player(t: Transform, up: bool, down: bool) -> Transform {
    Transform {
        position: t.position,
        velocity: (
            damped(t.velocity.0 as int) as i32,
            (damped(t.velocity.1 as int) + THRUST * (unit(down) - unit(up))) as i32,
        ),
    }
}

/// The computer's pull toward a target at `target` from a paddle at
/// `from`: toward the target's height, in proportion to the distance
/// between the two points and to the inverse of the field's width, and
/// at most `CHASE_MAX`.
pub open spec fn spec_pull(from: (i32, i32), target: (i32, i32), field: Field) -> int {
    let distance = floor_sqrt(
        spec_square_distance(from.0 as int, from.1 as int, target.0 as int, target.1 as int),
    );
    let rate = clamped((CHASE_GAIN * distance) / (field.width as int), 0, CHASE_MAX as int);
    if from.1 < target.1 {
        rate
    } else if from.1 > target.1 {
        -rate
    } else {
        0
    }
}

/// The computer's paddle after one substep of steering: friction on both
/// axes, then the pull toward the target, if there is one.
pub open spec fn spec_steer_ai(t: Transform, target: Option<(i32, i32)>, field: Field) -> Transform {
    Transform {
        position: t.position,
        velocity: (
            damped(t.velocity.0 as int) as i32,
            (damped(t.velocity.1 as int) + (match target {
                Some(p) => spec_pull(t.position, p, field),
                None => 0,
            })) as i32,
        ),
    }
}

/// `i` is the index of the live ball nearest to `from`: no live ball is
/// nearer, and every live ball before it is farther.
pub open spec fn is_nearest(from: (i32, i32), balls: Seq<BallEntry>, i: int) -> bool {
    &&& 0 <= i < balls.len()
    &&& balls[i].alive
    &&& forall|k: int|
        0 <= k < balls.len() && (#[trigger] balls[k]).alive ==> ball_distance(from, balls[k])
            >= ball_distance(from, balls[i])
    &&& forall|k: int|
        0 <= k < i && (#[trigger] balls[k]).alive ==> ball_distance(from, balls[k])
            > ball_distance(from, balls[i])
}

/// The centre of the live ball nearest to `from`; of several at the same
/// distance the first in `balls`. `None` where no ball is alive.
pub open spec fn spec_target(from: (i32, i32), balls: Seq<BallEntry>) -> Option<(i32, i32)> {
    if exists|i: int| is_nearest(from, balls, i) {
        Some(balls[choose|i: int| is_nearest(from, balls, i)].transform.position)
    } else {
        None
    }
}

/// At most one index is the nearest.
pub proof fn lemma_nearest_unique(from: (i32, i32), balls: Seq<BallEntry>, i: int, j: int)
    requires
        is_nearest(from, balls, i),
        is_nearest(from, balls, j),
    ensures
        i == j,
{
    if i < j {
        assert(balls[i].alive);
    } else if j < i {
        assert(balls[j].alive);
    }
}

/// Squared distance from `from` to the centre of `b`.
pub open spec fn ball_distance(from: (i32, i32), b: BallEntry) -> int {
    spec_square_distance(
        from.0 as int,
        from.1 as int,
        b.transform.position.0 as int,
        b.transform.position.1 as int,
    )
}

/// One velocity component after friction.
pub fn damp(v: i32) -> (slowed: i32)
    ensures
        slowed == damped(v as int),
        -2_040_109_466 <= slowed <= 2_040_109_466,
{
    let q = div_toward_zero(v as i128 * 19, 20);
    q as i32
}

/// Steers a player's paddle for one substep.
pub fn steer_player(t: &Transform, up: bool, down: bool) -> (steered: Transform)
    ensures
        steered == spec_steer_player(*t, up, down),
{
    let mut vy = damp(t.velocity.1);
    if down {
        vy = vy + THRUST;
    }
    if up {
        vy = vy - THRUST;
    }
    Transform { position: t.position, velocity: (damp(t.velocity.0), vy) }
}

/// The index of the live ball nearest to `from`; of several at the same
/// distance the first. `None` where no ball is alive.
pub fn nearest_ball(from: (i32, i32), balls: &Vec<BallEntry>) -> (found: Option<usize>)
    ensures
        found is None <==> (forall|k: int| 0 <= k < balls@.len() ==> !(#[trigger] balls@[k]).alive),
        found is Some ==> is_nearest(from, balls@, found->0 as int),
        (match found {
            Some(i) => Some(balls@[i as int].transform.position),
            None => None,
        }) == spec_target(from, balls@),
{
    let mut best: Option<usize> = None;
    let mut best_distance: i128 = 0;
    let mut i: usize = 0;
    while i < balls.len()
        invariant
            i <= balls@.len(),
            best is None ==> forall|k: int| 0 <= k < i ==> !(#[trigger] balls@[k]).alive,
            best is Some ==> {
                &&& best->0 < i
                &&& balls@[best->0 as int].alive
                &&& best_distance == ball_distance(from, balls@[best->0 as int])
                &&& forall|k: int|
                    0 <= k < i && (#[trigger] balls@[k]).alive ==> ball_distance(from, balls@[k])
                        >= best_distance
                &&& forall|k: int|
                    0 <= k < best->0 && (#[trigger] balls@[k]).alive ==> ball_distance(
                        from,
                        balls@[k],
                    ) > best_distance
            },
        decreases balls@.len() - i,
    {
        if balls[i].alive {
            let d = square_distance(
                from.0,
                from.1,
                balls[i].transform.position.0,
                balls[i].transform.position.1,
            );
            if best.is_none() || d < best_distance {
                best = Some(i);
                best_distance = d;
            }
        }
        i = i + 1;
    }
    proof {
        match best {
            Some(b) => {
                assert(is_nearest(from, balls@, b as int));
                let c = choose|c: int| is_nearest(from, balls@, c);
                lemma_nearest_unique(from, balls@, b as int, c);
            },
            None => {
                assert forall|c: int| !is_nearest(from, balls@, c) by {
                    if is_nearest(from, balls@, c) {
                        assert(balls@[c].alive);
                    }
                }
            },
        }
    }
    best
}

/// The computer's pull toward `target`.
pub fn pull(from: (i32, i32), target: (i32, i32), field: &Field) -> (rate: i32)
    requires
        field.sized(),
    ensures
        rate == spec_pull(from, target, *field),
        -CHASE_MAX <= rate <= CHASE_MAX,
{
    let d2 = square_distance(from.0, from.1, target.0, target.1);
    let distance = isqrt(d2 as u128);
    let raw = (CHASE_GAIN as i128 * distance as i128) / (field.width as i128);
    let rate = clamp(raw, 0, CHASE_MAX as i128) as i32;
    if from.1 < target.1 {
        rate
    } else if from.1 > target.1 {
        -rate
    } else {
        0
    }
}

/// Steers the computer's paddle for one substep.
pub fn steer_ai(t: &Transform, target: Option<(i32, i32)>, field: &Field) -> (steered: Transform)
    requires
        field.sized(),
    ensures
        steered == spec_steer_ai(*t, target, *field),
{
    let mut vy = damp(t.velocity.1);
    match target {
        Some(p) => {
            vy = vy + pull(t.position, p, field);
        },
        None => {},
    }
    Transform { position: t.position, velocity: (damp(t.velocity.0), vy) }
}

/// Whether a player fires: exactly one of the two horizontal keys is
/// down and the time of the next shot has passed.
pub open spec fn spec_fires(left: bool, right: bool, now: i64, ready_at: i64) -> bool {
    left != right && now > ready_at
}

/// The bullet that leaves a paddle at `t`, toward the right if `right`
/// and toward the left otherwise, before its vertical drift is drawn.
pub open spec fn spec_muzzle(t: Transform, right: bool) -> Transform {
    let direction: int = if right {
        1
    } else {
        -1
    };
    Transform {
        position: (
            clamped(
                t.position.0 + direction * MUZZLE,
                -POSITION_MAX as int,
                POSITION_MAX as int,
            ) as i32,
            t.position.1,
        ),
        velocity: ((direction * BULLET_SPEED) as i32, 0),
    }
}

/// The earliest time of the shot after one fired at `now`.
pub open spec fn spec_reload(now: i64) -> i64 {
    clamped(now + COOLDOWN, i64::MIN as int, i64::MAX as int) as i64
}

/// Decides whether a player fires at `now`. If so, the result is the
/// bullet, still without vertical drift, and the earliest time of the
/// next shot.
pub fn fire(t: &Transform, left: bool, right: bool, now: i64, ready_at: i64) -> (shot: Option<
    (Transform, i64),
>)
    ensures
        shot is Some <==> spec_fires(left, right, now, ready_at),
        shot is Some ==> shot->0 == (spec_muzzle(*t, right), spec_reload(now)),
        shot is Some && t.valid() ==> (shot->0).0.valid(),
{
    if left == right || now <= ready_at {
        return None;
    }
    let direction: i128 = if right {
        1
    } else {
        -1
    };
    let x = clamp(
        t.position.0 as i128 + direction * MUZZLE as i128,
        -(POSITION_MAX as i128),
        POSITION_MAX as i128,
    );
    let bullet = Transform {
        position: (x as i32, t.position.1),
        velocity: ((direction * BULLET_SPEED as i128) as i32, 0),
    };
    Some((bullet, clamp_i64(now as i128 + COOLDOWN as i128)))
}

/// The trail that every steered paddle leaves each substep.
pub open spec fn spec_paddle_trail(position: (i32, i32)) -> Emission {
    Emission {
        count: 1,
        position,
        velocity: (0, 0),
        size: 16_000,
        color: Color::Black,
        age: 500,
        position_variance: (0, 0),
        velocity_variance: (200, 200),
        size_variance: 0,
        age_variance: 0,
    }
}

/// The trail that every steered paddle leaves each substep.
pub fn paddle_trail(position: (i32, i32)) -> (e: Emission)
    ensures
        e == spec_paddle_trail(position),
{
    Emission {
        count: 1,
        position,
        velocity: (0, 0),
        size: 16_000,
        color: Color::Black,
        age: 500,
        position_variance: (0, 0),
        velocity_variance: (200, 200),
        size_variance: 0,
        age_variance: 0,
    }
}

/// What steering decides for one paddle in one substep.
#[derive(Clone, Copy, Debug, PartialEq, Eq)]
pub struct Steering {
    pub transform: Transform,
    pub control: ControlType,
    pub shot: Option<Transform>,
}

/// The outcome of steering one paddle: a player's paddle follows the
/// keys and may fire, the computer's chases `target`.
pub open spec fn spec_steer(
    t: Transform,
    control: ControlType,
    held: Seq<u32>,
    target: Option<(i32, i32)>,
    now: i64,
    field: Field,
) -> Steering {
    match control {
        ControlType::Player(keys, ready_at) => {
            let fires = spec_fires(
                held.contains(keys.left),
                held.contains(keys.right),
                now,
                ready_at,
            );
            Steering {
                transform: spec_steer_player(t, held.contains(keys.up), held.contains(keys.down)),
                control: if fires {
                    ControlType::Player(keys, spec_reload(now))
                } else {
                    control
                },
                shot: if fires {
                    Some(spec_muzzle(t, held.contains(keys.right)))
                } else {
                    None
                },
            }
        },
        ControlType::AI(_) => Steering {
            transform: spec_steer_ai(t, target, field),
            control,
            shot: None,
        },
    }
}

/// Steers one paddle for one substep. `target` is the centre of the ball
/// that the computer chases, if there is a ball.
pub fn steer(
    t: &Transform,
    control: &ControlType,
    input: &Input,
    target: Option<(i32, i32)>,
    now: i64,
    field: &Field,
) -> (out: Steering)
    requires
        field.sized(),
    ensures
        out == spec_steer(*t, *control, input.held@, target, now, *field),
        out.transform.position == t.position,
        t.valid() ==> out.transform.valid(),
        out.shot is Some && t.valid() ==> (out.shot->0).valid(),
{
    match control {
        ControlType::Player(keys, ready_at) => {
            let transform = steer_player(t, input.is_held(keys.up), input.is_held(keys.down));
            let right = input.is_held(keys.right);
            match fire(t, input.is_held(keys.left), right, now, *ready_at) {
                Some((bullet, reload)) => Steering {
                    transform,
                    control: ControlType::Player(*keys, reload),
                    shot: Some(bullet),
                },
                None => Steering { transform, control: *control, shot: None },
            }
        },
        ControlType::AI(_) => Steering {
            transform: steer_ai(t, target, field),
            control: *control,
            shot: None,
        },
    }
}

} // verus!
