//! What one collision does: the tests for a hit, the new velocity of a
//! ball that was hit, the damage to a paddle, and the particle bursts
//! that mark each impact.

use crate::components::{Ball, Bounds, Bullet, Transform};
use crate::fixed::{clamp_i32, div_toward_zero, magnitude, square, trunc_div};
use crate::geometry::{
    as_ints, spec_sphere_capsule, spec_square_distance, square_distance, test_sphere_capsule,
};
use crate::particles::{to_i32, Color, Emission};
use crate::physics::{
    faster, lemma_faster_grows, lemma_redirect_keeps_speed, norm2, redirect, spec_faster,
    spec_redirect, wide_ints,
};
use crate::state::Phase;
use vstd::prelude::*;

verus! {

/// What a bullet takes off a paddle's half-height.
pub const DAMAGE: i32 = 1_000;

/// The extents of an undamaged paddle.
pub const PADDLE_WIDTH: i32 = 16_000;

pub const PADDLE_HEIGHT: i32 = 64_000;

/// A served ball's radius.
pub const BALL_RADIUS: i32 = 16_000;

/// Whether a bullet at `bullet` lies inside the ball: the squared
/// distance between the centres is less than the squared radius.
pub open spec fn spec_meets(bullet: Transform, at: Transform, ball: Ball) -> bool {
    spec_square_distance(
        bullet.position.0 as int,
        bullet.position.1 as int,
        at.position.0 as int,
        at.position.1 as int,
    ) < square(ball.radius as int)
}

/// Whether a bullet touches a paddle: the overlap test for a circle of
/// the bullet's radius against the paddle's capsule.
pub open spec fn spec_strikes(at: Transform, bullet: Bullet, paddle: Transform, bounds: Bounds) -> bool {
    spec_sphere_capsule(
        as_ints(at.position),
        bullet.radius as int,
        as_ints(paddle.position),
        bounds.0 as int,
        bounds.1 as int,
    )
}

/// Whether a ball touches a paddle.
pub open spec fn spec_touches(at: Transform, ball: Ball, paddle: Transform, bounds: Bounds) -> bool {
    spec_sphere_capsule(
        as_ints(at.position),
        ball.radius as int,
        as_ints(paddle.position),
        bounds.0 as int,
        bounds.1 as int,
    )
}

/// The direction a bullet knocks a ball in: half the offset from the
/// bullet to the ball, plus a quarter of the bullet's velocity.
pub open spec fn spec_knock_direction(at: Transform, bullet: Transform) -> (int, int) {
    (
        trunc_div(at.position.0 - bullet.position.0, 2) + trunc_div(bullet.velocity.0 as int, 4),
        trunc_div(at.position.1 - bullet.position.1, 2) + trunc_div(bullet.velocity.1 as int, 4),
    )
}

/// The direction a paddle sends a ball in: the offset from the paddle to
/// the ball, each axis measured in the paddle's extent along it, plus a
/// quarter of the paddle's velocity. A paddle with an extent of zero
/// gives no direction.
pub open spec fn spec_deflect_direction(at: Transform, paddle: Transform, bounds: Bounds) -> Option<
    (int, int),
> {
    if bounds.0 <= 0 || bounds.1 <= 0 {
        None
    } else {
        Some(
            (
                trunc_div((at.position.0 - paddle.position.0) * 1000, bounds.0 as int) + trunc_div(
                    paddle.velocity.0 as int,
                    4,
                ),
                trunc_div((at.position.1 - paddle.position.1) * 1000, bounds.1 as int) + trunc_div(
                    paddle.velocity.1 as int,
                    4,
                ),
            ),
        )
    }
}

/// `at` with the velocity of length `speed` along `d`. Where `d` is
/// missing or the zero vector, `at` itself.
pub open spec fn spec_turned(at: Transform, d: Option<(int, int)>, speed: int) -> Transform {
    match d {
        Some(d) => if d.0 == 0 && d.1 == 0 {
            at
        } else {
            Transform {
                position: at.position,
                velocity: (spec_redirect(d, speed).0 as i32, spec_redirect(d, speed).1 as i32),
            }
        },
        None => at,
    }
}

/// A ball after a bullet has hit it.
pub open spec fn spec_knocked(at: Transform, ball: Ball, bullet: Transform) -> Transform {
    spec_turned(at, Some(spec_knock_direction(at, bullet)), ball.speed as int)
}

/// A ball after a paddle has hit it: faster, even where the paddle gives
/// no direction, and sent off in the paddle's direction at its new speed.
pub open spec fn spec_bounced(at: Transform, ball: Ball, paddle: Transform, bounds: Bounds) -> (
    Transform,
    Ball,
) {
    (
        spec_turned(at, spec_deflect_direction(at, paddle, bounds), spec_faster(ball.speed as int)),
        ball.sped_up(),
    )
}

/// A paddle's extents after a bullet has hit it: the half-height is
/// `DAMAGE` less, and never below zero.
pub open spec fn spec_shrunk(bounds: Bounds) -> Bounds {
    Bounds(bounds.0, if bounds.1 > DAMAGE {
        (bounds.1 - DAMAGE) as i32
    } else {
        0
    })
}

/// Frames of hit-freeze that a ball of the given speed earns on a paddle:
/// twice the speed in pixels per substep, rounded to the nearest whole
/// number.
pub open spec fn spec_jolt(speed: int) -> int {
    (2 * speed + 500) / 1000
}

/// The burst where a bullet hit something that now moves at `v`.
pub open spec fn spec_impact(at: (i32, i32), v: (i32, i32)) -> Emission {
    Emission {
        count: 3,
        position: at,
        velocity: (to_i32(2 * v.0), to_i32(2 * v.1)),
        size: 8_000,
        color: Color::White,
        age: 300,
        position_variance: (100, 100),
        velocity_variance: (4_000, 8_000),
        size_variance: 500,
        age_variance: 250,
    }
}

/// The burst where a ball bounced off a paddle and now moves at
/// `at.velocity`: one particle for each pixel per substep of horizontal
/// speed.
pub open spec fn spec_spray(at: Transform) -> Emission {
    let h = magnitude(at.velocity.0 as int);
    Emission {
        count: (h / 1000) as i32,
        position: at.position,
        velocity: (to_i32(2 * at.velocity.0), to_i32(2 * at.velocity.1)),
        size: to_i32(4 * h),
        color: Color::White,
        age: 300,
        position_variance: (100, 100),
        velocity_variance: (to_i32(2_000 + h), to_i32(4_000 + h)),
        size_variance: (h / 4) as i32,
        age_variance: 250,
    }
}

/// The burst where a ball moving at `at.velocity` scored: red for the
/// left player's goal, blue for the right player's.
pub open spec fn spec_fanfare(at: Transform, side: Phase) -> Emission {
    let h = magnitude(at.velocity.0 as int);
    let v = magnitude(at.velocity.1 as int);
    Emission {
        count: 100,
        position: at.position,
        velocity: (to_i32(-at.velocity.0), to_i32(-at.velocity.1)),
        size: to_i32(4 * (h + v)),
        color: if side == Phase::LeftWin {
            Color::Red
        } else {
            Color::Blue
        },
        age: 3_000,
        position_variance: (100, 100),
        velocity_variance: (to_i32(2_000 + h), to_i32(8_000 + h)),
        size_variance: to_i32(h),
        age_variance: 1_000,
    }
}

/// The trail a ball leaves each substep. It lives for a quarter of
/// `intensity` milliseconds.
pub open spec fn spec_ball_trail(position: (i32, i32), intensity: i64) -> Emission {
    Emission {
        count: 1,
        position,
        velocity: (0, 0),
        size: 16_000,
        color: Color::Black,
        age: trunc_div(intensity as int, 4) as i64,
        position_variance: (0, 0),
        velocity_variance: (200, 200),
        size_variance: 0,
        age_variance: 0,
    }
}

/// Whether a bullet lies inside a ball.
pub fn meets(bullet: &Transform, at: &Transform, ball: &Ball) -> (hit: bool)
    ensures
        hit == spec_meets(*bullet, *at, *ball),
{
    let d = square_distance(
        bullet.position.0,
        bullet.position.1,
        at.position.0,
        at.position.1,
    );
    let r = ball.radius as i128;
    assert(0 <= r * r <= 0x1_0000_0000_0000_0000) by (nonlinear_arith)
        requires
            -0x1_0000_0000 <= r <= 0x1_0000_0000,
    ;
    d < r * r
}

/// Whether a bullet touches a paddle.
pub fn strikes(at: &Transform, bullet: &Bullet, paddle: &Transform, bounds: &Bounds) -> (hit: bool)
    requires
        at.valid(),
        paddle.valid(),
        bounds.valid(),
    ensures
        hit == spec_strikes(*at, *bullet, *paddle, *bounds),
{
    let probe = Ball { radius: bullet.radius, speed: 0 };
    test_sphere_capsule((at, &probe), (paddle, bounds))
}

/// Whether a ball touches a paddle.
pub fn touches(at: &Transform, ball: &Ball, paddle: &Transform, bounds: &Bounds) -> (hit: bool)
    requires
        at.valid(),
        paddle.valid(),
        bounds.valid(),
    ensures
        hit == spec_touches(*at, *ball, *paddle, *bounds),
{
    test_sphere_capsule((at, ball), (paddle, bounds))
}

/// `at` with the velocity of length `speed` along `d`, or `at` itself
/// where `d` is the zero vector.
fn turn(at: &Transform, d: (i64, i64), speed: i32) -> (turned: Transform)
    requires
        crate::physics::direction_ok(d),
        speed >= 0,
    ensures
        turned == spec_turned(*at, Some(wide_ints(d)), speed as int),
        turned.position == at.position,
{
    match redirect(d, speed) {
        Some(v) => Transform { position: at.position, velocity: v },
        None => *at,
    }
}

/// The ball's transform after a bullet at `bullet` has hit it.
pub fn knock(at: &Transform, ball: &Ball, bullet: &Transform) -> (knocked: Transform)
    requires
        ball.valid(),
    ensures
        knocked == spec_knocked(*at, *ball, *bullet),
        knocked.position == at.position,
{
    let dx = div_toward_zero(at.position.0 as i128 - bullet.position.0 as i128, 2)
        + div_toward_zero(bullet.velocity.0 as i128, 4);
    let dy = div_toward_zero(at.position.1 as i128 - bullet.position.1 as i128, 2)
        + div_toward_zero(bullet.velocity.1 as i128, 4);
    turn(at, (dx as i64, dy as i64), ball.speed)
}

/// The ball after a paddle has hit it.
pub fn bounce(at: &Transform, ball: &Ball, paddle: &Transform, bounds: &Bounds) -> (out: (
    Transform,
    Ball,
))
    requires
        ball.valid(),
    ensures
        out == spec_bounced(*at, *ball, *paddle, *bounds),
        out.0.position == at.position,
        out.1.valid(),
        out.1.radius == ball.radius,
        out.1.speed == spec_faster(ball.speed as int),
        out.1.speed >= ball.speed,
        ball.speed < i32::MAX ==> out.1.speed > ball.speed,
{
    let sped = Ball { radius: ball.radius, speed: faster(ball.speed) };
    if bounds.0 <= 0 || bounds.1 <= 0 {
        return (*at, sped);
    }
    let dx = div_toward_zero(
        (at.position.0 as i128 - paddle.position.0 as i128) * 1000,
        bounds.0 as i128,
    ) + div_toward_zero(paddle.velocity.0 as i128, 4);
    let dy = div_toward_zero(
        (at.position.1 as i128 - paddle.position.1 as i128) * 1000,
        bounds.1 as i128,
    ) + div_toward_zero(paddle.velocity.1 as i128, 4);
    (turn(at, (dx as i64, dy as i64), sped.speed), sped)
}

/// A paddle's extents after a bullet has hit it.
pub fn shrink(bounds: &Bounds) -> (shrunk: Bounds)
    ensures
        shrunk == spec_shrunk(*bounds),
        bounds.valid() ==> shrunk.valid(),
{
    Bounds(bounds.0, if bounds.1 > DAMAGE {
        bounds.1 - DAMAGE
    } else {
        0
    })
}

/// Frames of hit-freeze that a ball of the given speed earns on a paddle.
pub fn jolt(speed: i32) -> (frames: i32)
    requires
        speed >= 0,
    ensures
        frames == spec_jolt(speed as int),
        frames >= 0,
{
    ((2 * (speed as i64) + 500) / 1000) as i32
}

/// Absolute value of a velocity component.
fn size_of(v: i32) -> (m: i64)
    ensures
        m == magnitude(v as int),
{
    if v < 0 {
        -(v as i64)
    } else {
        v as i64
    }
}

/// The burst where a bullet hit something that now moves at `v`.
pub fn impact(at: (i32, i32), v: (i32, i32)) -> (e: Emission)
    ensures
        e == spec_impact(at, v),
{
    Emission {
        count: 3,
        position: at,
        velocity: (clamp_i32(2 * (v.0 as i128)), clamp_i32(2 * (v.1 as i128))),
        size: 8_000,
        color: Color::White,
        age: 300,
        position_variance: (100, 100),
        velocity_variance: (4_000, 8_000),
        size_variance: 500,
        age_variance: 250,
    }
}

/// The burst where a ball bounced off a paddle.
pub fn spray(at: &Transform) -> (e: Emission)
    ensures
        e == spec_spray(*at),
{
    let h = size_of(at.velocity.0);
    Emission {
        count: (h / 1000) as i32,
        position: at.position,
        velocity: (
            clamp_i32(2 * (at.velocity.0 as i128)),
            clamp_i32(2 * (at.velocity.1 as i128)),
        ),
        size: clamp_i32(4 * (h as i128)),
        color: Color::White,
        age: 300,
        position_variance: (100, 100),
        velocity_variance: (clamp_i32(2_000 + h as i128), clamp_i32(4_000 + h as i128)),
        size_variance: (h / 4) as i32,
        age_variance: 250,
    }
}

/// The burst where a ball scored for `side`.
pub fn fanfare(at: &Transform, side: Phase) -> (e: Emission)
    ensures
        e == spec_fanfare(*at, side),
{
    let h = size_of(at.velocity.0);
    let v = size_of(at.velocity.1);
    Emission {
        count: 100,
        position: at.position,
        velocity: (clamp_i32(-(at.velocity.0 as i128)), clamp_i32(-(at.velocity.1 as i128))),
        size: clamp_i32(4 * (h as i128 + v as i128)),
        color: if matches!(side, Phase::LeftWin) {
            Color::Red
        } else {
            Color::Blue
        },
        age: 3_000,
        position_variance: (100, 100),
        velocity_variance: (clamp_i32(2_000 + h as i128), clamp_i32(8_000 + h as i128)),
        size_variance: clamp_i32(h as i128),
        age_variance: 1_000,
    }
}

/// The trail a ball leaves each substep.
pub fn ball_trail(position: (i32, i32), intensity: i64) -> (e: Emission)
    ensures
        e == spec_ball_trail(position, intensity),
{
    Emission {
        count: 1,
        position,
        velocity: (0, 0),
        size: 16_000,
        color: Color::Black,
        age: div_toward_zero(intensity as i128, 4) as i64,
        position_variance: (0, 0),
        velocity_variance: (200, 200),
        size_variance: 0,
        age_variance: 0,
    }
}

/// A collision that has a direction pins the velocity to the speed: the
/// new velocity has the length `speed` up to rounding, in the sense of
/// `lemma_redirect_keeps_speed`, and the position stays. Without a
/// direction the velocity stays as it was.
pub proof fn lemma_turned_keeps_speed(at: Transform, d: Option<(int, int)>, speed: int)
    requires
        0 <= speed <= i32::MAX,
    ensures
        spec_turned(at, d, speed).position == at.position,
        d is None || d->0 == (0int, 0int) ==> spec_turned(at, d, speed) == at,
        d is Some && d->0 != (0int, 0int) ==> ({
            let v = as_ints(spec_turned(at, d, speed).velocity);
            &&& v == spec_redirect(d->0, speed)
            &&& magnitude(v.0) <= speed
            &&& magnitude(v.1) <= speed
            &&& 1_000_000 * norm2(v) <= 1_002_001 * (speed * speed)
            &&& norm2((magnitude(v.0) + 1, magnitude(v.1) + 1)) > speed * speed
        }),
{
    if d is Some && d->0 != (0int, 0int) {
        lemma_redirect_keeps_speed(d->0, speed);
    }
}

/// A ball that a bullet knocks, and a ball that bounces off a paddle,
/// leaves with a velocity pinned to its speed, provided that the
/// collision has a direction; the bounce raises the speed first.
pub proof fn lemma_collisions_pin_speed(
    at: Transform,
    ball: Ball,
    bullet: Transform,
    paddle: Transform,
    bounds: Bounds,
)
    requires
        ball.valid(),
    ensures
        spec_knock_direction(at, bullet) != (0int, 0int) ==> ({
            let v = as_ints(spec_knocked(at, ball, bullet).velocity);
            &&& 1_000_000 * norm2(v) <= 1_002_001 * (ball.speed * ball.speed)
            &&& norm2((magnitude(v.0) + 1, magnitude(v.1) + 1)) > ball.speed * ball.speed
        }),
        spec_deflect_direction(at, paddle, bounds) is Some && spec_deflect_direction(
            at,
            paddle,
            bounds,
        )->0 != (0int, 0int) ==> ({
            let v = as_ints(spec_bounced(at, ball, paddle, bounds).0.velocity);
            let speed = spec_bounced(at, ball, paddle, bounds).1.speed;
            &&& speed == spec_faster(ball.speed as int)
            &&& speed >= ball.speed
            &&& (ball.speed < i32::MAX ==> speed > ball.speed)
            &&& 1_000_000 * norm2(v) <= 1_002_001 * (speed * speed)
            &&& norm2((magnitude(v.0) + 1, magnitude(v.1) + 1)) > speed * speed
        }),
{
    lemma_turned_keeps_speed(at, Some(spec_knock_direction(at, bullet)), ball.speed as int);
    lemma_faster_grows(ball.speed as int);
    lemma_turned_keeps_speed(
        at,
        spec_deflect_direction(at, paddle, bounds),
        spec_faster(ball.speed as int),
    );
}

} // verus!
