//! A frame of the simulation on plain copies of the entities: the passes
//! that move them, steer the paddles, resolve the collisions and keep
//! the match's state.

use crate::components::{
    BallEntry, Ball, Bounds, Bullet, BulletEntry, Event, Field, PaddleEntry, Transform,
};
use crate::control::{
    nearest_ball, paddle_trail, spec_paddle_trail, spec_steer, spec_target, steer, Input,
    BULLET_DRIFT, BULLET_RADIUS,
};
use crate::fixed::clamp_i64;
use crate::particles::{random_offset, to_i64, within, Emission};
use crate::physics::{
    advance, bounce_off_walls, lemma_faster_grows, lemma_speed_never_drops,
    lemma_speed_tells_hits, spec_advance, spec_bounce_off_walls, speed_after,
};
use crate::physics::spec_faster;
use crate::resolver::{
    ball_trail, bounce, fanfare, impact, jolt, knock, meets, shrink, spec_ball_trail,
    spec_bounced, spec_fanfare, spec_impact, spec_jolt, spec_knocked, spec_meets, spec_shrunk,
    spec_spray, spec_strikes, spec_touches, spray, strikes, touches, BALL_RADIUS, PADDLE_HEIGHT,
    PADDLE_WIDTH,
};
use crate::physics::{MARGIN, SERVE_DIVISOR, SUBSTEPS};
use crate::state::{bounded_sum, goal, spec_goal, GameState, Phase};
use vstd::prelude::*;

verus! {

/// The entities of a frame and what the frame has produced so far.
/// `bursts` are the particle emissions that were asked for, `events` the
/// things that happened, both in the order in which they came about.
#[derive(Debug)]
pub struct Scene {
    pub state: GameState,
    pub paddles: Vec<PaddleEntry>,
    pub balls: Vec<BallEntry>,
    pub bullets: Vec<BulletEntry>,
    pub bursts: Vec<Emission>,
    pub events: Vec<Event>,
}

/// A `Scene` as a mathematical value.
#[verifier::ext_equal]
pub struct SceneModel {
    pub state: GameState,
    pub paddles: Seq<PaddleEntry>,
    pub balls: Seq<BallEntry>,
    pub bullets: Seq<BulletEntry>,
    pub bursts: Seq<Emission>,
    pub events: Seq<Event>,
}

impl View for Scene {
    type V = SceneModel;

    open spec fn view(&self) -> SceneModel {
        SceneModel {
            state: self.state,
            paddles: self.paddles@,
            balls: self.balls@,
            bullets: self.bullets@,
            bursts: self.bursts@,
            events: self.events@,
        }
    }
}

impl SceneModel {
    /// Every entry's components are valid.
    pub open spec fn valid(self) -> bool {
        &&& forall|k: int| 0 <= k < self.paddles.len() ==> (#[trigger] self.paddles[k]).valid()
        &&& forall|k: int| 0 <= k < self.balls.len() ==> (#[trigger] self.balls[k]).valid()
        &&& forall|k: int| 0 <= k < self.bullets.len() ==> (#[trigger] self.bullets[k]).valid()
    }

    /// `self` has the entries of `before` under the same identifiers and
    /// at the same places, and after them only entries without an
    /// identifier. Every pass relates the scene it leaves to the scene
    /// it found in this way.
    pub open spec fn extends(self, before: SceneModel) -> bool {
        &&& self.paddles.len() == before.paddles.len()
        &&& forall|k: int|
            0 <= k < before.paddles.len() ==> (#[trigger] self.paddles[k]).id
                == before.paddles[k].id
        &&& self.balls.len() >= before.balls.len()
        &&& forall|k: int|
            0 <= k < before.balls.len() ==> (#[trigger] self.balls[k]).id == before.balls[k].id
        &&& forall|k: int|
            before.balls.len() <= k < self.balls.len() ==> (#[trigger] self.balls[k]).id is None
        &&& self.bullets.len() >= before.bullets.len()
        &&& forall|k: int|
            0 <= k < before.bullets.len() ==> (#[trigger] self.bullets[k]).id
                == before.bullets[k].id
        &&& forall|k: int|
            before.bullets.len() <= k < self.bullets.len() ==> (
            #[trigger] self.bullets[k]).id is None
    }
}

// ---------------------------------------------------------------------
// Motion
// ---------------------------------------------------------------------
/// A paddle after one substep of motion.
pub open spec fn moved_paddle(p: PaddleEntry, field: Field) -> PaddleEntry {
    PaddleEntry { transform: spec_advance(p.transform, field), ..p }
}

/// A ball after one substep of motion. A ball that has scored stays.
pub open spec fn moved_ball(b: BallEntry, field: Field) -> BallEntry {
    if b.alive {
        BallEntry { transform: spec_advance(b.transform, field), ..b }
    } else {
        b
    }
}

/// A bullet after one substep of motion. A spent bullet stays.
pub open spec fn moved_bullet(u: BulletEntry, field: Field) -> BulletEntry {
    if u.alive {
        BulletEntry { transform: spec_advance(u.transform, field), ..u }
    } else {
        u
    }
}

/// The scene after one substep of motion: every live entity has moved by
/// its velocity and is held within the field's margin.
pub open spec fn spec_integrate(m: SceneModel, field: Field) -> SceneModel {
    SceneModel {
        paddles: Seq::new(m.paddles.len(), |k: int| moved_paddle(m.paddles[k], field)),
        balls: Seq::new(m.balls.len(), |k: int| moved_ball(m.balls[k], field)),
        bullets: Seq::new(m.bullets.len(), |k: int| moved_bullet(m.bullets[k], field)),
        ..m
    }
}

/// Moves every live entity by one substep.
pub fn integrate(scene: &mut Scene, field: &Field)
    requires
        field.sized(),
        old(scene)@.valid(),
    ensures
        final(scene)@ == spec_integrate(old(scene)@, *field),
        final(scene)@.valid(),
        final(scene)@.extends(old(scene)@),
{
    let ghost before = scene@;
    let mut i: usize = 0;
    while i < scene.paddles.len()
        invariant
            field.sized(),
            i <= scene.paddles@.len(),
            scene.paddles@.len() == before.paddles.len(),
            forall|k: int| 0 <= k < i ==> #[trigger] scene.paddles@[k] == moved_paddle(before.paddles[k], *field),
            forall|k: int| i <= k < before.paddles.len() ==> #[trigger] scene.paddles@[k] == before.paddles[k],
            forall|k: int| 0 <= k < before.paddles.len() ==> (#[trigger] before.paddles[k]).valid(),
            scene@ == (SceneModel { paddles: scene.paddles@, ..before }),
        decreases scene.paddles@.len() - i,
    {
        let p = scene.paddles[i];
        scene.paddles.set(i, PaddleEntry { transform: advance(&p.transform, field), ..p });
        i = i + 1;
    }
    let ghost paddles_moved = scene.paddles@;
    let mut i: usize = 0;
    while i < scene.balls.len()
        invariant
            field.sized(),
            scene.paddles@ == paddles_moved,
            i <= scene.balls@.len(),
            scene.balls@.len() == before.balls.len(),
            forall|k: int| 0 <= k < i ==> #[trigger] scene.balls@[k] == moved_ball(before.balls[k], *field),
            forall|k: int| i <= k < before.balls.len() ==> #[trigger] scene.balls@[k] == before.balls[k],
            forall|k: int| 0 <= k < before.balls.len() ==> (#[trigger] before.balls[k]).valid(),
            scene@ == (SceneModel { paddles: scene.paddles@, balls: scene.balls@, ..before }),
        decreases scene.balls@.len() - i,
    {
        let b = scene.balls[i];
        if b.alive {
            scene.balls.set(i, BallEntry { transform: advance(&b.transform, field), ..b });
        }
        i = i + 1;
    }
    let ghost balls_moved = scene.balls@;
    let mut i: usize = 0;
    while i < scene.bullets.len()
        invariant
            field.sized(),
            scene.paddles@ == paddles_moved,
            scene.balls@ == balls_moved,
            i <= scene.bullets@.len(),
            scene.bullets@.len() == before.bullets.len(),
            forall|k: int| 0 <= k < i ==> #[trigger] scene.bullets@[k] == moved_bullet(before.bullets[k], *field),
            forall|k: int| i <= k < before.bullets.len() ==> #[trigger] scene.bullets@[k] == before.bullets[k],
            forall|k: int| 0 <= k < before.bullets.len() ==> (#[trigger] before.bullets[k]).valid(),
            scene@ == (SceneModel {
                paddles: scene.paddles@,
                balls: scene.balls@,
                bullets: scene.bullets@,
                ..before
            }),
        decreases scene.bullets@.len() - i,
    {
        let u = scene.bullets[i];
        if u.alive {
            scene.bullets.set(i, BulletEntry { transform: advance(&u.transform, field), ..u });
        }
        i = i + 1;
    }
    assert(scene@.paddles =~= spec_integrate(before, *field).paddles);
    assert(scene@.balls =~= spec_integrate(before, *field).balls);
    assert(scene@.bullets =~= spec_integrate(before, *field).bullets);
}

// ---------------------------------------------------------------------
// Steering
// ---------------------------------------------------------------------
/// The bullet that a shot becomes once its vertical drift is known.
pub open spec fn spec_launched(shot: Transform, drift: i32) -> BulletEntry {
    BulletEntry {
        id: None,
        alive: true,
        transform: Transform { position: shot.position, velocity: (shot.velocity.0, drift) },
        bullet: Bullet { radius: BULLET_RADIUS },
    }
}

/// The scene after paddle `k` was steered: the paddle has its new
/// velocity and cooldown and leaves a trail; if it fired, its bullet
/// joins the scene with the vertical velocity `drift`.
pub open spec fn spec_steer_paddle(
    m: SceneModel,
    k: int,
    held: Seq<u32>,
    now: i64,
    field: Field,
    drift: i32,
) -> SceneModel {
    let p = m.paddles[k];
    let s = spec_steer(
        p.transform,
        p.control,
        held,
        spec_target(p.transform.position, m.balls),
        now,
        field,
    );
    let steered = SceneModel {
        paddles: m.paddles.update(
            k,
            PaddleEntry { transform: s.transform, control: s.control, ..p },
        ),
        bursts: m.bursts.push(spec_paddle_trail(p.transform.position)),
        ..m
    };
    match s.shot {
        Some(shot) => SceneModel {
            bullets: steered.bullets.push(spec_launched(shot, drift)),
            events: steered.events.push(Event::BulletFired),
            ..steered
        },
        None => steered,
    }
}

/// The scene after its first `n` paddles were steered in order, paddle
/// `k` with the drift `drifts[offset + k]`.
pub open spec fn spec_steer_paddles(
    m: SceneModel,
    held: Seq<u32>,
    now: i64,
    field: Field,
    drifts: Seq<i32>,
    offset: int,
    n: nat,
) -> SceneModel
    decreases n,
{
    if n == 0 {
        m
    } else {
        spec_steer_paddle(
            spec_steer_paddles(m, held, now, field, drifts, offset, (n - 1) as nat),
            n - 1,
            held,
            now,
            field,
            drifts[offset + n - 1],
        )
    }
}

/// Steers paddle `k`.
pub fn steer_paddle(
    scene: &mut Scene,
    k: usize,
    input: &Input,
    now: i64,
    field: &Field,
    drift: i32,
)
    requires
        field.sized(),
        old(scene)@.valid(),
        k < old(scene)@.paddles.len(),
    ensures
        final(scene)@ == spec_steer_paddle(old(scene)@, k as int, input.held@, now, *field, drift),
        final(scene)@.valid(),
        final(scene)@.extends(old(scene)@),
        final(scene)@.state == old(scene)@.state,
        final(scene)@.balls == old(scene)@.balls,
{
    let p = scene.paddles[k];
    let target = match nearest_ball(p.transform.position, &scene.balls) {
        Some(i) => Some(scene.balls[i].transform.position),
        None => None,
    };
    let s = steer(&p.transform, &p.control, input, target, now, field);
    scene.paddles.set(k, PaddleEntry { transform: s.transform, control: s.control, ..p });
    scene.bursts.push(paddle_trail(p.transform.position));
    match s.shot {
        Some(shot) => {
            scene.bullets.push(
                BulletEntry {
                    id: None,
                    alive: true,
                    transform: Transform {
                        position: shot.position,
                        velocity: (shot.velocity.0, drift),
                    },
                    bullet: Bullet { radius: BULLET_RADIUS },
                },
            );
            scene.events.push(Event::BulletFired);
        },
        None => {},
    }
    assert(scene@ =~= spec_steer_paddle(old(scene)@, k as int, input.held@, now, *field, drift));
}

/// Steers every paddle in order: paddle `k` with the drift
/// `drifts[offset + k]`.
pub fn steer_with(
    scene: &mut Scene,
    input: &Input,
    now: i64,
    field: &Field,
    drifts: &Vec<i32>,
    offset: usize,
)
    requires
        field.sized(),
        old(scene)@.valid(),
        offset + old(scene)@.paddles.len() <= drifts@.len(),
    ensures
        final(scene)@ == spec_steer_paddles(
            old(scene)@,
            input.held@,
            now,
            *field,
            drifts@,
            offset as int,
            old(scene)@.paddles.len(),
        ),
        final(scene)@.valid(),
        final(scene)@.extends(old(scene)@),
        final(scene)@.state == old(scene)@.state,
        final(scene)@.balls == old(scene)@.balls,
{
    let ghost before = scene@;
    let n = scene.paddles.len();
    let total = drifts.len();
    let mut k: usize = 0;
    while k < n
        invariant
            field.sized(),
            k <= n,
            n == before.paddles.len(),
            total == drifts@.len(),
            offset + n <= drifts@.len(),
            scene@ == spec_steer_paddles(
                before,
                input.held@,
                now,
                *field,
                drifts@,
                offset as int,
                k as nat,
            ),
            scene@.valid(),
            scene@.extends(before),
            scene@.state == before.state,
            scene@.balls == before.balls,
        decreases n - k,
    {
        steer_paddle(scene, k, input, now, field, drifts[offset + k]);
        k = k + 1;
    }
}

// ---------------------------------------------------------------------
// Bullets
// ---------------------------------------------------------------------
/// The scene after bullet `i` was tested against ball `j`. If the bullet
/// lies inside the live ball, it knocks the ball off its course, is
/// spent, and earns one frame of hit-freeze.
pub open spec fn spec_bullet_vs_ball(m: SceneModel, i: int, j: int) -> SceneModel {
    let u = m.bullets[i];
    let b = m.balls[j];
    if b.alive && spec_meets(u.transform, b.transform, b.ball) {
        let knocked = spec_knocked(b.transform, b.ball, u.transform);
        SceneModel {
            state: m.state.spec_stunned(1),
            balls: m.balls.update(j, BallEntry { transform: knocked, ..b }),
            bullets: m.bullets.update(i, BulletEntry { alive: false, ..u }),
            bursts: m.bursts.push(spec_impact(u.transform.position, knocked.velocity)),
            events: m.events.push(Event::BulletHitBall),
            ..m
        }
    } else {
        m
    }
}

/// The scene after bullet `i` was tested against paddle `j`. The test
/// sees the paddle as it was when the pass began, in `snapshot`. If the
/// bullet touches it, the paddle shrinks, the bullet is spent, and one
/// frame of hit-freeze is earned.
pub open spec fn spec_bullet_vs_paddle(
    m: SceneModel,
    snapshot: Seq<PaddleEntry>,
    i: int,
    j: int,
) -> SceneModel {
    let u = m.bullets[i];
    let p = m.paddles[j];
    if spec_strikes(u.transform, u.bullet, snapshot[j].transform, snapshot[j].bounds) {
        SceneModel {
            state: m.state.spec_stunned(1),
            paddles: m.paddles.update(j, PaddleEntry { bounds: spec_shrunk(p.bounds), ..p }),
            bullets: m.bullets.update(i, BulletEntry { alive: false, ..u }),
            bursts: m.bursts.push(spec_impact(u.transform.position, p.transform.velocity)),
            events: m.events.push(Event::BulletHitPaddle),
            ..m
        }
    } else {
        m
    }
}

/// The scene after bullet `i` was tested against the first `n` balls.
pub open spec fn spec_bullet_vs_balls(m: SceneModel, i: int, n: nat) -> SceneModel
    decreases n,
{
    if n == 0 {
        m
    } else {
        spec_bullet_vs_ball(spec_bullet_vs_balls(m, i, (n - 1) as nat), i, n - 1)
    }
}

/// The scene after bullet `i` was tested against the first `n` paddles.
pub open spec fn spec_bullet_vs_paddles(
    m: SceneModel,
    snapshot: Seq<PaddleEntry>,
    i: int,
    n: nat,
) -> SceneModel
    decreases n,
{
    if n == 0 {
        m
    } else {
        spec_bullet_vs_paddle(
            spec_bullet_vs_paddles(m, snapshot, i, (n - 1) as nat),
            snapshot,
            i,
            n - 1,
        )
    }
}

/// The scene after bullet `i` had its turn: a live bullet is tested
/// against every ball and then against every paddle, whatever it hits
/// on the way.
pub open spec fn spec_bullet_turn(m: SceneModel, snapshot: Seq<PaddleEntry>, i: int) -> SceneModel {
    if m.bullets[i].alive {
        spec_bullet_vs_paddles(
            spec_bullet_vs_balls(m, i, m.balls.len()),
            snapshot,
            i,
            m.paddles.len(),
        )
    } else {
        m
    }
}

/// The scene after the first `n` bullets had their turns.
pub open spec fn spec_bullet_turns(m: SceneModel, snapshot: Seq<PaddleEntry>, n: nat) -> SceneModel
    decreases n,
{
    if n == 0 {
        m
    } else {
        spec_bullet_turn(spec_bullet_turns(m, snapshot, (n - 1) as nat), snapshot, n - 1)
    }
}

/// The scene after the bullets were resolved: every bullet had its turn,
/// and every test against a paddle saw the paddle as it was before the
/// first turn.
pub open spec fn spec_resolve_bullets(m: SceneModel) -> SceneModel {
    spec_bullet_turns(m, m.paddles, m.bullets.len())
}

/// What the bullet pass leaves as it is: the places and identifiers of
/// all entries, every position, and the bullets' own components.
pub open spec fn bullet_frame(after: SceneModel, before: SceneModel) -> bool {
    &&& after.valid()
    &&& after.extends(before)
    &&& after.balls.len() == before.balls.len()
    &&& after.bullets.len() == before.bullets.len()
    &&& after.state.phase == before.state.phase
    &&& after.state.left_score == before.state.left_score
    &&& after.state.right_score == before.state.right_score
    &&& after.state.hitstun >= before.state.hitstun
    &&& forall|k: int|
        0 <= k < before.paddles.len() ==> (#[trigger] after.paddles[k]).transform
            == before.paddles[k].transform
    &&& forall|k: int|
        0 <= k < before.balls.len() ==> (#[trigger] after.balls[k]).transform.position
            == before.balls[k].transform.position && after.balls[k].ball == before.balls[k].ball
            && after.balls[k].alive == before.balls[k].alive
    &&& forall|k: int|
        0 <= k < before.bullets.len() ==> (#[trigger] after.bullets[k]).transform
            == before.bullets[k].transform && after.bullets[k].bullet == before.bullets[k].bullet
}

/// Tests bullet `i` against ball `j`.
pub fn bullet_vs_ball(scene: &mut Scene, i: usize, j: usize)
    requires
        old(scene)@.valid(),
        i < old(scene)@.bullets.len(),
        j < old(scene)@.balls.len(),
    ensures
        final(scene)@ == spec_bullet_vs_ball(old(scene)@, i as int, j as int),
        bullet_frame(final(scene)@, old(scene)@),
{
    let u = scene.bullets[i];
    let b = scene.balls[j];
    if b.alive && meets(&u.transform, &b.transform, &b.ball) {
        let knocked = knock(&b.transform, &b.ball, &u.transform);
        scene.state.stun(1);
        scene.balls.set(j, BallEntry { transform: knocked, ..b });
        scene.bullets.set(i, BulletEntry { alive: false, ..u });
        scene.bursts.push(impact(u.transform.position, knocked.velocity));
        scene.events.push(Event::BulletHitBall);
    }
    assert(scene@ =~= spec_bullet_vs_ball(old(scene)@, i as int, j as int));
}

/// Tests bullet `i` against paddle `j` as `snapshot` shows it.
pub fn bullet_vs_paddle(scene: &mut Scene, snapshot: &Vec<PaddleEntry>, i: usize, j: usize)
    requires
        old(scene)@.valid(),
        i < old(scene)@.bullets.len(),
        j < old(scene)@.paddles.len(),
        snapshot@.len() == old(scene)@.paddles.len(),
        forall|k: int| 0 <= k < snapshot@.len() ==> (#[trigger] snapshot@[k]).valid(),
    ensures
        final(scene)@ == spec_bullet_vs_paddle(old(scene)@, snapshot@, i as int, j as int),
        bullet_frame(final(scene)@, old(scene)@),
{
    let u = scene.bullets[i];
    let p = scene.paddles[j];
    let seen = snapshot[j];
    if strikes(&u.transform, &u.bullet, &seen.transform, &seen.bounds) {
        scene.state.stun(1);
        scene.paddles.set(j, PaddleEntry { bounds: shrink(&p.bounds), ..p });
        scene.bullets.set(i, BulletEntry { alive: false, ..u });
        scene.bursts.push(impact(u.transform.position, p.transform.velocity));
        scene.events.push(Event::BulletHitPaddle);
    }
    assert(scene@ =~= spec_bullet_vs_paddle(old(scene)@, snapshot@, i as int, j as int));
}

/// Gives bullet `i` its turn.
pub fn bullet_turn(scene: &mut Scene, snapshot: &Vec<PaddleEntry>, i: usize)
    requires
        old(scene)@.valid(),
        i < old(scene)@.bullets.len(),
        snapshot@.len() == old(scene)@.paddles.len(),
        forall|k: int| 0 <= k < snapshot@.len() ==> (#[trigger] snapshot@[k]).valid(),
    ensures
        final(scene)@ == spec_bullet_turn(old(scene)@, snapshot@, i as int),
        bullet_frame(final(scene)@, old(scene)@),
{
    let ghost before = scene@;
    if !scene.bullets[i].alive {
        return ;
    }
    let balls = scene.balls.len();
    let mut j: usize = 0;
    while j < balls
        invariant
            j <= balls,
            balls == before.balls.len(),
            i < before.bullets.len(),
            scene@ == spec_bullet_vs_balls(before, i as int, j as nat),
            bullet_frame(scene@, before),
        decreases balls - j,
    {
        bullet_vs_ball(scene, i, j);
        j = j + 1;
    }
    let ghost midway = scene@;
    let paddles = scene.paddles.len();
    let mut j: usize = 0;
    while j < paddles
        invariant
            j <= paddles,
            paddles == before.paddles.len(),
            i < before.bullets.len(),
            snapshot@.len() == before.paddles.len(),
            forall|k: int| 0 <= k < snapshot@.len() ==> (#[trigger] snapshot@[k]).valid(),
            scene@ == spec_bullet_vs_paddles(midway, snapshot@, i as int, j as nat),
            bullet_frame(midway, before),
            bullet_frame(scene@, before),
        decreases paddles - j,
    {
        bullet_vs_paddle(scene, snapshot, i, j);
        j = j + 1;
    }
}

/// A copy of the paddles.
fn copy_paddles(paddles: &Vec<PaddleEntry>) -> (copy: Vec<PaddleEntry>)
    ensures
        copy@ == paddles@,
{
    let mut copy: Vec<PaddleEntry> = Vec::new();
    let mut k: usize = 0;
    while k < paddles.len()
        invariant
            k <= paddles@.len(),
            copy@ == paddles@.take(k as int),
        decreases paddles@.len() - k,
    {
        copy.push(paddles[k]);
        assert(paddles@.take(k + 1) =~= paddles@.take(k as int).push(paddles@[k as int]));
        k = k + 1;
    }
    assert(paddles@.take(paddles@.len() as int) =~= paddles@);
    copy
}

/// Resolves the bullets against the balls and the paddles.
pub fn resolve_bullets(scene: &mut Scene)
    requires
        old(scene)@.valid(),
    ensures
        final(scene)@ == spec_resolve_bullets(old(scene)@),
        bullet_frame(final(scene)@, old(scene)@),
{
    let ghost before = scene@;
    let snapshot = copy_paddles(&scene.paddles);
    let bullets = scene.bullets.len();
    let mut i: usize = 0;
    while i < bullets
        invariant
            i <= bullets,
            bullets == before.bullets.len(),
            snapshot@ == before.paddles,
            before.valid(),
            scene@ == spec_bullet_turns(before, snapshot@, i as nat),
            bullet_frame(scene@, before),
        decreases bullets - i,
    {
        bullet_turn(scene, &snapshot, i);
        i = i + 1;
    }
}

// ---------------------------------------------------------------------
// Balls
// ---------------------------------------------------------------------
/// The scene after ball `j` was tested against paddle `k`. If the ball
/// touches the paddle, it speeds up and is sent off in the paddle's
/// direction, and earns hit-freeze in proportion to its new speed.
pub open spec fn spec_ball_vs_paddle(m: SceneModel, j: int, k: int) -> SceneModel {
    let b = m.balls[j];
    let p = m.paddles[k];
    if spec_touches(b.transform, b.ball, p.transform, p.bounds) {
        let out = spec_bounced(b.transform, b.ball, p.transform, p.bounds);
        SceneModel {
            state: m.state.spec_stunned(spec_jolt(out.1.speed as int)),
            balls: m.balls.update(j, BallEntry { transform: out.0, ball: out.1, ..b }),
            bursts: m.bursts.push(spec_spray(out.0)),
            events: m.events.push(Event::BallHitPaddle),
            ..m
        }
    } else {
        m
    }
}

/// The scene after ball `j` was tested against the first `n` paddles.
pub open spec fn spec_ball_vs_paddles(m: SceneModel, j: int, n: nat) -> SceneModel
    decreases n,
{
    if n == 0 {
        m
    } else {
        spec_ball_vs_paddle(spec_ball_vs_paddles(m, j, (n - 1) as nat), j, n - 1)
    }
}

/// Whether ball `j` scores now: a round is being played and the ball is
/// past the left or the right edge.
pub open spec fn spec_scores(m: SceneModel, j: int, field: Field) -> bool {
    m.state.phase == Phase::Ongoing && spec_goal(m.balls[j].transform.position.0 as int, field)
        is Some
}

/// The scene after ball `j` has scored: the round is over, the ball is
/// gone, and a burst marks the place.
pub open spec fn spec_goal_scored(m: SceneModel, j: int, field: Field) -> SceneModel {
    let b = m.balls[j];
    let side = spec_goal(b.transform.position.0 as int, field)->0;
    SceneModel {
        state: m.state.spec_scored(side),
        balls: m.balls.update(j, BallEntry { alive: false, ..b }),
        bursts: m.bursts.push(spec_fanfare(b.transform, side)),
        events: m.events.push(Event::Goal),
        ..m
    }
}

/// The scene after ball `j` was reflected off the top and bottom edges.
pub open spec fn spec_walled(m: SceneModel, j: int, field: Field) -> SceneModel {
    let b = m.balls[j];
    SceneModel {
        balls: m.balls.update(
            j,
            BallEntry { transform: spec_bounce_off_walls(b.transform, field), ..b },
        ),
        events: if b.transform.position.1 < 0 || b.transform.position.1 > field.height {
            m.events.push(Event::BallHitWall)
        } else {
            m.events
        },
        ..m
    }
}

/// The scene after ball `j` has added its speed to the intensity and
/// left its trail.
pub open spec fn spec_trailed(m: SceneModel, j: int) -> SceneModel {
    let b = m.balls[j];
    let total = to_i64(m.state.intensity + b.ball.speed);
    SceneModel {
        state: GameState { intensity: total, ..m.state },
        bursts: m.bursts.push(spec_ball_trail(b.transform.position, total)),
        ..m
    }
}

/// The scene after ball `j` had its turn. A ball that scores does
/// nothing else. Any other live ball bounces off the walls, then off
/// every paddle it touches, and leaves its trail.
pub open spec fn spec_ball_turn(m: SceneModel, j: int, field: Field) -> SceneModel {
    if !m.balls[j].alive {
        m
    } else if spec_scores(m, j, field) {
        spec_goal_scored(m, j, field)
    } else {
        spec_trailed(
            spec_ball_vs_paddles(spec_walled(m, j, field), j, m.paddles.len()),
            j,
        )
    }
}

/// The scene after the first `n` balls had their turns.
pub open spec fn spec_ball_turns(m: SceneModel, field: Field, n: nat) -> SceneModel
    decreases n,
{
    if n == 0 {
        m
    } else {
        spec_ball_turn(spec_ball_turns(m, field, (n - 1) as nat), n - 1, field)
    }
}

/// The scene with the given intensity.
pub open spec fn with_intensity(m: SceneModel, intensity: i64) -> SceneModel {
    SceneModel { state: GameState { intensity, ..m.state }, ..m }
}

/// The scene after the balls were resolved: the intensity starts from
/// zero, every ball has its turn, and the summed speed is multiplied by
/// four.
pub open spec fn spec_resolve_balls(m: SceneModel, field: Field) -> SceneModel {
    let done = spec_ball_turns(with_intensity(m, 0), field, m.balls.len());
    with_intensity(done, to_i64(4 * done.state.intensity))
}

/// How many of the first `n` paddles ball `j` touches.
pub open spec fn spec_hits(m: SceneModel, j: int, n: nat) -> nat
    decreases n,
{
    if n == 0 {
        0
    } else {
        spec_hits(m, j, (n - 1) as nat) + if spec_touches(
            m.balls[j].transform,
            m.balls[j].ball,
            m.paddles[n - 1].transform,
            m.paddles[n - 1].bounds,
        ) {
            1nat
        } else {
            0nat
        }
    }
}

/// How many paddles ball `j` touches in its turn: those that it touches
/// from where the walls leave it.
pub open spec fn spec_paddle_hits(m: SceneModel, j: int, field: Field) -> nat {
    spec_hits(spec_walled(m, j, field), j, m.paddles.len())
}

/// What a ball's turn against the paddles leaves as it is: everything
/// but the ball itself, the hit-freeze, the bursts and the events; and of
/// the ball its place, its radius and whether it is alive.
pub open spec fn only_ball_changed(after: SceneModel, before: SceneModel, j: int) -> bool {
    &&& after.paddles == before.paddles
    &&& after.bullets == before.bullets
    &&& after.balls.len() == before.balls.len()
    &&& forall|i: int|
        0 <= i < before.balls.len() && i != j ==> #[trigger] after.balls[i] == before.balls[i]
    &&& after.balls[j].id == before.balls[j].id
    &&& after.balls[j].alive == before.balls[j].alive
    &&& after.balls[j].transform.position == before.balls[j].transform.position
    &&& after.balls[j].ball.radius == before.balls[j].ball.radius
    &&& after.state.phase == before.state.phase
    &&& after.state.left_score == before.state.left_score
    &&& after.state.right_score == before.state.right_score
    &&& after.state.intensity == before.state.intensity
}

/// The number of paddles that a ball touches depends on the paddles and
/// on the ball's place and radius alone.
pub proof fn lemma_hits_depend_on_place(a: SceneModel, b: SceneModel, j: int, n: nat)
    requires
        a.paddles == b.paddles,
        a.balls[j].transform.position == b.balls[j].transform.position,
        a.balls[j].ball.radius == b.balls[j].ball.radius,
    ensures
        spec_hits(a, j, n) == spec_hits(b, j, n),
    decreases n,
{
    if n > 0 {
        lemma_hits_depend_on_place(a, b, j, (n - 1) as nat);
    }
}

/// A ball leaves the paddles with the speed that as many hits give as it
/// touched paddles: each paddle that it touches raises its speed once,
/// and a paddle that it does not touch changes nothing.
pub proof fn lemma_hits_raise_speed(m: SceneModel, j: int, n: nat)
    requires
        0 <= j < m.balls.len(),
        n <= m.paddles.len(),
        m.balls[j].ball.speed > 0,
    ensures
        only_ball_changed(spec_ball_vs_paddles(m, j, n), m, j),
        spec_ball_vs_paddles(m, j, n).balls[j].ball.speed == speed_after(
            m.balls[j].ball.speed as int,
            spec_hits(m, j, n),
        ),
    decreases n,
{
    if n > 0 {
        let prev = spec_ball_vs_paddles(m, j, (n - 1) as nat);
        lemma_hits_raise_speed(m, j, (n - 1) as nat);
        let hits = spec_hits(m, j, (n - 1) as nat);
        lemma_speed_never_drops(m.balls[j].ball.speed as int, 0, hits);
        lemma_faster_grows(prev.balls[j].ball.speed as int);
        let next = spec_ball_vs_paddle(prev, j, n - 1);
        assert(next == spec_ball_vs_paddles(m, j, n));
        assert(spec_touches(
            prev.balls[j].transform,
            prev.balls[j].ball,
            prev.paddles[n - 1].transform,
            prev.paddles[n - 1].bounds,
        ) == spec_touches(
            m.balls[j].transform,
            m.balls[j].ball,
            m.paddles[n - 1].transform,
            m.paddles[n - 1].bounds,
        ));
    }
}

/// The speed of a live ball after its turn, unless it scores, is the
/// speed that as many hits give as it touched paddles in the turn. Below
/// the largest speed there is, it is the speed before exactly when the
/// ball touched no paddle, and higher otherwise.
pub proof fn lemma_ball_turn_speed(m: SceneModel, j: int, field: Field)
    requires
        0 <= j < m.balls.len(),
        m.balls[j].alive,
        m.balls[j].ball.speed > 0,
        !spec_scores(m, j, field),
    ensures
        ({
            let after = spec_ball_turn(m, j, field);
            let before = m.balls[j].ball.speed;
            let hits = spec_paddle_hits(m, j, field);
            &&& after.balls[j].alive
            &&& after.balls[j].ball.speed == speed_after(before as int, hits)
            &&& after.balls[j].ball.speed >= before
            &&& (before < i32::MAX ==> (after.balls[j].ball.speed == before <==> hits == 0))
            &&& after.paddles == m.paddles
            &&& after.bullets == m.bullets
            &&& after.balls.len() == m.balls.len()
            &&& forall|i: int|
                0 <= i < m.balls.len() && i != j ==> #[trigger] after.balls[i] == m.balls[i]
        }),
{
    let walled = spec_walled(m, j, field);
    lemma_hits_raise_speed(walled, j, m.paddles.len());
    let before = m.balls[j].ball.speed as int;
    let hits = spec_paddle_hits(m, j, field);
    lemma_speed_never_drops(before, 0, hits);
    if before < i32::MAX {
        lemma_speed_tells_hits(before, hits);
    }
}

/// What the ball pass does to the speed of each ball. A ball that is
/// alive after the pass was alive before it, and has the speed that as
/// many hits give as it touched paddles in its turn; a ball that was not
/// alive is as it was. The pass leaves the paddles and the bullets as
/// they are.
pub proof fn lemma_ball_pass_speed(m: SceneModel, field: Field, n: nat)
    requires
        n <= m.balls.len(),
        forall|i: int| 0 <= i < m.balls.len() ==> (#[trigger] m.balls[i]).ball.speed > 0,
    ensures
        ({
            let after = spec_ball_turns(with_intensity(m, 0), field, n);
            &&& after.paddles == m.paddles
            &&& after.bullets == m.bullets
            &&& after.balls.len() == m.balls.len()
            &&& forall|i: int| n <= i < m.balls.len() ==> #[trigger] after.balls[i] == m.balls[i]
            &&& forall|i: int|
                0 <= i < n && (#[trigger] after.balls[i]).alive ==> m.balls[i].alive
                    && after.balls[i].ball.speed == speed_after(
                    m.balls[i].ball.speed as int,
                    spec_paddle_hits(m, i, field),
                )
            &&& forall|i: int|
                0 <= i < n && !m.balls[i].alive ==> #[trigger] after.balls[i] == m.balls[i]
        }),
    decreases n,
{
    if n > 0 {
        let j = n - 1;
        let prev = spec_ball_turns(with_intensity(m, 0), field, (n - 1) as nat);
        lemma_ball_pass_speed(m, field, (n - 1) as nat);
        let after = spec_ball_turn(prev, j, field);
        assert(after == spec_ball_turns(with_intensity(m, 0), field, n));
        assert(prev.balls[j] == m.balls[j]);
        if prev.balls[j].alive && !spec_scores(prev, j, field) {
            lemma_ball_turn_speed(prev, j, field);
            lemma_hits_depend_on_place(
                spec_walled(prev, j, field),
                spec_walled(m, j, field),
                j,
                m.paddles.len(),
            );
        }
        assert forall|i: int| 0 <= i < n && (#[trigger] after.balls[i]).alive implies m.balls[i].alive
            && after.balls[i].ball.speed == speed_after(
            m.balls[i].ball.speed as int,
            spec_paddle_hits(m, i, field),
        ) by {
            if i < j {
                assert(after.balls[i] == prev.balls[i]);
            }
        }
        assert forall|i: int| 0 <= i < n && !m.balls[i].alive implies #[trigger] after.balls[i]
            == m.balls[i] by {
            if i < j {
                assert(after.balls[i] == prev.balls[i]);
            }
        }
    }
}

/// Over a ball pass, a ball that stays alive keeps its speed exactly when
/// it touches no paddle in its turn, and leaves faster otherwise, unless
/// it is at the largest speed there is.
pub proof fn lemma_speed_rises_with_hits(m: SceneModel, field: Field, j: int)
    requires
        0 <= j < m.balls.len(),
        forall|i: int| 0 <= i < m.balls.len() ==> (#[trigger] m.balls[i]).ball.speed > 0,
        spec_resolve_balls(m, field).balls[j].alive,
    ensures
        ({
            let after = spec_resolve_balls(m, field).balls[j].ball.speed;
            let before = m.balls[j].ball.speed;
            let hits = spec_paddle_hits(m, j, field);
            &&& m.balls[j].alive
            &&& after == speed_after(before as int, hits)
            &&& after >= before
            &&& (before < i32::MAX ==> (after == before <==> hits == 0))
        }),
{
    lemma_ball_pass_speed(m, field, m.balls.len());
    let done = spec_ball_turns(with_intensity(m, 0), field, m.balls.len());
    assert(spec_resolve_balls(m, field).balls == done.balls);
    assert(done.balls[j].alive);
    let before = m.balls[j].ball.speed as int;
    let hits = spec_paddle_hits(m, j, field);
    lemma_speed_never_drops(before, 0, hits);
    if before < i32::MAX {
        lemma_speed_tells_hits(before, hits);
    }
}

/// What the ball pass leaves as it is, and the ways in which it may
/// change the match: a score never drops, and the phase changes only
/// from a round that is being played to a win.
pub open spec fn ball_frame(after: SceneModel, before: SceneModel) -> bool {
    &&& after.valid()
    &&& after.extends(before)
    &&& after.balls.len() == before.balls.len()
    &&& after.paddles == before.paddles
    &&& after.bullets == before.bullets
    &&& after.state.left_score >= before.state.left_score
    &&& after.state.right_score >= before.state.right_score
    &&& (after.state.phase != before.state.phase ==> before.state.phase == Phase::Ongoing && (
    after.state.phase == Phase::LeftWin || after.state.phase == Phase::RightWin))
    &&& (after.state.phase == before.state.phase ==> after.state.left_score
        == before.state.left_score && after.state.right_score == before.state.right_score)
    &&& (after.state.phase != before.state.phase && after.state.phase == Phase::LeftWin
        ==> after.state.left_score == bounded_sum(before.state.left_score as int, 1)
        && after.state.right_score == before.state.right_score)
    &&& (after.state.phase != before.state.phase && after.state.phase == Phase::RightWin
        ==> after.state.right_score == bounded_sum(before.state.right_score as int, 1)
        && after.state.left_score == before.state.left_score)
    &&& forall|k: int|
        0 <= k < before.balls.len() ==> (#[trigger] after.balls[k]).ball.speed
            >= before.balls[k].ball.speed
    &&& after.state.hitstun >= before.state.hitstun
}

/// Tests ball `j` against paddle `k`.
pub fn ball_vs_paddle(scene: &mut Scene, j: usize, k: usize)
    requires
        old(scene)@.valid(),
        j < old(scene)@.balls.len(),
        k < old(scene)@.paddles.len(),
    ensures
        final(scene)@ == spec_ball_vs_paddle(old(scene)@, j as int, k as int),
        ball_frame(final(scene)@, old(scene)@),
        final(scene)@.state.phase == old(scene)@.state.phase,
        final(scene)@.balls[j as int].ball.speed == (if spec_touches(
            old(scene)@.balls[j as int].transform,
            old(scene)@.balls[j as int].ball,
            old(scene)@.paddles[k as int].transform,
            old(scene)@.paddles[k as int].bounds,
        ) {
            spec_faster(old(scene)@.balls[j as int].ball.speed as int)
        } else {
            old(scene)@.balls[j as int].ball.speed as int
        }),
{
    let b = scene.balls[j];
    let p = scene.paddles[k];
    if touches(&b.transform, &b.ball, &p.transform, &p.bounds) {
        let out = bounce(&b.transform, &b.ball, &p.transform, &p.bounds);
        scene.state.stun(jolt(out.1.speed));
        scene.balls.set(j, BallEntry { transform: out.0, ball: out.1, ..b });
        scene.bursts.push(spray(&out.0));
        scene.events.push(Event::BallHitPaddle);
    }
    assert(scene@ =~= spec_ball_vs_paddle(old(scene)@, j as int, k as int));
}

/// Gives ball `j` its turn.
pub fn ball_turn(scene: &mut Scene, j: usize, field: &Field)
    requires
        field.sized(),
        old(scene)@.valid(),
        j < old(scene)@.balls.len(),
    ensures
        final(scene)@ == spec_ball_turn(old(scene)@, j as int, *field),
        ball_frame(final(scene)@, old(scene)@),
{
    let ghost before = scene@;
    let b = scene.balls[j];
    if !b.alive {
        return ;
    }
    if matches!(scene.state.phase, Phase::Ongoing) {
        match goal(b.transform.position.0, field) {
            Some(side) => {
                scene.state.score(side);
                scene.balls.set(j, BallEntry { alive: false, ..b });
                scene.bursts.push(fanfare(&b.transform, side));
                scene.events.push(Event::Goal);
                assert(scene@ =~= spec_goal_scored(before, j as int, *field));
                return ;
            },
            None => {},
        }
    }
    let walled = bounce_off_walls(&b.transform, field);
    scene.balls.set(j, BallEntry { transform: walled.0, ..b });
    if walled.1 {
        scene.events.push(Event::BallHitWall);
    }
    assert(scene@ =~= spec_walled(before, j as int, *field));
    let ghost midway = scene@;
    let paddles = scene.paddles.len();
    let mut k: usize = 0;
    while k < paddles
        invariant
            k <= paddles,
            paddles == midway.paddles.len(),
            j < midway.balls.len(),
            scene@ == spec_ball_vs_paddles(midway, j as int, k as nat),
            ball_frame(scene@, midway),
            scene@.state.phase == midway.state.phase,
        decreases paddles - k,
    {
        ball_vs_paddle(scene, j, k);
        k = k + 1;
    }
    let ghost hit = scene@;
    let now = scene.balls[j];
    let total = clamp_i64(scene.state.intensity as i128 + now.ball.speed as i128);
    scene.state.intensity = total;
    scene.bursts.push(ball_trail(now.transform.position, total));
    assert(scene@ =~= spec_trailed(hit, j as int));
}

/// Resolves the balls: goals, wall bounces and paddle bounces.
pub fn resolve_balls(scene: &mut Scene, field: &Field)
    requires
        field.sized(),
        old(scene)@.valid(),
    ensures
        final(scene)@ == spec_resolve_balls(old(scene)@, *field),
        ball_frame(final(scene)@, old(scene)@),
        forall|j: int|
            0 <= j < old(scene)@.balls.len() && (#[trigger] final(scene)@.balls[j]).alive ==> old(
                scene,
            )@.balls[j].alive && final(scene)@.balls[j].ball.speed == speed_after(
                old(scene)@.balls[j].ball.speed as int,
                spec_paddle_hits(old(scene)@, j, *field),
            ),
{
    let ghost before = scene@;
    scene.state.intensity = 0;
    let ghost zeroed = scene@;
    assert(zeroed =~= with_intensity(before, 0));
    let balls = scene.balls.len();
    let mut j: usize = 0;
    while j < balls
        invariant
            field.sized(),
            j <= balls,
            balls == zeroed.balls.len(),
            scene@ == spec_ball_turns(zeroed, *field, j as nat),
            ball_frame(scene@, zeroed),
        decreases balls - j,
    {
        ball_turn(scene, j, field);
        j = j + 1;
    }
    let ghost done = scene@;
    scene.state.intensity = clamp_i64(4 * (scene.state.intensity as i128));
    assert(scene@ =~= with_intensity(done, to_i64(4 * done.state.intensity)));
    proof {
        assert forall|i: int| 0 <= i < before.balls.len() implies (
        #[trigger] before.balls[i]).ball.speed > 0 by {
            assert(before.balls[i].valid());
        }
        assert forall|j: int|
            0 <= j < before.balls.len() && (#[trigger] scene@.balls[j]).alive implies before.balls[j].alive
            && scene@.balls[j].ball.speed == speed_after(
            before.balls[j].ball.speed as int,
            spec_paddle_hits(before, j, *field),
        ) by {
            lemma_speed_rises_with_hits(before, *field, j);
        }
    }
}

// ---------------------------------------------------------------------
// The frame
// ---------------------------------------------------------------------
/// The ball that is served on `field` in the given direction.
pub open spec fn spec_served_ball(field: Field, direction: int) -> BallEntry {
    let speed = (field.width / SERVE_DIVISOR) as i32;
    BallEntry {
        id: None,
        alive: true,
        transform: Transform {
            position: ((field.width / 2) as i32, (field.height / 2) as i32),
            velocity: ((direction * speed) as i32, 0),
        },
        ball: Ball { radius: BALL_RADIUS, speed },
    }
}

/// The scene after a serve: a new ball sits at the centre of the field
/// and moves toward the side that did not win the last round, every
/// paddle is whole again, and a round is being played.
pub open spec fn spec_serve(m: SceneModel, field: Field) -> SceneModel {
    SceneModel {
        state: GameState { phase: Phase::Ongoing, ..m.state },
        paddles: Seq::new(
            m.paddles.len(),
            |k: int| PaddleEntry { bounds: Bounds(PADDLE_WIDTH, PADDLE_HEIGHT), ..m.paddles[k] },
        ),
        balls: m.balls.push(spec_served_ball(field, m.state.spec_serve_direction())),
        ..m
    }
}

/// One substep: motion, steering, bullets, balls.
pub open spec fn spec_substep(
    m: SceneModel,
    held: Seq<u32>,
    now: i64,
    field: Field,
    drifts: Seq<i32>,
    offset: int,
) -> SceneModel {
    spec_resolve_balls(
        spec_resolve_bullets(
            spec_steer_paddles(
                spec_integrate(m, field),
                held,
                now,
                field,
                drifts,
                offset,
                m.paddles.len(),
            ),
        ),
        field,
    )
}

/// The scene after `n` substeps. Substep `s` takes its drifts from
/// `drifts` at `s` times the number of paddles.
pub open spec fn spec_substeps(
    m: SceneModel,
    held: Seq<u32>,
    now: i64,
    field: Field,
    drifts: Seq<i32>,
    n: nat,
) -> SceneModel
    decreases n,
{
    if n == 0 {
        m
    } else {
        spec_substep(
            spec_substeps(m, held, now, field, drifts, (n - 1) as nat),
            held,
            now,
            field,
            drifts,
            (n - 1) * m.paddles.len(),
        )
    }
}

/// The field is fit for the next frame of a match in the given state:
/// nothing is asked of it while hit-freeze lasts, it is sized where the
/// substeps run, and valid where a ball is served.
pub open spec fn fit_for_frame(field: Field, state: GameState, start: bool) -> bool {
    state.hitstun > 0 || (field.sized() && (start && state.spec_can_serve() ==> field.valid()))
}

/// The scene with one frame of hit-freeze less.
pub open spec fn spec_cooled(m: SceneModel) -> SceneModel {
    SceneModel { state: GameState { hitstun: (m.state.hitstun - 1) as i32, ..m.state }, ..m }
}

/// The scene after one frame. While hit-freeze lasts, the frame only
/// counts it down. Otherwise a start signal outside a round serves a
/// ball, and three substeps follow.
pub open spec fn spec_frame(
    m: SceneModel,
    start: bool,
    held: Seq<u32>,
    now: i64,
    field: Field,
    drifts: Seq<i32>,
) -> SceneModel {
    if m.state.hitstun > 0 {
        spec_cooled(m)
    } else {
        spec_substeps(
            if start && m.state.spec_can_serve() {
                spec_serve(m, field)
            } else {
                m
            },
            held,
            now,
            field,
            drifts,
            SUBSTEPS as nat,
        )
    }
}

/// The scene after `k` frames with the same input.
pub open spec fn spec_frames(
    m: SceneModel,
    start: bool,
    held: Seq<u32>,
    now: i64,
    field: Field,
    drifts: Seq<i32>,
    k: nat,
) -> SceneModel
    decreases k,
{
    if k == 0 {
        m
    } else {
        spec_frame(
            spec_frames(m, start, held, now, field, drifts, (k - 1) as nat),
            start,
            held,
            now,
            field,
            drifts,
        )
    }
}

/// While hit-freeze lasts, frames count it down and change nothing else,
/// whatever the input: a scene with at least `k` frames of hit-freeze is,
/// `k` frames later, the same scene with `k` frames of hit-freeze less.
pub proof fn lemma_freeze_lasts(
    m: SceneModel,
    start: bool,
    held: Seq<u32>,
    now: i64,
    field: Field,
    drifts: Seq<i32>,
    k: nat,
)
    requires
        m.state.hitstun >= k,
    ensures
        spec_frames(m, start, held, now, field, drifts, k) == (SceneModel {
            state: GameState { hitstun: (m.state.hitstun - k) as i32, ..m.state },
            ..m
        }),
    decreases k,
{
    if k > 0 {
        lemma_freeze_lasts(m, start, held, now, field, drifts, (k - 1) as nat);
    }
}

/// `t` after `n` substeps of motion.
pub open spec fn spec_advanced(t: Transform, field: Field, n: nat) -> Transform
    decreases n,
{
    if n == 0 {
        t
    } else {
        spec_advance(spec_advanced(t, field, (n - 1) as nat), field)
    }
}

/// What steering and the resolver passes leave of the bullets that they
/// find: each keeps its place, its identifier, its transform and its
/// radius, and none comes back to life.
pub open spec fn bullets_kept(after: SceneModel, before: SceneModel) -> bool {
    &&& after.bullets.len() >= before.bullets.len()
    &&& forall|k: int|
        0 <= k < before.bullets.len() ==> {
            &&& (#[trigger] after.bullets[k]).id == before.bullets[k].id
            &&& after.bullets[k].transform == before.bullets[k].transform
            &&& after.bullets[k].bullet == before.bullets[k].bullet
            &&& (after.bullets[k].alive ==> before.bullets[k].alive)
        }
}

/// `bullets_kept`, as many paddles, balls and bullets as before, and of
/// every ball all but its velocity.
pub open spec fn counts_kept(after: SceneModel, before: SceneModel) -> bool {
    &&& bullets_kept(after, before)
    &&& after.bullets.len() == before.bullets.len()
    &&& after.balls.len() == before.balls.len()
    &&& after.paddles.len() == before.paddles.len()
    &&& forall|k: int|
        0 <= k < before.balls.len() ==> {
            &&& (#[trigger] after.balls[k]).id == before.balls[k].id
            &&& after.balls[k].alive == before.balls[k].alive
            &&& after.balls[k].ball == before.balls[k].ball
            &&& after.balls[k].transform.position == before.balls[k].transform.position
        }
}

/// What a span of the frame makes of the bullets that it finds, where
/// the span moves every live entity `n` times: a bullet that is alive
/// after it was alive before it and has moved `n` times, and a bullet
/// that was not alive is as it was.
pub open spec fn bullets_moved(after: SceneModel, before: SceneModel, field: Field, n: nat) -> bool {
    &&& after.bullets.len() >= before.bullets.len()
    &&& forall|k: int|
        0 <= k < before.bullets.len() ==> {
            &&& (#[trigger] after.bullets[k]).id == before.bullets[k].id
            &&& after.bullets[k].bullet == before.bullets[k].bullet
            &&& (after.bullets[k].alive ==> before.bullets[k].alive && after.bullets[k].transform
                == spec_advanced(before.bullets[k].transform, field, n))
            &&& (!before.bullets[k].alive ==> after.bullets[k] == before.bullets[k])
        }
}

/// Steering leaves the bullets that it finds as they are.
pub proof fn lemma_steer_keeps_bullets(
    m: SceneModel,
    held: Seq<u32>,
    now: i64,
    field: Field,
    drifts: Seq<i32>,
    offset: int,
    n: nat,
)
    ensures
        bullets_kept(spec_steer_paddles(m, held, now, field, drifts, offset, n), m),
        spec_steer_paddles(m, held, now, field, drifts, offset, n).balls == m.balls,
        forall|k: int|
            0 <= k < m.bullets.len() ==> #[trigger] spec_steer_paddles(
                m,
                held,
                now,
                field,
                drifts,
                offset,
                n,
            ).bullets[k] == m.bullets[k],
    decreases n,
{
    if n > 0 {
        lemma_steer_keeps_bullets(m, held, now, field, drifts, offset, (n - 1) as nat);
    }
}

proof fn lemma_bullet_vs_balls_keeps(m: SceneModel, i: int, n: nat)
    requires
        0 <= i < m.bullets.len(),
        n <= m.balls.len(),
    ensures
        counts_kept(spec_bullet_vs_balls(m, i, n), m),
    decreases n,
{
    if n > 0 {
        lemma_bullet_vs_balls_keeps(m, i, (n - 1) as nat);
    }
}

proof fn lemma_bullet_vs_paddles_keeps(m: SceneModel, snapshot: Seq<PaddleEntry>, i: int, n: nat)
    requires
        0 <= i < m.bullets.len(),
        n <= m.paddles.len(),
    ensures
        counts_kept(spec_bullet_vs_paddles(m, snapshot, i, n), m),
    decreases n,
{
    if n > 0 {
        lemma_bullet_vs_paddles_keeps(m, snapshot, i, (n - 1) as nat);
    }
}

proof fn lemma_bullet_turns_keep(m: SceneModel, snapshot: Seq<PaddleEntry>, n: nat)
    requires
        n <= m.bullets.len(),
    ensures
        counts_kept(spec_bullet_turns(m, snapshot, n), m),
    decreases n,
{
    if n > 0 {
        let prev = spec_bullet_turns(m, snapshot, (n - 1) as nat);
        lemma_bullet_turns_keep(m, snapshot, (n - 1) as nat);
        if prev.bullets[n - 1].alive {
            let midway = spec_bullet_vs_balls(prev, n - 1, prev.balls.len());
            lemma_bullet_vs_balls_keeps(prev, n - 1, prev.balls.len());
            lemma_bullet_vs_paddles_keeps(midway, snapshot, n - 1, prev.paddles.len());
        }
    }
}

/// The bullet pass leaves every bullet where it is: all that it changes
/// of a bullet is whether it is alive.
pub proof fn lemma_bullet_pass_keeps_bullets(m: SceneModel)
    ensures
        counts_kept(spec_resolve_bullets(m), m),
{
    lemma_bullet_turns_keep(m, m.paddles, m.bullets.len());
}

proof fn lemma_ball_vs_paddles_keeps_bullets(m: SceneModel, j: int, n: nat)
    ensures
        spec_ball_vs_paddles(m, j, n).bullets == m.bullets,
    decreases n,
{
    if n > 0 {
        lemma_ball_vs_paddles_keeps_bullets(m, j, (n - 1) as nat);
    }
}

proof fn lemma_ball_turns_keep_bullets(m: SceneModel, field: Field, n: nat)
    ensures
        spec_ball_turns(m, field, n).bullets == m.bullets,
    decreases n,
{
    if n > 0 {
        let prev = spec_ball_turns(m, field, (n - 1) as nat);
        lemma_ball_turns_keep_bullets(m, field, (n - 1) as nat);
        lemma_ball_vs_paddles_keeps_bullets(
            spec_walled(prev, n - 1, field),
            n - 1,
            prev.paddles.len(),
        );
    }
}

/// The ball pass leaves the bullets as they are.
pub proof fn lemma_ball_pass_keeps_bullets(m: SceneModel, field: Field)
    ensures
        spec_resolve_balls(m, field).bullets == m.bullets,
{
    lemma_ball_turns_keep_bullets(with_intensity(m, 0), field, m.balls.len());
}

/// A substep moves every live bullet once, whatever else happens in it:
/// a bullet that is alive after the substep has the position that one
/// step of motion gives, and its velocity.
pub proof fn lemma_substep_moves_bullets(
    m: SceneModel,
    held: Seq<u32>,
    now: i64,
    field: Field,
    drifts: Seq<i32>,
    offset: int,
)
    ensures
        bullets_moved(spec_substep(m, held, now, field, drifts, offset), m, field, 1),
{
    let moved = spec_integrate(m, field);
    let steered = spec_steer_paddles(moved, held, now, field, drifts, offset, m.paddles.len());
    let shot = spec_resolve_bullets(steered);
    let after = spec_resolve_balls(shot, field);
    lemma_steer_keeps_bullets(moved, held, now, field, drifts, offset, m.paddles.len());
    lemma_bullet_pass_keeps_bullets(steered);
    lemma_ball_pass_keeps_bullets(shot, field);
    assert(after == spec_substep(m, held, now, field, drifts, offset));
    assert forall|k: int| 0 <= k < m.bullets.len() implies {
        &&& (#[trigger] after.bullets[k]).id == m.bullets[k].id
        &&& after.bullets[k].bullet == m.bullets[k].bullet
        &&& (after.bullets[k].alive ==> m.bullets[k].alive && after.bullets[k].transform
            == spec_advanced(m.bullets[k].transform, field, 1))
        &&& (!m.bullets[k].alive ==> after.bullets[k] == m.bullets[k])
    } by {
        assert(moved.bullets[k] == moved_bullet(m.bullets[k], field));
        assert(steered.bullets[k] == moved.bullets[k]);
        assert(shot.bullets[k].transform == steered.bullets[k].transform);
        assert(spec_advanced(m.bullets[k].transform, field, 1) == spec_advance(
            spec_advanced(m.bullets[k].transform, field, 0),
            field,
        ));
    }
}

/// Over a substep, a ball that stays alive keeps its speed exactly when
/// it touches no paddle, and leaves faster otherwise, unless it is at
/// the largest speed there is: its speed after the substep is the speed
/// that as many hits give as it touched paddles in the ball pass.
pub proof fn lemma_substep_speed(
    m: SceneModel,
    held: Seq<u32>,
    now: i64,
    field: Field,
    drifts: Seq<i32>,
    offset: int,
    j: int,
)
    requires
        0 <= j < m.balls.len(),
        forall|i: int| 0 <= i < m.balls.len() ==> (#[trigger] m.balls[i]).ball.speed > 0,
        spec_substep(m, held, now, field, drifts, offset).balls[j].alive,
    ensures
        ({
            let seen = spec_resolve_bullets(
                spec_steer_paddles(
                    spec_integrate(m, field),
                    held,
                    now,
                    field,
                    drifts,
                    offset,
                    m.paddles.len(),
                ),
            );
            let after = spec_substep(m, held, now, field, drifts, offset).balls[j].ball.speed;
            let before = m.balls[j].ball.speed;
            let hits = spec_paddle_hits(seen, j, field);
            &&& m.balls[j].alive
            &&& after == speed_after(before as int, hits)
            &&& after >= before
            &&& (before < i32::MAX ==> (after == before <==> hits == 0))
        }),
{
    let moved = spec_integrate(m, field);
    let steered = spec_steer_paddles(moved, held, now, field, drifts, offset, m.paddles.len());
    let seen = spec_resolve_bullets(steered);
    lemma_steer_keeps_bullets(moved, held, now, field, drifts, offset, m.paddles.len());
    lemma_bullet_pass_keeps_bullets(steered);
    assert forall|i: int| 0 <= i < seen.balls.len() implies (#[trigger] seen.balls[i]).ball
        == m.balls[i].ball && seen.balls[i].alive == m.balls[i].alive by {
        assert(moved.balls[i] == moved_ball(m.balls[i], field));
        assert(steered.balls[i] == moved.balls[i]);
    }
    lemma_speed_rises_with_hits(seen, field, j);
}

/// Substeps move every live bullet once each.
pub proof fn lemma_substeps_move_bullets(
    m: SceneModel,
    held: Seq<u32>,
    now: i64,
    field: Field,
    drifts: Seq<i32>,
    n: nat,
)
    ensures
        bullets_moved(spec_substeps(m, held, now, field, drifts, n), m, field, n),
    decreases n,
{
    if n > 0 {
        let prev = spec_substeps(m, held, now, field, drifts, (n - 1) as nat);
        let offset = (n - 1) * m.paddles.len();
        let after = spec_substep(prev, held, now, field, drifts, offset);
        lemma_substeps_move_bullets(m, held, now, field, drifts, (n - 1) as nat);
        lemma_substep_moves_bullets(prev, held, now, field, drifts, offset);
        assert(after == spec_substeps(m, held, now, field, drifts, n));
        assert forall|k: int| 0 <= k < m.bullets.len() implies {
            &&& (#[trigger] after.bullets[k]).id == m.bullets[k].id
            &&& after.bullets[k].bullet == m.bullets[k].bullet
            &&& (after.bullets[k].alive ==> m.bullets[k].alive && after.bullets[k].transform
                == spec_advanced(m.bullets[k].transform, field, n))
            &&& (!m.bullets[k].alive ==> after.bullets[k] == m.bullets[k])
        } by {
            assert(prev.bullets[k].id == m.bullets[k].id);
            if after.bullets[k].alive {
                assert(prev.bullets[k].alive);
                assert(spec_advanced(prev.bullets[k].transform, field, 1) == spec_advance(
                    spec_advanced(prev.bullets[k].transform, field, 0),
                    field,
                ));
            }
        }
    }
}

/// The first frame without hit-freeze runs the simulation again. Every
/// bullet that the frame finds and that is alive after it has moved
/// `SUBSTEPS` times, each time by its velocity and held within the
/// field's margin; its velocity is as it was. This holds whatever the
/// input is and whatever else happens in the frame.
pub proof fn lemma_frame_moves_bullets(
    m: SceneModel,
    start: bool,
    held: Seq<u32>,
    now: i64,
    field: Field,
    drifts: Seq<i32>,
)
    requires
        m.state.hitstun <= 0,
    ensures
        bullets_moved(
            spec_frame(m, start, held, now, field, drifts),
            m,
            field,
            SUBSTEPS as nat,
        ),
{
    let served = if start && m.state.spec_can_serve() {
        spec_serve(m, field)
    } else {
        m
    };
    assert(served.bullets == m.bullets);
    lemma_substeps_move_bullets(served, held, now, field, drifts, SUBSTEPS as nat);
}

/// Three substeps of motion that stay within the field's margin add the
/// velocity to the position three times and leave the velocity as it is.
pub proof fn lemma_free_motion(t: Transform, field: Field)
    requires
        field.sized(),
        forall|i: int|
            1 <= i <= 3 ==> -MARGIN <= #[trigger] (t.position.0 + i * t.velocity.0) <= field.width
                + MARGIN,
        forall|i: int|
            1 <= i <= 3 ==> -MARGIN <= #[trigger] (t.position.1 + i * t.velocity.1) <= field.height
                + MARGIN,
    ensures
        spec_advanced(t, field, 3).velocity == t.velocity,
        spec_advanced(t, field, 3).position.0 == t.position.0 + 3 * t.velocity.0,
        spec_advanced(t, field, 3).position.1 == t.position.1 + 3 * t.velocity.1,
{
    let t0 = spec_advanced(t, field, 0);
    let t1 = spec_advanced(t, field, 1);
    let t2 = spec_advanced(t, field, 2);
    let t3 = spec_advanced(t, field, 3);
    assert(t0 == t);
    assert(t1 == spec_advance(t0, field));
    assert(t2 == spec_advance(t1, field));
    assert(t3 == spec_advance(t2, field));
    assert(-MARGIN <= t.position.0 + 1 * t.velocity.0 <= field.width + MARGIN);
    assert(-MARGIN <= t.position.0 + 2 * t.velocity.0 <= field.width + MARGIN);
    assert(-MARGIN <= t.position.0 + 3 * t.velocity.0 <= field.width + MARGIN);
    assert(-MARGIN <= t.position.1 + 1 * t.velocity.1 <= field.height + MARGIN);
    assert(-MARGIN <= t.position.1 + 2 * t.velocity.1 <= field.height + MARGIN);
    assert(-MARGIN <= t.position.1 + 3 * t.velocity.1 <= field.height + MARGIN);
}

/// `drifts` holds one drift within `BULLET_DRIFT` for each of `paddles`
/// paddles in each substep of a frame.
pub open spec fn drifts_for(drifts: Seq<i32>, paddles: nat) -> bool {
    &&& drifts.len() == SUBSTEPS * paddles
    &&& forall|k: int|
        0 <= k < drifts.len() ==> within(#[trigger] drifts[k] as int, BULLET_DRIFT as int)
}

/// Serves a ball.
pub fn serve(scene: &mut Scene, field: &Field)
    requires
        field.valid(),
        old(scene)@.valid(),
    ensures
        final(scene)@ == spec_serve(old(scene)@, *field),
        final(scene)@.valid(),
        final(scene)@.extends(old(scene)@),
{
    let ghost before = scene@;
    let speed = field.width / SERVE_DIVISOR;
    let direction = scene.state.serve_direction();
    scene.balls.push(
        BallEntry {
            id: None,
            alive: true,
            transform: Transform {
                position: (field.width / 2, field.height / 2),
                velocity: (direction * speed, 0),
            },
            ball: Ball { radius: BALL_RADIUS, speed },
        },
    );
    let mut k: usize = 0;
    while k < scene.paddles.len()
        invariant
            k <= scene.paddles@.len(),
            scene.paddles@.len() == before.paddles.len(),
            forall|i: int|
                0 <= i < k ==> #[trigger] scene.paddles@[i] == (PaddleEntry {
                    bounds: Bounds(PADDLE_WIDTH, PADDLE_HEIGHT),
                    ..before.paddles[i]
                }),
            forall|i: int|
                k <= i < before.paddles.len() ==> #[trigger] scene.paddles@[i]
                    == before.paddles[i],
            forall|i: int| 0 <= i < before.paddles.len() ==> (#[trigger] before.paddles[i]).valid(),
            scene@ == (SceneModel {
                paddles: scene.paddles@,
                balls: before.balls.push(
                    spec_served_ball(*field, before.state.spec_serve_direction()),
                ),
                ..before
            }),
        decreases scene.paddles@.len() - k,
    {
        let p = scene.paddles[k];
        scene.paddles.set(k, PaddleEntry { bounds: Bounds(PADDLE_WIDTH, PADDLE_HEIGHT), ..p });
        k = k + 1;
    }
    scene.state.begin_round();
    assert(scene@.paddles =~= spec_serve(before, *field).paddles);
}

/// Runs one substep. Paddle `k` takes the drift `drifts[offset + k]`.
pub fn substep_with(
    scene: &mut Scene,
    input: &Input,
    now: i64,
    field: &Field,
    drifts: &Vec<i32>,
    offset: usize,
)
    requires
        field.sized(),
        old(scene)@.valid(),
        offset + old(scene)@.paddles.len() <= drifts@.len(),
    ensures
        final(scene)@ == spec_substep(
            old(scene)@,
            input.held@,
            now,
            *field,
            drifts@,
            offset as int,
        ),
        final(scene)@.valid(),
        final(scene)@.extends(old(scene)@),
        final(scene)@.state.left_score >= old(scene)@.state.left_score,
        final(scene)@.state.right_score >= old(scene)@.state.right_score,
        final(scene)@.state.hitstun >= old(scene)@.state.hitstun,
        final(scene)@.state.phase != old(scene)@.state.phase ==> old(scene)@.state.phase
            == Phase::Ongoing && (final(scene)@.state.phase == Phase::LeftWin
            || final(scene)@.state.phase == Phase::RightWin),
{
    integrate(scene, field);
    steer_with(scene, input, now, field, drifts, offset);
    resolve_bullets(scene);
    resolve_balls(scene, field);
}

/// Runs one frame with the given drifts.
pub fn frame_with(
    scene: &mut Scene,
    input: &Input,
    now: i64,
    field: &Field,
    drifts: &Vec<i32>,
)
    requires
        fit_for_frame(*field, old(scene)@.state, input.start),
        old(scene)@.valid(),
        drifts@.len() == SUBSTEPS * old(scene)@.paddles.len(),
    ensures
        final(scene)@ == spec_frame(old(scene)@, input.start, input.held@, now, *field, drifts@),
        final(scene)@.valid(),
        final(scene)@.extends(old(scene)@),
        final(scene)@.state.left_score >= old(scene)@.state.left_score,
        final(scene)@.state.right_score >= old(scene)@.state.right_score,
        old(scene)@.state.hitstun > 0 ==> final(scene)@ == spec_cooled(old(scene)@),
        old(scene)@.state.hitstun <= 0 ==> final(scene)@.state.hitstun >= old(
            scene,
        )@.state.hitstun,
{
    if scene.state.suspended() {
        scene.state.cool_down();
        return ;
    }
    let ghost before = scene@;
    if input.start && scene.state.can_serve() {
        serve(scene, field);
    }
    let ghost served = scene@;
    let paddles = scene.paddles.len();
    let total = drifts.len();
    let mut s: usize = 0;
    let mut offset: usize = 0;
    while s < SUBSTEPS as usize
        invariant
            field.sized(),
            s <= SUBSTEPS,
            paddles == served.paddles.len(),
            total == drifts@.len(),
            total == 3 * paddles,
            offset == s * paddles,
            scene@ == spec_substeps(served, input.held@, now, *field, drifts@, s as nat),
            scene@.valid(),
            scene@.extends(served),
            scene@.state.left_score >= served.state.left_score,
            scene@.state.right_score >= served.state.right_score,
            scene@.state.hitstun >= served.state.hitstun,
        decreases SUBSTEPS - s,
    {
        assert((s + 1) * paddles == s * paddles + paddles && (s + 1) * paddles <= 3 * paddles)
            by (nonlinear_arith)
            requires
                s + 1 <= 3,
                paddles >= 0,
        ;
        substep_with(scene, input, now, field, drifts, offset);
        offset = offset + paddles;
        s = s + 1;
    }
}

/// Draws the drifts for one frame of a scene with `paddles` paddles.
pub fn draw_drifts(paddles: usize) -> (drifts: Vec<i32>)
    ensures
        drifts_for(drifts@, paddles as nat),
{
    let mut drifts: Vec<i32> = Vec::new();
    let mut s: usize = 0;
    while s < SUBSTEPS as usize
        invariant
            s <= SUBSTEPS,
            drifts@.len() == s * paddles,
            forall|k: int|
                0 <= k < drifts@.len() ==> within(#[trigger] drifts@[k] as int, BULLET_DRIFT as int),
        decreases SUBSTEPS - s,
    {
        let mut k: usize = 0;
        while k < paddles
            invariant
                s < SUBSTEPS,
                k <= paddles,
                drifts@.len() == s * paddles + k,
                forall|i: int|
                    0 <= i < drifts@.len() ==> within(
                        #[trigger] drifts@[i] as int,
                        BULLET_DRIFT as int,
                    ),
            decreases paddles - k,
        {
            drifts.push(random_offset(BULLET_DRIFT));
            k = k + 1;
        }
        assert((s + 1) * paddles == s * paddles + paddles) by (nonlinear_arith);
        s = s + 1;
    }
    drifts
}

/// Runs one frame: see `spec_frame`. The vertical drift of each bullet
/// that is fired is drawn at random within `BULLET_DRIFT`.
pub fn frame(scene: &mut Scene, input: &Input, now: i64, field: &Field)
    requires
        fit_for_frame(*field, old(scene)@.state, input.start),
        old(scene)@.valid(),
    ensures
        exists|drifts: Seq<i32>|
            drifts_for(drifts, old(scene)@.paddles.len()) && final(scene)@ == spec_frame(
                old(scene)@,
                input.start,
                input.held@,
                now,
                *field,
                drifts,
            ),
        final(scene)@.valid(),
        final(scene)@.extends(old(scene)@),
        final(scene)@.state.left_score >= old(scene)@.state.left_score,
        final(scene)@.state.right_score >= old(scene)@.state.right_score,
        old(scene)@.state.hitstun > 0 ==> final(scene)@ == spec_cooled(old(scene)@),
        old(scene)@.state.hitstun <= 0 ==> final(scene)@.state.hitstun >= old(
            scene,
        )@.state.hitstun,
{
    let drifts = draw_drifts(scene.paddles.len());
    frame_with(scene, input, now, field, &drifts);
}

} // verus!
