use pong_with_guns::components::{
    Ball, BallEntry, Bounds, Bullet, BulletEntry, ControlType, Controls, Event, Field, PaddleEntry,
    Transform,
};
use pong_with_guns::control::Input;
use pong_with_guns::particles::Color;
use pong_with_guns::scene::{
    ball_turn, ball_vs_paddle, bullet_turn, bullet_vs_ball, bullet_vs_paddle, draw_drifts, frame,
    frame_with, integrate, resolve_balls, resolve_bullets, serve, steer_paddle, steer_with,
    substep_with, Scene,
};
use pong_with_guns::state::{GameState, Phase};

const FIELD: Field = Field { width: 1_280_000, height: 720_000 };
const KEYS: Controls = Controls { up: 1, left: 2, down: 3, right: 4 };

fn scene(phase: Phase) -> Scene {
    Scene {
        state: GameState { phase, ..GameState::new() },
        paddles: vec![],
        balls: vec![],
        bullets: vec![],
        bursts: vec![],
        events: vec![],
    }
}

fn paddle(id: u64, x: i32, y: i32, control: ControlType) -> PaddleEntry {
    PaddleEntry {
        id: Some(id),
        transform: Transform { position: (x, y), velocity: (0, 0) },
        bounds: Bounds(16_000, 64_000),
        control,
    }
}

fn ball(id: u64, x: i32, y: i32, vx: i32, vy: i32) -> BallEntry {
    BallEntry {
        id: Some(id),
        alive: true,
        transform: Transform { position: (x, y), velocity: (vx, vy) },
        ball: Ball { radius: 16_000, speed: 1_000 },
    }
}

fn bullet(id: u64, x: i32, y: i32, vx: i32, vy: i32) -> BulletEntry {
    BulletEntry {
        id: Some(id),
        alive: true,
        transform: Transform { position: (x, y), velocity: (vx, vy) },
        bullet: Bullet { radius: 2_000 },
    }
}

fn quiet() -> Input {
    Input { start: false, held: vec![] }
}

#[test]
fn motion_moves_every_live_entity() {
    let mut s = scene(Phase::Ongoing);
    s.paddles.push(PaddleEntry {
        transform: Transform { position: (64_000, 360_000), velocity: (0, 2_000) },
        ..paddle(1, 0, 0, ControlType::AI(0))
    });
    s.balls.push(ball(2, 640_000, 360_000, 1_000, -500));
    s.balls.push(BallEntry { alive: false, ..ball(3, 5, 5, 1_000, 1_000) });
    s.bullets.push(bullet(4, 100_000, 10, 2_000, 50));
    s.bullets.push(BulletEntry { alive: false, ..bullet(5, 7, 7, 2_000, 50) });
    integrate(&mut s, &FIELD);
    assert_eq!(s.paddles[0].transform.position, (64_000, 362_000));
    assert_eq!(s.balls[0].transform.position, (641_000, 359_500));
    assert_eq!(s.balls[1].transform.position, (5, 5));
    assert_eq!(s.bullets[0].transform.position, (102_000, 60));
    assert_eq!(s.bullets[1].transform.position, (7, 7));
    assert!(s.bursts.is_empty() && s.events.is_empty());
    assert_eq!(s.state, GameState { phase: Phase::Ongoing, ..GameState::new() });
}

#[test]
fn a_steered_player_fires_a_drifting_bullet() {
    let mut s = scene(Phase::Ongoing);
    s.paddles.push(paddle(1, 64_000, 360_000, ControlType::Player(KEYS, 0)));
    let input = Input { start: false, held: vec![4, 3] };
    steer_paddle(&mut s, 0, &input, 1_000, &FIELD, -37);
    assert_eq!(s.paddles[0].transform.velocity, (0, 300));
    assert_eq!(s.paddles[0].control, ControlType::Player(KEYS, 1_350));
    assert_eq!(
        s.bullets,
        vec![BulletEntry {
            id: None,
            alive: true,
            transform: Transform { position: (96_000, 360_000), velocity: (2_000, -37) },
            bullet: Bullet { radius: 2_000 },
        }]
    );
    assert_eq!(s.events, vec![Event::BulletFired]);
    assert_eq!(s.bursts.len(), 1);
    assert_eq!(s.bursts[0].position, (64_000, 360_000));
    assert_eq!(s.bursts[0].color, Color::Black);
}

#[test]
fn a_cooling_gun_does_not_fire_again() {
    let mut s = scene(Phase::Ongoing);
    s.paddles.push(paddle(1, 64_000, 360_000, ControlType::Player(KEYS, 0)));
    let input = Input { start: false, held: vec![4] };
    steer_paddle(&mut s, 0, &input, 1_000, &FIELD, 0);
    steer_paddle(&mut s, 0, &input, 1_000, &FIELD, 0);
    steer_paddle(&mut s, 0, &input, 1_350, &FIELD, 0);
    assert_eq!(s.bullets.len(), 1);
    steer_paddle(&mut s, 0, &input, 1_351, &FIELD, 0);
    assert_eq!(s.bullets.len(), 2);
    assert_eq!(s.bursts.len(), 4);
}

#[test]
fn every_paddle_is_steered_with_its_own_drift() {
    let mut s = scene(Phase::Ongoing);
    s.paddles.push(paddle(1, 64_000, 300_000, ControlType::Player(KEYS, 0)));
    s.paddles.push(paddle(2, 1_216_000, 300_000, ControlType::AI(0)));
    s.paddles.push(paddle(3, 640_000, 100_000, ControlType::Player(KEYS, 0)));
    s.balls.push(ball(9, 1_216_000, 301_000, 0, 0));
    let input = Input { start: false, held: vec![2] };
    steer_with(&mut s, &input, 10, &FIELD, &vec![0, 0, 0, 11, 22, 33], 3);
    assert_eq!(s.bullets.len(), 2);
    assert_eq!(s.bullets[0].transform, Transform { position: (32_000, 300_000), velocity: (-2_000, 11) });
    assert_eq!(s.bullets[1].transform, Transform { position: (608_000, 100_000), velocity: (-2_000, 33) });
    // the computer is 1000 below its target's height: 60000 * 1000 / 1280000
    assert_eq!(s.paddles[1].transform.velocity, (0, 46));
    assert_eq!(s.events, vec![Event::BulletFired, Event::BulletFired]);
    assert_eq!(s.bursts.len(), 3);
}

#[test]
fn a_bullet_inside_a_ball_knocks_it() {
    let mut s = scene(Phase::Ongoing);
    s.balls.push(ball(1, 10_000, 0, -300, 400));
    s.bullets.push(bullet(2, 4_000, 0, 2_000, 0));
    bullet_vs_ball(&mut s, 0, 0);
    assert_eq!(s.balls[0].transform, Transform { position: (10_000, 0), velocity: (1_000, 0) });
    assert!(!s.bullets[0].alive);
    assert_eq!(s.state.hitstun, 1);
    assert_eq!(s.events, vec![Event::BulletHitBall]);
    assert_eq!(s.bursts.len(), 1);
    assert_eq!(s.bursts[0].position, (4_000, 0));
    assert_eq!(s.bursts[0].velocity, (2_000, 0));
    assert_eq!(s.bursts[0].count, 3);
}

#[test]
fn a_bullet_outside_a_ball_passes() {
    let mut s = scene(Phase::Ongoing);
    s.balls.push(ball(1, 20_000, 0, -300, 400));
    s.bullets.push(bullet(2, 4_000, 0, 2_000, 0));
    bullet_vs_ball(&mut s, 0, 0);
    assert_eq!(s.balls[0], ball(1, 20_000, 0, -300, 400));
    assert!(s.bullets[0].alive);
    assert_eq!(s.state.hitstun, 0);
    assert!(s.events.is_empty() && s.bursts.is_empty());
}

#[test]
fn a_ball_that_has_scored_is_not_hit() {
    let mut s = scene(Phase::Ongoing);
    s.balls.push(BallEntry { alive: false, ..ball(1, 10_000, 0, -300, 400) });
    s.bullets.push(bullet(2, 4_000, 0, 2_000, 0));
    bullet_vs_ball(&mut s, 0, 0);
    assert!(s.bullets[0].alive);
    assert_eq!(s.state.hitstun, 0);
}

#[test]
fn a_bullet_damages_the_paddle_it_touches() {
    let mut s = scene(Phase::Ongoing);
    s.paddles.push(PaddleEntry {
        transform: Transform { position: (64_000, 360_000), velocity: (100, -200) },
        ..paddle(1, 0, 0, ControlType::AI(0))
    });
    s.bullets.push(bullet(2, 80_000, 400_000, -2_000, 0));
    let snapshot = s.paddles.clone();
    bullet_vs_paddle(&mut s, &snapshot, 0, 0);
    assert_eq!(s.paddles[0].bounds, Bounds(16_000, 63_000));
    assert_eq!(s.paddles[0].transform.position, (64_000, 360_000));
    assert!(!s.bullets[0].alive);
    assert_eq!(s.state.hitstun, 1);
    assert_eq!(s.events, vec![Event::BulletHitPaddle]);
    assert_eq!(s.bursts[0].position, (80_000, 400_000));
    assert_eq!(s.bursts[0].velocity, (200, -400));
}

#[test]
fn a_bullet_that_hits_twice_earns_twice() {
    let mut s = scene(Phase::Ongoing);
    s.paddles.push(paddle(1, 64_000, 360_000, ControlType::AI(0)));
    s.balls.push(ball(2, 70_000, 360_000, 500, 0));
    s.bullets.push(bullet(3, 72_000, 360_000, -2_000, 0));
    let snapshot = s.paddles.clone();
    bullet_turn(&mut s, &snapshot, 0);
    assert_eq!(s.state.hitstun, 2);
    assert_eq!(s.events, vec![Event::BulletHitBall, Event::BulletHitPaddle]);
    assert_eq!(s.paddles[0].bounds, Bounds(16_000, 63_000));
    assert!(!s.bullets[0].alive);
}

#[test]
fn a_spent_bullet_has_no_turn() {
    let mut s = scene(Phase::Ongoing);
    s.paddles.push(paddle(1, 64_000, 360_000, ControlType::AI(0)));
    s.bullets.push(BulletEntry { alive: false, ..bullet(3, 72_000, 360_000, -2_000, 0) });
    resolve_bullets(&mut s);
    assert_eq!(s.state.hitstun, 0);
    assert_eq!(s.paddles[0].bounds, Bounds(16_000, 64_000));
}

#[test]
fn bullets_see_the_paddle_as_it_was_when_the_pass_began() {
    let mut s = scene(Phase::Ongoing);
    s.paddles.push(PaddleEntry { bounds: Bounds(16_000, 1_000), ..paddle(1, 0, 0, ControlType::AI(0)) });
    // touches the paddle whatever its height
    s.bullets.push(bullet(2, 0, 0, 0, 0));
    // touches the upper cap only while the paddle has its height of 1000
    s.bullets.push(bullet(3, 0, 19_000, 0, 0));
    resolve_bullets(&mut s);
    assert!(!s.bullets[0].alive);
    assert!(!s.bullets[1].alive);
    assert_eq!(s.state.hitstun, 2);
    assert_eq!(s.paddles[0].bounds, Bounds(16_000, 0));
}

#[test]
fn two_hits_take_two_pixels() {
    let mut s = scene(Phase::Ongoing);
    s.paddles.push(paddle(1, 64_000, 360_000, ControlType::AI(0)));
    s.bullets.push(bullet(2, 64_000, 360_000, 0, 0));
    s.bullets.push(bullet(3, 70_000, 380_000, 0, 0));
    s.bullets.push(bullet(4, 640_000, 380_000, 0, 0));
    resolve_bullets(&mut s);
    assert_eq!(s.paddles[0].bounds, Bounds(16_000, 62_000));
    assert_eq!(s.state.hitstun, 2);
    assert_eq!(
        s.bullets.iter().map(|u| u.alive).collect::<Vec<_>>(),
        vec![false, false, true]
    );
}

#[test]
fn the_last_bullet_decides_the_ball_s_course() {
    let mut s = scene(Phase::Ongoing);
    s.balls.push(ball(1, 10_000, 0, 0, 0));
    s.bullets.push(bullet(2, 4_000, 0, 2_000, 0));
    s.bullets.push(bullet(3, 10_000, 6_000, 0, -2_000));
    resolve_bullets(&mut s);
    assert_eq!(s.balls[0].transform.velocity, (0, -1_000));
    assert_eq!(s.state.hitstun, 2);
}

#[test]
fn a_ball_past_the_right_edge_scores_for_the_left() {
    let mut s = scene(Phase::Ongoing);
    s.balls.push(ball(1, 1_280_001, 100_000, 1_200, -300));
    ball_turn(&mut s, 0, &FIELD);
    assert_eq!(s.state.phase, Phase::LeftWin);
    assert_eq!((s.state.left_score, s.state.right_score), (1, 0));
    assert!(!s.balls[0].alive);
    assert_eq!(s.events, vec![Event::Goal]);
    assert_eq!(s.bursts.len(), 1);
    assert_eq!(s.bursts[0].count, 100);
    assert_eq!(s.bursts[0].color, Color::Red);
    assert_eq!(s.bursts[0].velocity, (-1_200, 300));
}

#[test]
fn a_ball_past_the_left_edge_scores_for_the_right() {
    let mut s = scene(Phase::Ongoing);
    s.balls.push(ball(1, -1, 100_000, -1_200, -300));
    ball_turn(&mut s, 0, &FIELD);
    assert_eq!(s.state.phase, Phase::RightWin);
    assert_eq!((s.state.left_score, s.state.right_score), (0, 1));
    assert!(!s.balls[0].alive);
    assert_eq!(s.bursts[0].color, Color::Blue);
}

#[test]
fn a_ball_on_the_edge_does_not_score() {
    let mut s = scene(Phase::Ongoing);
    s.balls.push(ball(1, 1_280_000, 100_000, 1_000, 0));
    s.balls.push(ball(2, 0, 100_000, -1_000, 0));
    resolve_balls(&mut s, &FIELD);
    assert_eq!(s.state.phase, Phase::Ongoing);
    assert!(s.balls[0].alive && s.balls[1].alive);
}

#[test]
fn only_one_goal_is_scored_in_a_pass() {
    let mut s = scene(Phase::Ongoing);
    s.balls.push(ball(1, -5, 100_000, -1_000, 0));
    s.balls.push(ball(2, 1_290_000, 100_000, 1_000, 0));
    resolve_balls(&mut s, &FIELD);
    assert_eq!(s.state.phase, Phase::RightWin);
    assert_eq!((s.state.left_score, s.state.right_score), (0, 1));
    assert!(!s.balls[0].alive);
    assert!(s.balls[1].alive);
    assert_eq!(s.events, vec![Event::Goal]);
}

#[test]
fn no_goal_outside_a_round() {
    for phase in [Phase::Start, Phase::LeftWin, Phase::RightWin] {
        let mut s = scene(phase);
        s.state.left_score = 3;
        s.balls.push(ball(1, 1_290_000, 100_000, 1_000, 0));
        resolve_balls(&mut s, &FIELD);
        assert_eq!(s.state.phase, phase);
        assert_eq!((s.state.left_score, s.state.right_score), (3, 0));
        assert!(s.balls[0].alive);
        assert!(s.events.is_empty());
    }
}

#[test]
fn a_ball_bounces_off_the_top_edge() {
    let mut s = scene(Phase::Ongoing);
    s.balls.push(ball(1, 640_000, -2_000, 800, -600));
    resolve_balls(&mut s, &FIELD);
    assert_eq!(s.balls[0].transform, Transform { position: (640_000, 0), velocity: (800, 600) });
    assert_eq!(s.events, vec![Event::BallHitWall]);
    assert_eq!(s.state.hitstun, 0);
}

#[test]
fn a_ball_bounces_off_a_paddle() {
    let mut s = scene(Phase::Ongoing);
    s.paddles.push(PaddleEntry {
        transform: Transform { position: (64_000, 300_000), velocity: (0, 400) },
        ..paddle(1, 0, 0, ControlType::AI(0))
    });
    s.balls.push(ball(2, 96_000, 332_000, -1_000, 0));
    ball_vs_paddle(&mut s, 0, 0);
    assert_eq!(s.balls[0].ball.speed, 1_500);
    assert_eq!(s.balls[0].transform, Transform { position: (96_000, 332_000), velocity: (1_436, 431) });
    assert_eq!(s.state.hitstun, 3);
    assert_eq!(s.events, vec![Event::BallHitPaddle]);
    assert_eq!(s.bursts.len(), 1);
    assert_eq!(s.bursts[0].count, 1);
    assert_eq!(s.bursts[0].size, 5_744);
}

#[test]
fn a_ball_away_from_the_paddle_flies_on() {
    let mut s = scene(Phase::Ongoing);
    s.paddles.push(paddle(1, 64_000, 300_000, ControlType::AI(0)));
    s.balls.push(ball(2, 96_001, 300_000, -1_000, 0));
    ball_vs_paddle(&mut s, 0, 0);
    assert_eq!(s.balls[0], ball(2, 96_001, 300_000, -1_000, 0));
    assert_eq!(s.state.hitstun, 0);
    assert!(s.events.is_empty());
}

#[test]
fn the_intensity_is_four_times_the_summed_speed() {
    let mut s = scene(Phase::Ongoing);
    s.state.intensity = 123_456;
    s.balls.push(ball(1, 640_000, 100_000, 1_000, 0));
    s.balls.push(BallEntry { ball: Ball { radius: 16_000, speed: 2_500 }, ..ball(2, 640_000, 500_000, 0, 2_500) });
    s.balls.push(BallEntry { alive: false, ..ball(3, 640_000, 300_000, 0, 0) });
    resolve_balls(&mut s, &FIELD);
    assert_eq!(s.state.intensity, 14_000);
    // each live ball leaves a trail that lives a quarter of the running sum
    assert_eq!(s.bursts.len(), 2);
    assert_eq!((s.bursts[0].position, s.bursts[0].age), ((640_000, 100_000), 250));
    assert_eq!((s.bursts[1].position, s.bursts[1].age), ((640_000, 500_000), 875));
}

#[test]
fn without_balls_the_intensity_is_zero() {
    let mut s = scene(Phase::Ongoing);
    s.state.intensity = 99;
    resolve_balls(&mut s, &FIELD);
    assert_eq!(s.state.intensity, 0);
}

#[test]
fn paddle_hits_never_slow_a_ball() {
    let mut s = scene(Phase::Ongoing);
    s.paddles.push(paddle(1, 64_000, 300_000, ControlType::AI(0)));
    s.paddles.push(paddle(2, 70_000, 310_000, ControlType::AI(0)));
    s.balls.push(ball(3, 80_000, 305_000, -1_000, 0));
    let mut last = 1_000;
    for _ in 0..20 {
        resolve_balls(&mut s, &FIELD);
        let speed = s.balls[0].ball.speed;
        assert!(speed > last);
        let (vx, vy) = s.balls[0].transform.velocity;
        let (vx, vy, sp) = (vx as i64, vy as i64, speed as i64);
        assert!(1_000_000 * (vx * vx + vy * vy) <= 1_002_001 * sp * sp);
        assert!((vx.abs() + 1) * (vx.abs() + 1) + (vy.abs() + 1) * (vy.abs() + 1) > sp * sp);
        last = speed;
    }
    // 1000 -> 1500 -> 1833 within the first pass, one step for each paddle
    assert!(last > 1_833);
}

#[test]
fn a_serve_puts_a_ball_in_the_middle() {
    let mut s = scene(Phase::LeftWin);
    s.state.left_score = 2;
    s.state.right_score = 1;
    s.paddles.push(PaddleEntry { bounds: Bounds(16_000, 12_000), ..paddle(1, 64_000, 300_000, ControlType::AI(0)) });
    s.paddles.push(PaddleEntry { bounds: Bounds(16_000, 0), ..paddle(2, 1_216_000, 300_000, ControlType::AI(0)) });
    serve(&mut s, &FIELD);
    assert_eq!(s.state.phase, Phase::Ongoing);
    assert_eq!((s.state.left_score, s.state.right_score), (2, 1));
    assert_eq!(
        s.balls,
        vec![BallEntry {
            id: None,
            alive: true,
            transform: Transform { position: (640_000, 360_000), velocity: (1_000, 0) },
            ball: Ball { radius: 16_000, speed: 1_000 },
        }]
    );
    assert_eq!(s.paddles[0].bounds, Bounds(16_000, 64_000));
    assert_eq!(s.paddles[1].bounds, Bounds(16_000, 64_000));
    assert_eq!(s.paddles[0].transform.position, (64_000, 300_000));
}

#[test]
fn after_a_win_of_the_right_the_serve_goes_left() {
    let mut s = scene(Phase::RightWin);
    serve(&mut s, &Field { width: 1_920_000, height: 1_080_000 });
    assert_eq!(s.balls[0].transform.position, (960_000, 540_000));
    assert_eq!(s.balls[0].transform.velocity, (-1_500, 0));
    assert_eq!(s.balls[0].ball.speed, 1_500);
}

#[test]
fn a_substep_moves_then_steers_then_resolves() {
    let mut s = scene(Phase::Ongoing);
    s.paddles.push(paddle(1, 64_000, 360_000, ControlType::Player(KEYS, 0)));
    s.balls.push(ball(2, 1_279_500, 360_000, 1_000, 0));
    let input = Input { start: false, held: vec![4] };
    substep_with(&mut s, &input, 5, &FIELD, &vec![9], 0);
    // the ball has moved past the edge and scored
    assert_eq!(s.state.phase, Phase::LeftWin);
    assert!(!s.balls[0].alive);
    // the bullet was fired after the motion and has not moved yet
    assert_eq!(s.bullets[0].transform, Transform { position: (96_000, 360_000), velocity: (2_000, 9) });
    assert_eq!(s.events, vec![Event::BulletFired, Event::Goal]);
}

#[test]
fn a_frozen_frame_only_counts_down() {
    let mut s = scene(Phase::Ongoing);
    s.state.hitstun = 2;
    s.paddles.push(paddle(1, 64_000, 360_000, ControlType::Player(KEYS, 0)));
    s.balls.push(ball(2, 640_000, 360_000, 1_000, 0));
    let input = Input { start: true, held: vec![1, 2, 3, 4] };
    frame_with(&mut s, &input, 5, &FIELD, &vec![0, 0, 0]);
    assert_eq!(s.state.hitstun, 1);
    assert_eq!(s.paddles, vec![paddle(1, 64_000, 360_000, ControlType::Player(KEYS, 0))]);
    assert_eq!(s.balls, vec![ball(2, 640_000, 360_000, 1_000, 0)]);
    assert!(s.bullets.is_empty() && s.bursts.is_empty() && s.events.is_empty());
}

#[test]
fn a_frame_runs_three_substeps() {
    let mut s = scene(Phase::Ongoing);
    s.balls.push(ball(2, 640_000, 360_000, 1_000, -2_000));
    frame_with(&mut s, &quiet(), 5, &FIELD, &vec![]);
    assert_eq!(s.balls[0].transform.position, (643_000, 354_000));
    assert_eq!(s.state.intensity, 4_000);
    assert_eq!(s.bursts.len(), 3);
}

#[test]
fn a_start_signal_serves_before_the_substeps() {
    let mut s = scene(Phase::Start);
    s.paddles.push(paddle(1, 64_000, 360_000, ControlType::AI(0)));
    let input = Input { start: true, held: vec![] };
    frame_with(&mut s, &input, 5, &FIELD, &vec![0, 0, 0]);
    assert_eq!(s.state.phase, Phase::Ongoing);
    assert_eq!(s.balls.len(), 1);
    assert_eq!(s.balls[0].transform.position, (643_000, 360_000));
    assert_eq!(s.balls[0].id, None);
}

#[test]
fn a_start_signal_during_a_round_is_ignored() {
    let mut s = scene(Phase::Ongoing);
    let input = Input { start: true, held: vec![] };
    frame_with(&mut s, &input, 5, &FIELD, &vec![]);
    assert!(s.balls.is_empty());
}

#[test]
fn without_a_start_signal_nothing_is_served() {
    let mut s = scene(Phase::LeftWin);
    frame_with(&mut s, &quiet(), 5, &FIELD, &vec![]);
    assert!(s.balls.is_empty());
    assert_eq!(s.state.phase, Phase::LeftWin);
}

#[test]
fn drifts_are_drawn_for_each_paddle_and_substep() {
    for paddles in [0usize, 1, 2, 7] {
        let drifts = draw_drifts(paddles);
        assert_eq!(drifts.len(), 3 * paddles);
        assert!(drifts.iter().all(|d| (-100..=100).contains(d)));
    }
}

#[test]
fn a_frame_with_drawn_drifts_fires_within_the_drift() {
    let mut s = scene(Phase::Ongoing);
    s.paddles.push(paddle(1, 64_000, 360_000, ControlType::Player(KEYS, 0)));
    let input = Input { start: false, held: vec![4] };
    frame(&mut s, &input, 5, &FIELD);
    assert_eq!(s.bullets.len(), 1);
    let v = s.bullets[0].transform.velocity;
    assert_eq!(v.0, 2_000);
    assert!((-100..=100).contains(&v.1));
    assert_eq!(s.bullets[0].transform.position.0, 100_000);
}

#[test]
fn entries_keep_their_places_and_identifiers() {
    let mut s = scene(Phase::LeftWin);
    s.paddles.push(paddle(11, 64_000, 360_000, ControlType::Player(KEYS, 0)));
    s.paddles.push(paddle(12, 1_216_000, 360_000, ControlType::AI(0)));
    s.balls.push(ball(21, 1_279_500, 360_000, 1_000, 0));
    s.bullets.push(bullet(31, 64_000, 360_000, 0, 0));
    let input = Input { start: true, held: vec![4] };
    frame_with(&mut s, &input, 5, &FIELD, &vec![0, 0, 0, 0, 0, 0]);
    assert_eq!(s.paddles.iter().map(|p| p.id).collect::<Vec<_>>(), vec![Some(11), Some(12)]);
    assert_eq!(s.balls.iter().map(|b| b.id).collect::<Vec<_>>(), vec![Some(21), None]);
    assert_eq!(s.bullets.iter().map(|u| u.id).collect::<Vec<_>>(), vec![Some(31), None]);
}

#[test]
fn a_fast_ball_leaves_a_paddle_faster() {
    let mut s = scene(Phase::Ongoing);
    s.paddles.push(paddle(1, 64_000, 300_000, ControlType::AI(0)));
    s.balls.push(BallEntry { ball: Ball { radius: 16_000, speed: 600_000 }, ..ball(2, 80_000, 305_000, -600_000, 0) });
    resolve_balls(&mut s, &FIELD);
    assert_eq!(s.balls[0].ball.speed, 600_001);
    assert_eq!(s.events, vec![Event::BallHitPaddle]);
}

#[test]
fn the_speed_tells_how_many_paddles_were_hit() {
    // no paddle, one paddle and two paddles in reach of the ball
    let reach = [vec![], vec![(64_000, 300_000)], vec![(64_000, 300_000), (70_000, 310_000)]];
    let expected = [1_000, 1_500, 1_833];
    for (paddles, speed) in reach.iter().zip(expected) {
        let mut s = scene(Phase::Ongoing);
        for (k, (x, y)) in paddles.iter().enumerate() {
            s.paddles.push(paddle(k as u64 + 10, *x, *y, ControlType::AI(0)));
        }
        // one more paddle far away
        s.paddles.push(paddle(1, 1_216_000, 600_000, ControlType::AI(0)));
        s.balls.push(ball(3, 80_000, 305_000, -1_000, 0));
        substep_with(&mut s, &quiet(), 0, &FIELD, &vec![0, 0, 0], 0);
        assert_eq!(s.balls[0].ball.speed, speed);
    }
}

#[test]
fn a_running_frame_moves_every_live_bullet_three_times() {
    let mut s = scene(Phase::Ongoing);
    s.paddles.push(paddle(1, 64_000, 360_000, ControlType::Player(KEYS, 0)));
    s.balls.push(ball(2, 640_000, 360_000, 1_000, 0));
    s.bullets.push(bullet(3, 300_000, 100_000, 2_000, -50));
    s.bullets.push(bullet(4, 1_290_000, 5_000, 2_000, -5_000));
    s.bullets.push(BulletEntry { alive: false, ..bullet(5, 7, 7, 2_000, 50) });
    // this one runs into the ball in the second substep
    s.bullets.push(bullet(6, 622_500, 360_000, 2_000, 0));
    let input = Input { start: true, held: vec![1, 4] };
    frame_with(&mut s, &input, 5, &FIELD, &vec![0, 0, 0]);
    assert_eq!(s.bullets[0].transform, Transform { position: (306_000, 99_850), velocity: (2_000, -50) });
    // held at the margin on both axes
    assert_eq!(s.bullets[1].transform, Transform { position: (1_296_000, -10_000), velocity: (2_000, -5_000) });
    assert_eq!(s.bullets[2], BulletEntry { alive: false, ..bullet(5, 7, 7, 2_000, 50) });
    assert!(!s.bullets[3].alive);
    assert_eq!(s.bullets[3].transform.position, (626_500, 360_000));
    assert_eq!(s.state.hitstun, 1);
}

#[test]
fn a_frame_without_a_serve_runs_on_a_narrow_field() {
    let narrow = Field { width: 1_000, height: 2_000 };
    let mut s = scene(Phase::Ongoing);
    s.bullets.push(bullet(3, 100, 100, 10, 20));
    let input = Input { start: true, held: vec![] };
    frame_with(&mut s, &input, 5, &narrow, &vec![]);
    assert_eq!(s.bullets[0].transform.position, (130, 160));
}
