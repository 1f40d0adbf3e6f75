use pong_with_guns::components::{Ball, Bounds, Bullet, Transform};
use pong_with_guns::particles::Color;
use pong_with_guns::resolver::{
    ball_trail, bounce, fanfare, impact, jolt, knock, meets, shrink, spray, strikes, touches,
};
use pong_with_guns::state::Phase;

fn at(x: i32, y: i32) -> Transform {
    Transform { position: (x, y), velocity: (0, 0) }
}

const BALL: Ball = Ball { radius: 16_000, speed: 1_000 };

#[test]
fn a_bullet_inside_the_ball_meets_it() {
    assert!(meets(&at(0, 0), &at(15_999, 0), &BALL));
    assert!(meets(&at(9_000, 12_000), &at(0, 0), &BALL));
    // on the rim is outside
    assert!(!meets(&at(0, 0), &at(16_000, 0), &BALL));
    assert!(!meets(&at(9_600, 12_800), &at(0, 0), &BALL));
}

#[test]
fn a_bullet_touches_the_paddle_up_to_both_radii() {
    let bounds = Bounds(16_000, 64_000);
    let bullet = Bullet { radius: 2_000 };
    assert!(strikes(&at(18_000, 0), &bullet, &at(0, 0), &bounds));
    assert!(!strikes(&at(18_001, 0), &bullet, &at(0, 0), &bounds));
    assert!(strikes(&at(0, 82_000), &bullet, &at(0, 0), &bounds));
    assert!(!strikes(&at(0, 82_001), &bullet, &at(0, 0), &bounds));
}

#[test]
fn a_ball_touches_the_paddle_up_to_both_radii() {
    let bounds = Bounds(16_000, 64_000);
    assert!(touches(&at(32_000, 10_000), &BALL, &at(0, 0), &bounds));
    assert!(!touches(&at(32_001, 10_000), &BALL, &at(0, 0), &bounds));
}

#[test]
fn a_knocked_ball_flies_away_from_the_bullet() {
    let bullet = Transform { position: (4_000, 0), velocity: (2_000, 0) };
    let ball = Transform { position: (10_000, 0), velocity: (-300, 400) };
    assert_eq!(
        knock(&ball, &BALL, &bullet),
        Transform { position: (10_000, 0), velocity: (1_000, 0) }
    );
}

#[test]
fn a_knock_mixes_offset_and_bullet_velocity() {
    // direction (6000 / 2 + 0 / 4, 0 / 2 + 16000 / 4) = (3000, 4000)
    let bullet = Transform { position: (4_000, 0), velocity: (0, 16_000) };
    let ball = Transform { position: (10_000, 0), velocity: (0, 0) };
    assert_eq!(knock(&ball, &BALL, &bullet).velocity, (600, 800));
}

#[test]
fn a_knock_without_direction_changes_nothing() {
    let bullet = Transform { position: (10_001, 0), velocity: (3, -3) };
    let ball = Transform { position: (10_000, 0), velocity: (-300, 400) };
    assert_eq!(knock(&ball, &BALL, &bullet), ball);
}

#[test]
fn a_bounce_speeds_the_ball_up_and_turns_it() {
    let ball = Transform { position: (96_000, 32_000), velocity: (-1_000, 0) };
    let paddle = Transform { position: (64_000, 0), velocity: (0, 400) };
    let (turned, sped) = bounce(&ball, &BALL, &paddle, &Bounds(16_000, 64_000));
    assert_eq!(sped, Ball { radius: 16_000, speed: 1_500 });
    // direction (32000000 / 16000 + 0, 32000000 / 64000 + 100) = (2000, 600)
    assert_eq!(turned, Transform { position: (96_000, 32_000), velocity: (1_436, 431) });
}

#[test]
fn a_bounce_off_a_paddle_without_height_keeps_the_course() {
    let ball = Transform { position: (96_000, 32_000), velocity: (-1_000, 0) };
    let paddle = Transform { position: (64_000, 0), velocity: (0, 400) };
    let (turned, sped) = bounce(&ball, &BALL, &paddle, &Bounds(16_000, 0));
    assert_eq!(sped.speed, 1_500);
    assert_eq!(turned, ball);
}

#[test]
fn a_bounce_without_direction_keeps_the_course() {
    let ball = Transform { position: (64_000, 0), velocity: (-1_000, 0) };
    let paddle = Transform { position: (64_000, 0), velocity: (3, -3) };
    let (turned, sped) = bounce(&ball, &BALL, &paddle, &Bounds(16_000, 64_000));
    assert_eq!(sped.speed, 1_500);
    assert_eq!(turned, ball);
}

#[test]
fn damage_takes_one_pixel_and_stops_at_zero() {
    assert_eq!(shrink(&Bounds(16_000, 64_000)), Bounds(16_000, 63_000));
    assert_eq!(shrink(&Bounds(16_000, 1_001)), Bounds(16_000, 1));
    assert_eq!(shrink(&Bounds(16_000, 1_000)), Bounds(16_000, 0));
    assert_eq!(shrink(&Bounds(16_000, 400)), Bounds(16_000, 0));
    assert_eq!(shrink(&Bounds(16_000, 0)), Bounds(16_000, 0));
}

#[test]
fn sixty_four_hits_wear_a_paddle_down() {
    let mut bounds = Bounds(16_000, 64_000);
    for _ in 0..63 {
        bounds = shrink(&bounds);
        assert!(bounds.1 > 0);
    }
    assert_eq!(shrink(&bounds), Bounds(16_000, 0));
}

#[test]
fn the_jolt_is_twice_the_speed_rounded() {
    assert_eq!(jolt(1_000), 2);
    assert_eq!(jolt(1_500), 3);
    assert_eq!(jolt(1_249), 2);
    assert_eq!(jolt(1_250), 3);
    assert_eq!(jolt(0), 0);
    assert_eq!(jolt(249), 0);
    assert_eq!(jolt(250), 1);
    assert_eq!(jolt(i32::MAX), 4_294_967);
}

#[test]
fn an_impact_throws_three_sparks() {
    let e = impact((5, 6), (700, -900));
    assert_eq!(e.count, 3);
    assert_eq!(e.position, (5, 6));
    assert_eq!(e.velocity, (1_400, -1_800));
    assert_eq!(e.size, 8_000);
    assert_eq!(e.color, Color::White);
    assert_eq!(e.age, 300);
    assert_eq!(e.position_variance, (100, 100));
    assert_eq!(e.velocity_variance, (4_000, 8_000));
    assert_eq!(e.size_variance, 500);
    assert_eq!(e.age_variance, 250);
    assert_eq!(impact((0, 0), (i32::MAX, i32::MIN)).velocity, (i32::MAX, i32::MIN));
}

#[test]
fn a_bounce_sprays_in_proportion_to_the_speed() {
    let e = spray(&Transform { position: (5, 6), velocity: (-1_436, 431) });
    assert_eq!(e.count, 1);
    assert_eq!(e.position, (5, 6));
    assert_eq!(e.velocity, (-2_872, 862));
    assert_eq!(e.size, 5_744);
    assert_eq!(e.color, Color::White);
    assert_eq!(e.age, 300);
    assert_eq!(e.position_variance, (100, 100));
    assert_eq!(e.velocity_variance, (3_436, 5_436));
    assert_eq!(e.size_variance, 359);
    assert_eq!(e.age_variance, 250);
    assert_eq!(spray(&Transform { position: (0, 0), velocity: (999, 0) }).count, 0);
    assert_eq!(spray(&Transform { position: (0, 0), velocity: (5_000, 0) }).count, 5);
}

#[test]
fn a_goal_is_marked_in_the_scorer_s_colour() {
    let t = Transform { position: (5, 6), velocity: (-1_200, 300) };
    let e = fanfare(&t, Phase::LeftWin);
    assert_eq!(e.count, 100);
    assert_eq!(e.position, (5, 6));
    assert_eq!(e.velocity, (1_200, -300));
    assert_eq!(e.size, 6_000);
    assert_eq!(e.color, Color::Red);
    assert_eq!(e.age, 3_000);
    assert_eq!(e.position_variance, (100, 100));
    assert_eq!(e.velocity_variance, (3_200, 9_200));
    assert_eq!(e.size_variance, 1_200);
    assert_eq!(e.age_variance, 1_000);
    assert_eq!(fanfare(&t, Phase::RightWin).color, Color::Blue);
}

#[test]
fn a_ball_trail_lives_a_quarter_of_the_intensity() {
    let e = ball_trail((5, 6), 1_500);
    assert_eq!(e.count, 1);
    assert_eq!(e.position, (5, 6));
    assert_eq!(e.velocity, (0, 0));
    assert_eq!(e.size, 16_000);
    assert_eq!(e.color, Color::Black);
    assert_eq!(e.age, 375);
    assert_eq!(e.velocity_variance, (200, 200));
    assert_eq!(ball_trail((0, 0), 7).age, 1);
}

#[test]
fn a_fast_ball_still_gains_on_a_paddle() {
    let ball = Transform { position: (96_000, 32_000), velocity: (-600_000, 0) };
    let paddle = Transform { position: (64_000, 0), velocity: (0, 0) };
    let fast = Ball { radius: 16_000, speed: 600_000 };
    let (_, sped) = bounce(&ball, &fast, &paddle, &Bounds(16_000, 64_000));
    assert_eq!(sped.speed, 600_001);
    let (_, sped) = bounce(&ball, &fast, &paddle, &Bounds(16_000, 0));
    assert_eq!(sped.speed, 600_001);
}
