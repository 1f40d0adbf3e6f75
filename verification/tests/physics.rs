use pong_with_guns::components::{Field, Transform};
use pong_with_guns::fixed::{clamp, clamp_i32, clamp_i64, div_toward_zero, isqrt};
use pong_with_guns::physics::{advance, bounce_off_walls, faster, redirect};

const FIELD: Field = Field { width: 1_280_000, height: 720_000 };

#[test]
fn quotients_round_toward_zero() {
    assert_eq!(div_toward_zero(7, 2), 3);
    assert_eq!(div_toward_zero(-7, 2), -3);
    assert_eq!(div_toward_zero(6, 3), 2);
    assert_eq!(div_toward_zero(-1, 4), 0);
    assert_eq!(div_toward_zero(0, 9), 0);
}

#[test]
fn clamps_hold_values_in_range() {
    assert_eq!(clamp(5, 0, 10), 5);
    assert_eq!(clamp(-5, 0, 10), 0);
    assert_eq!(clamp(15, 0, 10), 10);
    assert_eq!(clamp_i32(1 << 40), i32::MAX);
    assert_eq!(clamp_i32(-(1 << 40)), i32::MIN);
    assert_eq!(clamp_i32(-17), -17);
    assert_eq!(clamp_i64(i128::MAX), i64::MAX);
    assert_eq!(clamp_i64(i128::MIN), i64::MIN);
    assert_eq!(clamp_i64(99), 99);
}

#[test]
fn integer_square_roots_round_down() {
    assert_eq!(isqrt(0), 0);
    assert_eq!(isqrt(1), 1);
    assert_eq!(isqrt(3), 1);
    assert_eq!(isqrt(4), 2);
    assert_eq!(isqrt(99), 9);
    assert_eq!(isqrt(100), 10);
    assert_eq!(isqrt(4_360_000_000_000), 2_088_061);
    assert_eq!(isqrt(u128::MAX), u64::MAX);
}

#[test]
fn advance_adds_the_velocity() {
    let t = Transform { position: (100_000, 200_000), velocity: (1_500, -2_500) };
    let moved = advance(&t, &FIELD);
    assert_eq!(moved.position, (101_500, 197_500));
    assert_eq!(moved.velocity, (1_500, -2_500));
}

#[test]
fn advance_stops_at_the_margin() {
    let right = Transform { position: (1_290_000, 10), velocity: (50_000, 0) };
    assert_eq!(advance(&right, &FIELD).position, (1_296_000, 10));
    let left = Transform { position: (-10_000, 10), velocity: (-50_000, 0) };
    assert_eq!(advance(&left, &FIELD).position, (-16_000, 10));
    let low = Transform { position: (10, 730_000), velocity: (0, 50_000) };
    assert_eq!(advance(&low, &FIELD).position, (10, 736_000));
    let high = Transform { position: (10, 0), velocity: (0, i32::MIN) };
    assert_eq!(advance(&high, &FIELD).position, (10, -16_000));
}

#[test]
fn advance_brings_a_far_position_back() {
    let t = Transform { position: (i32::MAX, i32::MIN), velocity: (i32::MAX, i32::MIN) };
    assert_eq!(advance(&t, &FIELD).position, (1_296_000, -16_000));
}

#[test]
fn ball_inside_the_field_is_not_reflected() {
    let t = Transform { position: (5, 0), velocity: (1, -9) };
    assert_eq!(bounce_off_walls(&t, &FIELD), (t, false));
    let t = Transform { position: (5, 720_000), velocity: (1, 9) };
    assert_eq!(bounce_off_walls(&t, &FIELD), (t, false));
}

#[test]
fn ball_above_the_field_is_reflected() {
    let t = Transform { position: (5, -3_000), velocity: (700, -900) };
    let (out, hit) = bounce_off_walls(&t, &FIELD);
    assert!(hit);
    assert_eq!(out.position, (5, 0));
    assert_eq!(out.velocity, (700, 900));
}

#[test]
fn ball_below_the_field_is_reflected() {
    let t = Transform { position: (5, 723_000), velocity: (700, 900) };
    let (out, hit) = bounce_off_walls(&t, &FIELD);
    assert!(hit);
    assert_eq!(out.position, (5, 720_000));
    assert_eq!(out.velocity, (700, -900));
}

#[test]
fn reflecting_the_lowest_velocity_stays_in_range() {
    let t = Transform { position: (5, -1), velocity: (0, i32::MIN) };
    assert_eq!(bounce_off_walls(&t, &FIELD).0.velocity, (0, i32::MAX));
}

#[test]
fn faster_adds_half_a_pixel_over_the_speed() {
    assert_eq!(faster(1_000), 1_500);
    assert_eq!(faster(1_500), 1_833);
    assert_eq!(faster(500), 1_500);
    assert_eq!(faster(1), 500_001);
    assert_eq!(faster(500_000), 500_001);
}

#[test]
fn speed_rises_with_every_hit() {
    let mut speed = 1_000;
    for _ in 0..200 {
        let next = faster(speed);
        assert!(next > speed);
        speed = next;
    }
}

#[test]
fn speed_beyond_the_boost_rises_by_one_unit() {
    assert_eq!(faster(500_001), 500_002);
    assert_eq!(faster(1_000_000), 1_000_001);
    assert_eq!(faster(i32::MAX - 1), i32::MAX);
}

#[test]
fn the_largest_speed_stays() {
    assert_eq!(faster(i32::MAX), i32::MAX);
}

#[test]
fn speed_rises_with_every_hit_at_any_speed() {
    for start in [1, 499_999, 500_000, 500_001, 7_000_000, i32::MAX - 300] {
        let mut speed = start;
        for _ in 0..200 {
            let next = faster(speed);
            assert!(next > speed);
            speed = next;
        }
    }
}

#[test]
fn redirect_scales_to_the_speed() {
    assert_eq!(redirect((3, 4), 1_000), Some((600, 800)));
    assert_eq!(redirect((-3, 4), 1_000), Some((-600, 800)));
    assert_eq!(redirect((3, -4), 1_000), Some((600, -800)));
    assert_eq!(redirect((3_000, 4_000), 2_000), Some((1_200, 1_600)));
    assert_eq!(redirect((0, -7), 1_234), Some((0, -1_234)));
    assert_eq!(redirect((1, 1), 1_000), Some((707, 707)));
}

#[test]
fn redirect_of_no_direction_is_none() {
    assert_eq!(redirect((0, 0), 1_000), None);
}

#[test]
fn redirect_with_speed_zero_stands_still() {
    assert_eq!(redirect((5, -5), 0), Some((0, 0)));
}

#[test]
fn redirect_takes_the_largest_direction() {
    let m = 1i64 << 43;
    assert_eq!(redirect((m, 0), i32::MAX), Some((i32::MAX, 0)));
    let out = redirect((m, -m), 1_000_000).unwrap();
    assert_eq!(out, (707_106, -707_106));
}

#[test]
fn redirected_velocity_has_the_length_of_the_speed() {
    let directions: [(i64, i64); 8] =
        [(1, 0), (1, 1), (2, -7), (-13, 5), (900, 1), (-1, -1_000), (123_456, -654_321), (7, 0)];
    let speeds = [1, 2, 999, 1_000, 1_500, 77_777, 2_000_000];
    for d in directions {
        for s in speeds {
            let (vx, vy) = redirect(d, s).unwrap();
            let (vx, vy, s) = (vx as i128, vy as i128, s as i128);
            assert!(vx.abs() <= s && vy.abs() <= s);
            assert!(1_000_000 * (vx * vx + vy * vy) <= 1_002_001 * s * s);
            assert!((vx.abs() + 1) * (vx.abs() + 1) + (vy.abs() + 1) * (vy.abs() + 1) > s * s);
            // the direction is kept
            assert!(vx * (d.0 as i128) >= 0 && vy * (d.1 as i128) >= 0);
        }
    }
}

#[test]
fn a_field_has_positive_sides() {
    assert!(FIELD.is_sized());
    assert!(Field { width: 1, height: 1 }.is_sized());
    assert!(!Field { width: 0, height: 1 }.is_sized());
    assert!(!Field { width: 1, height: 0 }.is_sized());
    assert!(!Field { width: -5, height: 5 }.is_sized());
    assert!(Field { width: 900_000_000, height: 900_000_000 }.is_sized());
    assert!(!Field { width: 1, height: 900_000_001 }.is_sized());
}

#[test]
fn motion_needs_no_room_for_a_serve() {
    let narrow = Field { width: 1_000, height: 2_000 };
    assert!(narrow.is_sized() && !narrow.is_valid());
    let t = Transform { position: (500, 500), velocity: (20_000, -20_000) };
    assert_eq!(advance(&t, &narrow).position, (17_000, -16_000));
    let above = Transform { position: (500, -1), velocity: (0, -7) };
    assert_eq!(bounce_off_walls(&above, &narrow).0, Transform { position: (500, 0), velocity: (0, 7) });
}

#[test]
fn field_validity() {
    assert!(FIELD.is_valid());
    assert!(Field { width: 1_280, height: 1 }.is_valid());
    assert!(!Field { width: 1_279, height: 1 }.is_valid());
    assert!(!Field { width: 1_280, height: 0 }.is_valid());
    assert!(Field { width: 900_000_000, height: 900_000_000 }.is_valid());
    assert!(!Field { width: 900_000_001, height: 1 }.is_valid());
}
