use pong_with_guns::components::{Ball, Bounds, Transform};
use pong_with_guns::geometry::{square_distance, square_distance_point_segment, test_sphere_capsule};

fn at(x: i32, y: i32) -> Transform {
    Transform { position: (x, y), velocity: (0, 0) }
}

fn overlap(sx: i32, sy: i32, r: i32, cx: i32, cy: i32, hw: i32, hh: i32) -> bool {
    test_sphere_capsule((&at(sx, sy), &Ball { radius: r, speed: 1 }), (&at(cx, cy), &Bounds(hw, hh)))
}

#[test]
fn square_distance_is_sum_of_squares() {
    assert_eq!(square_distance(0, 0, 3, 4), 25);
    assert_eq!(square_distance(3, 4, 0, 0), 25);
    assert_eq!(square_distance(-2, 7, -2, 7), 0);
    assert_eq!(square_distance(-1, -1, 2, 3), 25);
}

#[test]
fn square_distance_takes_the_whole_range() {
    let d = square_distance(i32::MIN, i32::MIN, i32::MAX, i32::MAX);
    let side = (i32::MAX as i128) - (i32::MIN as i128);
    assert_eq!(d, 2 * side * side);
}

#[test]
fn point_on_segment_has_distance_zero() {
    assert_eq!(square_distance_point_segment((0, 0), (0, 10), (0, 5)), 0);
    assert_eq!(square_distance_point_segment((0, 0), (0, 10), (0, 0)), 0);
    assert_eq!(square_distance_point_segment((0, 0), (0, 10), (0, 10)), 0);
    assert_eq!(square_distance_point_segment((-4, -2), (8, 4), (2, 1)), 0);
}

#[test]
fn point_before_the_first_end_measures_to_it() {
    assert_eq!(square_distance_point_segment((0, 0), (0, 10), (0, -5)), 25);
    assert_eq!(square_distance_point_segment((0, 0), (0, 10), (3, -4)), 25);
}

#[test]
fn point_beyond_the_second_end_measures_to_it() {
    assert_eq!(square_distance_point_segment((0, 0), (0, 10), (0, 15)), 25);
    assert_eq!(square_distance_point_segment((0, 0), (0, 10), (3, 14)), 25);
}

#[test]
fn point_beside_the_segment_measures_the_perpendicular() {
    assert_eq!(square_distance_point_segment((0, 0), (0, 10), (5, 5)), 25);
    assert_eq!(square_distance_point_segment((0, 0), (9, 0), (3, 1)), 1);
}

#[test]
fn a_projection_onto_an_end_measures_to_that_end() {
    // the projection of c is a itself
    assert_eq!(square_distance_point_segment((0, 0), (0, 10), (5, 0)), 25);
    // the projection of c is b itself
    assert_eq!(square_distance_point_segment((0, 0), (0, 10), (5, 10)), 25);
    assert_eq!(square_distance_point_segment((1, 1), (4, 5), (-3, 4)), 25);
    assert_eq!(square_distance_point_segment((1, 1), (4, 5), (0, 8)), 25);
}

#[test]
fn inexact_perpendicular_is_rounded_up() {
    // exact squared distance is 1/5
    assert_eq!(square_distance_point_segment((0, 0), (2, 1), (1, 1)), 1);
    // exact squared distance is 49/2
    assert_eq!(square_distance_point_segment((0, 0), (7, 7), (7, 0)), 25);
}

#[test]
fn a_segment_of_one_point_is_that_point() {
    assert_eq!(square_distance_point_segment((2, 2), (2, 2), (5, 6)), 25);
    assert_eq!(square_distance_point_segment((2, 2), (2, 2), (2, 2)), 0);
}

#[test]
fn swapping_the_ends_keeps_the_distance() {
    let points = [(0, 0), (7, 3), (-5, 11), (2, -9), (13, 13)];
    for a in points {
        for b in points {
            for c in points {
                assert_eq!(
                    square_distance_point_segment(a, b, c),
                    square_distance_point_segment(b, a, c)
                );
            }
        }
    }
}

#[test]
fn the_far_corner_of_the_reach_is_accepted() {
    let m = 1 << 30;
    let d = square_distance_point_segment((-m, -m), (m, m), (m, -m));
    assert_eq!(d, 2 * (m as i128) * (m as i128));
}

#[test]
fn circle_touches_capsule_along_its_side() {
    // capsule centred at the origin, radius 2, core from (0, 5) to (0, -5)
    assert!(overlap(5, 0, 3, 0, 0, 2, 5));
    assert!(!overlap(6, 0, 3, 0, 0, 2, 5));
    assert!(overlap(5, 5, 3, 0, 0, 2, 5));
    assert!(overlap(5, -5, 3, 0, 0, 2, 5));
}

#[test]
fn circle_touches_capsule_at_its_cap() {
    // distance to the upper end (0, 5) is 5
    assert!(overlap(3, 9, 3, 0, 0, 2, 5));
    assert!(!overlap(3, 9, 2, 0, 0, 2, 5));
    assert!(overlap(0, 10, 3, 0, 0, 2, 5));
    assert!(!overlap(0, 11, 3, 0, 0, 2, 5));
}

#[test]
fn capsule_without_height_is_a_circle() {
    assert!(overlap(3, 4, 2, 0, 0, 3, 0));
    assert!(!overlap(3, 4, 1, 0, 0, 3, 0));
}

#[test]
fn overlap_survives_a_shift() {
    let cases = [(5, 0, 3), (6, 0, 3), (3, 9, 3), (3, 9, 2), (0, 11, 3), (-4, -8, 2)];
    let moves = [(0, 0), (1000, -250), (-77, 31), (123_456, 654_321)];
    for (sx, sy, r) in cases {
        let here = overlap(sx, sy, r, 0, 0, 2, 5);
        for (tx, ty) in moves {
            assert_eq!(overlap(sx + tx, sy + ty, r, tx, ty, 2, 5), here);
        }
    }
}

#[test]
fn overlap_survives_reflection() {
    let cases = [(5, 0, 3), (6, 0, 3), (3, 9, 3), (3, 9, 2), (0, 11, 3), (-4, -8, 2), (2, 7, 1)];
    for (sx, sy, r) in cases {
        let here = overlap(sx, sy, r, 1, 2, 2, 5);
        // in the line x = 10
        assert_eq!(overlap(20 - sx, sy, r, 20 - 1, 2, 2, 5), here);
        // in the line y = -3
        assert_eq!(overlap(sx, -6 - sy, r, 1, -6 - 2, 2, 5), here);
    }
}
