use pong_with_guns::components::{Ball, Bounds, Bullet, ControlType, Controls, Transform};
use pong_with_guns::state::GameState;
use pong_with_guns::store::{Arena, Record, Slot, StoreError};
use pong_with_guns::sync::{load, save, slots};

const KEYS: Controls = Controls { up: 1, left: 2, down: 3, right: 4 };

fn at(x: i32, y: i32) -> Transform {
    Transform { position: (x, y), velocity: (3, -4) }
}

fn paddle_record(t: Transform, b: Bounds, c: ControlType) -> Record {
    Record { transform: Some(t), bounds: Some(b), control: Some(c), ball: None, bullet: None }
}

fn ball_record(t: Transform, b: Ball) -> Record {
    Record { transform: Some(t), bounds: None, control: None, ball: Some(b), bullet: None }
}

fn bullet_record(t: Transform, b: Bullet) -> Record {
    Record { transform: Some(t), bounds: None, control: None, ball: None, bullet: Some(b) }
}

fn sorted(arena: &Arena) -> Vec<(u64, Record)> {
    let mut all = arena.records();
    all.sort_by_key(|(id, _)| *id);
    all
}

#[test]
fn a_new_arena_is_empty() {
    let arena = Arena::new();
    assert_eq!(arena.len(), 0);
    assert!(arena.records().is_empty());
}

#[test]
fn spawned_entities_are_stored_under_their_identifiers() {
    let mut arena = Arena::new();
    let p = arena.spawn_paddle(at(1, 2), Bounds(16_000, 64_000), ControlType::Player(KEYS, 7)).unwrap();
    let b = arena.spawn_ball(at(3, 4), Ball { radius: 16_000, speed: 1_000 }).unwrap();
    let u = arena.spawn_bullet(at(5, 6), Bullet { radius: 2_000 }).unwrap();
    assert!(p != b && b != u && p != u);
    assert_eq!(arena.len(), 3);
    let mut expected = vec![
        (p, paddle_record(at(1, 2), Bounds(16_000, 64_000), ControlType::Player(KEYS, 7))),
        (b, ball_record(at(3, 4), Ball { radius: 16_000, speed: 1_000 })),
        (u, bullet_record(at(5, 6), Bullet { radius: 2_000 })),
    ];
    expected.sort_by_key(|(id, _)| *id);
    assert_eq!(sorted(&arena), expected);
}

#[test]
fn equal_components_make_separate_entities() {
    let mut arena = Arena::new();
    let a = arena.spawn_bullet(at(5, 6), Bullet { radius: 2_000 }).unwrap();
    let b = arena.spawn_bullet(at(5, 6), Bullet { radius: 2_000 }).unwrap();
    assert_ne!(a, b);
    assert_eq!(arena.len(), 2);
    assert_eq!(arena.records().len(), 2);
}

#[test]
fn invalid_components_are_refused() {
    let mut arena = Arena::new();
    let far = Transform { position: (1_000_000_001, 0), velocity: (0, 0) };
    assert_eq!(arena.spawn_ball(far, Ball { radius: 1, speed: 1 }), Err(StoreError::InvalidComponent));
    assert_eq!(arena.spawn_ball(at(0, 0), Ball { radius: 1, speed: 0 }), Err(StoreError::InvalidComponent));
    assert_eq!(arena.spawn_ball(at(0, 0), Ball { radius: -1, speed: 1 }), Err(StoreError::InvalidComponent));
    assert_eq!(arena.spawn_bullet(far, Bullet { radius: 1 }), Err(StoreError::InvalidComponent));
    assert_eq!(arena.spawn_bullet(at(0, 0), Bullet { radius: 10_000_001 }), Err(StoreError::InvalidComponent));
    assert_eq!(
        arena.spawn_paddle(at(0, 0), Bounds(16_000, -1), ControlType::AI(0)),
        Err(StoreError::InvalidComponent)
    );
    assert_eq!(
        arena.spawn_paddle(far, Bounds(16_000, 1), ControlType::AI(0)),
        Err(StoreError::InvalidComponent)
    );
    assert_eq!(arena.len(), 0);
    assert!(arena.records().is_empty());
}

#[test]
fn components_at_the_limits_are_accepted() {
    let mut arena = Arena::new();
    let edge = Transform { position: (1_000_000_000, -1_000_000_000), velocity: (i32::MAX, i32::MIN) };
    assert!(arena.spawn_ball(edge, Ball { radius: 10_000_000, speed: i32::MAX }).is_ok());
    assert!(arena.spawn_paddle(edge, Bounds(0, 0), ControlType::AI(i64::MIN)).is_ok());
    assert!(arena.spawn_bullet(edge, Bullet { radius: 0 }).is_ok());
}

#[test]
fn despawning_removes_one_entity() {
    let mut arena = Arena::new();
    let a = arena.spawn_bullet(at(1, 1), Bullet { radius: 2_000 }).unwrap();
    let b = arena.spawn_bullet(at(2, 2), Bullet { radius: 2_000 }).unwrap();
    assert_eq!(arena.despawn(a), Ok(()));
    assert_eq!(arena.len(), 1);
    assert_eq!(arena.records(), vec![(b, bullet_record(at(2, 2), Bullet { radius: 2_000 }))]);
}

#[test]
fn despawning_twice_is_an_error() {
    let mut arena = Arena::new();
    let a = arena.spawn_bullet(at(1, 1), Bullet { radius: 2_000 }).unwrap();
    let b = arena.spawn_bullet(at(2, 2), Bullet { radius: 2_000 }).unwrap();
    assert_eq!(arena.despawn(a), Ok(()));
    assert_eq!(arena.despawn(a), Err(StoreError::EntityNotFound));
    assert_eq!(arena.len(), 1);
    assert_eq!(arena.records().len(), 1);
    assert_eq!(arena.records()[0].0, b);
}

#[test]
fn despawning_the_unknown_is_an_error() {
    let mut arena = Arena::new();
    assert_eq!(arena.despawn(0), Err(StoreError::EntityNotFound));
    assert_eq!(arena.despawn(12_345), Err(StoreError::EntityNotFound));
    assert_eq!(arena.despawn(u64::MAX), Err(StoreError::EntityNotFound));
    let a = arena.spawn_bullet(at(1, 1), Bullet { radius: 2_000 }).unwrap();
    assert_eq!(arena.despawn(a + 1), Err(StoreError::EntityNotFound));
    assert_eq!(arena.len(), 1);
}

#[test]
fn a_freed_place_is_used_again_under_a_new_identifier() {
    let mut arena = Arena::new();
    let a = arena.spawn_bullet(at(1, 1), Bullet { radius: 2_000 }).unwrap();
    arena.despawn(a).unwrap();
    let b = arena.spawn_bullet(at(2, 2), Bullet { radius: 2_000 }).unwrap();
    assert_ne!(a, b);
    assert_eq!(arena.despawn(a), Err(StoreError::EntityNotFound));
    assert_eq!(arena.len(), 1);
}

#[test]
fn clearing_removes_everything() {
    let mut arena = Arena::new();
    let a = arena.spawn_bullet(at(1, 1), Bullet { radius: 2_000 }).unwrap();
    arena.spawn_ball(at(3, 4), Ball { radius: 16_000, speed: 1_000 }).unwrap();
    arena.clear();
    assert_eq!(arena.len(), 0);
    assert!(arena.records().is_empty());
    assert_eq!(arena.despawn(a), Err(StoreError::EntityNotFound));
    arena.spawn_bullet(at(1, 1), Bullet { radius: 2_000 }).unwrap();
    assert_eq!(arena.len(), 1);
}

#[test]
fn storing_writes_adds_and_removes() {
    let mut arena = Arena::new();
    let p = arena.spawn_paddle(at(1, 2), Bounds(16_000, 64_000), ControlType::AI(0)).unwrap();
    let b = arena.spawn_ball(at(3, 4), Ball { radius: 16_000, speed: 1_000 }).unwrap();
    let u = arena.spawn_bullet(at(5, 6), Bullet { radius: 2_000 }).unwrap();
    let new_paddle = paddle_record(at(10, 20), Bounds(16_000, 63_000), ControlType::AI(9));
    let new_ball = ball_record(at(30, 40), Ball { radius: 16_000, speed: 1_500 });
    let fresh = bullet_record(at(70, 80), Bullet { radius: 2_000 });
    let slots = vec![
        Slot { id: Some(p), alive: true, record: new_paddle },
        Slot { id: Some(b), alive: true, record: new_ball },
        Slot { id: Some(u), alive: false, record: bullet_record(at(5, 6), Bullet { radius: 2_000 }) },
        Slot { id: None, alive: true, record: fresh },
        Slot { id: None, alive: false, record: fresh },
    ];
    let ids = arena.store(&slots);
    assert_eq!(ids.len(), 5);
    assert_eq!(ids[0], Some(p));
    assert_eq!(ids[1], Some(b));
    assert_eq!(ids[2], None);
    let n = ids[3].unwrap();
    assert!(n != p && n != b);
    assert_eq!(ids[4], None);
    assert_eq!(arena.len(), 3);
    let mut expected = vec![(p, new_paddle), (b, new_ball), (n, fresh)];
    expected.sort_by_key(|(id, _)| *id);
    assert_eq!(sorted(&arena), expected);
    assert_eq!(arena.despawn(u), if n == u { Ok(()) } else { Err(StoreError::EntityNotFound) });
}

#[test]
fn loading_sorts_the_entities_by_kind() {
    let mut arena = Arena::new();
    let u = arena.spawn_bullet(at(5, 6), Bullet { radius: 2_000 }).unwrap();
    let p = arena.spawn_paddle(at(1, 2), Bounds(16_000, 64_000), ControlType::Player(KEYS, 7)).unwrap();
    let b = arena.spawn_ball(at(3, 4), Ball { radius: 16_000, speed: 1_000 }).unwrap();
    let q = arena.spawn_paddle(at(9, 9), Bounds(16_000, 64_000), ControlType::AI(0)).unwrap();
    let state = GameState { hitstun: 5, ..GameState::new() };
    let scene = load(&arena, state);
    assert_eq!(scene.state, state);
    assert!(scene.bursts.is_empty() && scene.events.is_empty());
    assert_eq!(scene.paddles.iter().map(|p| p.id).collect::<Vec<_>>(), vec![Some(p), Some(q)]);
    assert_eq!(scene.paddles[0].transform, at(1, 2));
    assert_eq!(scene.paddles[0].control, ControlType::Player(KEYS, 7));
    assert_eq!(scene.paddles[1].control, ControlType::AI(0));
    assert_eq!(scene.balls.len(), 1);
    assert_eq!((scene.balls[0].id, scene.balls[0].alive), (Some(b), true));
    assert_eq!(scene.balls[0].ball, Ball { radius: 16_000, speed: 1_000 });
    assert_eq!(scene.bullets.len(), 1);
    assert_eq!((scene.bullets[0].id, scene.bullets[0].alive), (Some(u), true));
    assert_eq!(scene.bullets[0].transform, at(5, 6));
}

#[test]
fn a_scene_lists_paddles_then_balls_then_bullets() {
    let mut arena = Arena::new();
    arena.spawn_bullet(at(5, 6), Bullet { radius: 2_000 }).unwrap();
    arena.spawn_paddle(at(1, 2), Bounds(16_000, 64_000), ControlType::AI(0)).unwrap();
    arena.spawn_ball(at(3, 4), Ball { radius: 16_000, speed: 1_000 }).unwrap();
    let scene = load(&arena, GameState::new());
    let listed = slots(&scene).unwrap();
    assert_eq!(listed.len(), 3);
    assert!(listed[0].record.bounds.is_some());
    assert!(listed[1].record.ball.is_some());
    assert!(listed[2].record.bullet.is_some());
    assert!(listed.iter().all(|s| s.alive && s.id.is_some()));
}

#[test]
fn saving_a_changed_scene_changes_the_store() {
    let mut arena = Arena::new();
    let p = arena.spawn_paddle(at(1, 2), Bounds(16_000, 64_000), ControlType::AI(0)).unwrap();
    let b = arena.spawn_ball(at(3, 4), Ball { radius: 16_000, speed: 1_000 }).unwrap();
    let u = arena.spawn_bullet(at(5, 6), Bullet { radius: 2_000 }).unwrap();
    let mut scene = load(&arena, GameState::new());
    scene.paddles[0].bounds = Bounds(16_000, 10_000);
    scene.paddles[0].transform = at(11, 12);
    scene.balls[0].ball.speed = 2_000;
    scene.balls[0].transform = at(13, 14);
    scene.bullets[0].alive = false;
    let ids = save(&mut arena, &scene).unwrap();
    assert_eq!(ids, vec![Some(p), Some(b), None]);
    let again = load(&arena, GameState::new());
    assert_eq!(again.paddles, scene.paddles);
    assert_eq!(again.balls, scene.balls);
    assert!(again.bullets.is_empty());
    assert_eq!(arena.despawn(u), Err(StoreError::EntityNotFound));
}
