//! A match from the outside: setting up the store, and playing a frame
//! on it.

use crate::components::{Bounds, ControlType, Controls, Event, Field, Transform};
use crate::control::Input;
use crate::particles::{emitted, ParticleStorage};
use crate::resolver::{PADDLE_HEIGHT, PADDLE_WIDTH};
use crate::scene::{
    draw_drifts, drifts_for, fit_for_frame, frame_with, spec_frame, SceneModel,
};
use crate::state::GameState;
use crate::store::{paddle_record, stored, Arena, Record, StoreError};
use crate::sync::{
    has_room, lemma_extension_tracks, lemma_mirror_tracks, load, mirrors, save, slots_of,
};
use vstd::prelude::*;

verus! {

/// The key codes of the left player's four directions: the letters W, A,
/// S and D.
pub const KEY_UP: u32 = 0x57;

pub const KEY_LEFT: u32 = 0x41;

pub const KEY_DOWN: u32 = 0x53;

pub const KEY_RIGHT: u32 = 0x44;

/// How far from its edge of the field a paddle starts.
pub const PADDLE_INSET: i32 = 64_000;

/// The left paddle at the start of a session: steered with the keys, at
/// mid-height near the left edge.
pub open spec fn left_paddle(field: Field) -> Record {
    paddle_record(
        Transform { position: (PADDLE_INSET, (field.height / 2) as i32), velocity: (0, 0) },
        Bounds(PADDLE_WIDTH, PADDLE_HEIGHT),
        ControlType::Player(
            Controls { up: KEY_UP, left: KEY_LEFT, down: KEY_DOWN, right: KEY_RIGHT },
            0,
        ),
    )
}

/// The right paddle at the start of a session: steered by the computer,
/// at mid-height near the right edge.
pub open spec fn right_paddle(field: Field) -> Record {
    paddle_record(
        Transform {
            position: ((field.width - PADDLE_INSET) as i32, (field.height / 2) as i32),
            velocity: (0, 0),
        },
        Bounds(PADDLE_WIDTH, PADDLE_HEIGHT),
        ControlType::AI(0),
    )
}

/// Empties the store and puts the two paddles in. The result holds their
/// identifiers, the left paddle's first.
pub fn world_reset(arena: &mut Arena, field: &Field) -> (ids: (u64, u64))
    requires
        field.sized(),
    ensures
        final(arena).wf(),
        ids.0 != ids.1,
        final(arena)@ == Map::<u64, Record>::empty().insert(ids.0, left_paddle(*field)).insert(
            ids.1,
            right_paddle(*field),
        ),
{
    arena.clear();
    let left = arena.spawn_paddle(
        Transform { position: (PADDLE_INSET, field.height / 2), velocity: (0, 0) },
        Bounds(PADDLE_WIDTH, PADDLE_HEIGHT),
        ControlType::Player(
            Controls { up: KEY_UP, left: KEY_LEFT, down: KEY_DOWN, right: KEY_RIGHT },
            0,
        ),
    );
    let right = arena.spawn_paddle(
        Transform { position: (field.width - PADDLE_INSET, field.height / 2), velocity: (0, 0) },
        Bounds(PADDLE_WIDTH, PADDLE_HEIGHT),
        ControlType::AI(0),
    );
    match (left, right) {
        (Ok(left), Ok(right)) => (left, right),
        _ => (0, 0),
    }
}

/// What `tick` has done where no hit-freeze was running. `before` is the
/// scene that it read from the store and `drifts` are the drifts that it
/// drew. If the store has room for the frame's new entities, it holds
/// the frame's entities under `ids`, the state is the frame's, the
/// frame's bursts have become particles, and the outcome is the frame's
/// events. If not, nothing has changed and the outcome is an error.
pub open spec fn played(
    before: SceneModel,
    drifts: Seq<i32>,
    ids: Seq<Option<u64>>,
    input: Input,
    now: i64,
    field: Field,
    old_state: GameState,
    new_state: GameState,
    old_view: Map<u64, Record>,
    new_view: Map<u64, Record>,
    old_particles: Seq<crate::particles::Particle>,
    new_particles: Seq<crate::particles::Particle>,
    outcome: Result<Vec<Event>, StoreError>,
) -> bool {
    let after = spec_frame(before, input.start, input.held@, now, field, drifts);
    &&& mirrors(before, old_view)
    &&& before.state == old_state
    &&& before.bursts.len() == 0
    &&& before.events.len() == 0
    &&& drifts_for(drifts, before.paddles.len())
    &&& if has_room(old_view, after) {
        &&& outcome is Ok
        &&& outcome->Ok_0@ == after.events
        &&& new_state == after.state
        &&& stored(slots_of(after), ids, new_view)
        &&& emitted(old_particles, new_particles, after.bursts, now)
    } else {
        &&& outcome == Err::<Vec<Event>, StoreError>(StoreError::Full)
        &&& new_state == old_state
        &&& new_view == old_view
        &&& new_particles == old_particles
    }
}

/// Plays one frame of the match. While hit-freeze lasts, the frame
/// counts it down and touches nothing else. Otherwise the stored
/// entities are copied into a scene, the scene goes through one frame,
/// and the outcome is stored: see `played`.
pub fn tick(
    state: &mut GameState,
    arena: &mut Arena,
    particles: &mut ParticleStorage,
    input: &Input,
    now: i64,
    field: &Field,
) -> (outcome: Result<Vec<Event>, StoreError>)
    requires
        old(arena).wf(),
        fit_for_frame(*field, *old(state), input.start),
    ensures
        final(arena).wf(),
        old(state).hitstun > 0 ==> {
            &&& outcome is Ok
            &&& outcome->Ok_0@.len() == 0
            &&& *final(state) == (GameState {
                hitstun: (old(state).hitstun - 1) as i32,
                ..*old(state)
            })
            &&& final(arena)@ == old(arena)@
            &&& final(particles)@ == old(particles)@
        },
        old(state).hitstun <= 0 ==> exists|
            before: SceneModel,
            drifts: Seq<i32>,
            ids: Seq<Option<u64>>,
        |
            played(
                before,
                drifts,
                ids,
                *input,
                now,
                *field,
                *old(state),
                *final(state),
                old(arena)@,
                final(arena)@,
                old(particles)@,
                final(particles)@,
                outcome,
            ),
        final(state).left_score >= old(state).left_score,
        final(state).right_score >= old(state).right_score,
        old(state).hitstun <= 0 ==> final(state).hitstun >= old(state).hitstun,
{
    if state.suspended() {
        state.cool_down();
        return Ok(Vec::new());
    }
    let mut scene = load(arena, *state);
    let ghost before = scene@;
    let drifts = draw_drifts(scene.paddles.len());
    frame_with(&mut scene, input, now, field, &drifts);
    proof {
        lemma_mirror_tracks(before, arena@);
        lemma_extension_tracks(before, scene@, arena@);
    }
    match save(arena, &scene) {
        Some(ids) => {
            *state = scene.state;
            particles.emit_all(now, &scene.bursts);
            let outcome = Ok(scene.events);
            proof {
                assert(played(
                    before,
                    drifts@,
                    ids@,
                    *input,
                    now,
                    *field,
                    *old(state),
                    *state,
                    old(arena)@,
                    arena@,
                    old(particles)@,
                    particles@,
                    outcome,
                ));
            }
            outcome
        },
        None => {
            let outcome = Err(StoreError::Full);
            proof {
                assert(played(
                    before,
                    drifts@,
                    Seq::<Option<u64>>::empty(),
                    *input,
                    now,
                    *field,
                    *old(state),
                    *state,
                    old(arena)@,
                    arena@,
                    old(particles)@,
                    particles@,
                    outcome,
                ));
            }
            outcome
        },
    }
}

} // verus!
