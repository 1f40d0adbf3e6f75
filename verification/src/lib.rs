//! The simulation core of a two-player arcade game: paddles deflect a
//! ball across a field, players shoot at the ball and at each other's
//! paddle, and a match runs through rounds.
//!
//! All quantities are integers. Lengths and velocities are counted in
//! thousandths of a pixel (`fixed::UNIT`), times in milliseconds, and
//! every quotient rounds toward zero.
//!
//! A frame is played by `game::tick`. It copies the entities out of the
//! store (`store`, `sync`) into a `scene::Scene`, runs the passes of the
//! frame on that copy (`scene`, with the rules of `physics`, `control`
//! and `resolver`), and hands the outcome back to the store. The state of
//! the match is a `state::GameState`; the particles that the passes ask
//! for live in a `particles::ParticleStorage`.

pub mod components;
pub mod control;
pub mod fixed;
pub mod game;
pub mod geometry;
pub mod particles;
pub mod physics;
pub mod resolver;
pub mod scene;
pub mod state;
pub mod store;
pub mod sync;
