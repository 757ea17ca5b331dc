//! A swarm of massless particles pulled towards a pointer by an
//! inverse-distance force and damped by friction, on a fixed-point canvas.
pub mod field;
pub mod fixed;
pub mod laws;
pub mod particle;

pub use field::{new_field, update_field, PARTICLE_COUNT};
pub use fixed::SCALE;
pub use particle::{
    Particle, Vector2, FRICTION, MIN_DIST, POS_LIMIT, SCREEN_HEIGHT, SCREEN_WIDTH, VEL_LIMIT,
};
