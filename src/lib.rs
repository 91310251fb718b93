//! A frame-driven 2D particle simulation: pointer input spawns particles that
//! travel outward and shrink until they are removed.
//!
//! All quantities are fixed-point integers: lengths in millionths of a world
//! unit, times in microseconds, angles in whole degrees (hue in millionths of
//! a degree), and unit direction vectors in millionths.
pub mod cursor;
pub mod lifecycle;
pub mod motion;
pub mod particle;

pub use cursor::{cursor_world_position, Mat4};
pub use lifecycle::{tick, Action, MIN_SIZE};
pub use motion::{integrate, Angle, Direction, Position, Velocity, UNIT};
pub use particle::{hue_at, Particle, ParticleStore};
