//! Tick-based simulation core of a small tower-defense game.
//!
//! All quantities are integers: lengths are micrometres, times are
//! milliseconds and speeds are micrometres per millisecond.
pub mod body;
pub mod geometry;
mod ids;
pub mod proofs;
pub mod tower;
pub mod world;

pub use body::{Body, Bullet, PhysicsBundle, PhysicsPlugin, Target};
pub use geometry::{Vec3i, WORLD_EDGE};
pub use tower::{Tower, TowerPlugin, BULLET_HALF_EXTENT, BULLET_LIFETIME, BULLET_SPEED};
pub use world::{SpawnError, World};
