//! Simulation core of a small arena-combat game on a bounded planar field.
//!
//! All quantities are fixed-point integers: lengths, speeds and health points
//! are counted in thousandths of a unit, time in nanoseconds.

pub mod app_globals;
pub mod asteroids;
pub mod collision_detection;
pub mod combat;
pub mod components;
pub mod despawn;
pub mod fixed;
pub mod health;
pub mod hud;
pub mod movement;
pub mod overlap_table;
pub mod random;
pub mod saucer;
pub mod schedule;
pub mod score_text;
pub mod shield;
pub mod sound_fx;
pub mod spaceship;
pub mod state;
pub mod timer;
pub mod vector;
pub mod world;
