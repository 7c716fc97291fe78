//! Core simulation of a top-down survival shooter: enemy population
//! management (spawn / homing steering / despawn), bullet lifecycle
//! (fire / integrate / age-expiry), and spatial-index-accelerated
//! collision resolution between bullets and enemies.
//!
//! Positions are integer world coordinates; time is in milliseconds.
//! Rendering, input devices and audio are outside collaborators: the
//! simulation consumes plain values (elapsed time, movement intent,
//! trigger state, aim target) and emits health deltas and lifecycle
//! decisions.

pub mod combat;
pub mod config;
pub mod geom;
pub mod index;
pub mod player;
pub mod pop;
pub mod proj;
pub mod sim;
mod rng;
