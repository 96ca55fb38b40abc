//! Right-of-way management for a four-approach intersection: the movement
//! model, the geometric conflict model, the per-movement signal state machine
//! and the per-tick admission scheduler.
//!
//! Lengths are integer millipixels and times integer milliseconds, so every
//! computation is exact.

pub mod conflict;
pub mod geometry;
pub mod movement;
pub mod path;
pub mod resolution_laws;
pub mod signal_laws;
pub mod traffic_light;
pub mod traffic_light_controller;

pub use movement::{Direction, Origin, SimplifiedCar};
pub use traffic_light::{TrafficLight, TrafficLightState};
pub use traffic_light_controller::{Candidate, TrafficLightController};
