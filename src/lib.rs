//! Core of a fixed-step N-body gravity simulator: the body registry, the
//! integrator's pair schedule and step driver, and the bounded, decimated
//! trail history of each body.
//!
//! The arithmetic of the physics is the host's, on its own vector and
//! scalar types, handed to the step driver as closures. This crate owns the
//! body state, which pairs interact, the order of the three phases of a
//! step (every force from one snapshot of positions, then every velocity,
//! then every position), and the trail buffer.

pub mod trail;
pub mod recorder;
pub mod registry;
pub mod integrator;
