//! Force-accumulation and time-integration scheduling for a small
//! classical-mechanics kernel.
//!
//! The numerical work (vectors of physical quantities, potentials and
//! integrators) runs on floating-point values outside this crate. What is
//! decided here, and proved, is everything that does not depend on those
//! values: which integrator a step uses, the exact order in which a frame
//! resets accelerations, evaluates each unordered pair of bodies and advances
//! every body, how many sub-steps a frame runs, and the display choices the
//! statistics overlay makes.
pub mod integration;
pub mod laws;
pub mod schedule;
pub mod screen;
pub mod units;
