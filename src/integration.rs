//! The three explicit time-integration schemes a body can be advanced with.
use vstd::prelude::*;

verus! {

/// Time-integration scheme applied to every body at the end of a sub-step.
#[derive(Clone, Copy, Debug, PartialEq, Eq, Structural)]
pub enum StepType {
    /// Explicit Euler: position from the old velocity, velocity from the
    /// acceleration.
    Naive,
    /// Stormer-Verlet: position from the current and the previous position,
    /// velocity as a central difference.
    Verlet,
    /// Velocity-Verlet with the pre-step acceleration for both half-kicks.
    VelocityVerlet,
}

/// The scheme a step uses: the one asked for, explicit Euler when none is.
pub open spec fn chosen(step_type: Option<StepType>) -> StepType {
    match step_type {
        Some(s) => s,
        None => StepType::Naive,
    }
}

impl StepType {
    /// Resolves an optional choice of scheme, defaulting to explicit Euler.
    pub fn resolve(step_type: Option<StepType>) -> (r: StepType)
        ensures
            r == chosen(step_type),
    {
        match step_type {
            Some(s) => s,
            None => StepType::Naive,
        }
    }

    /// Whether a step with this scheme overwrites the stored previous
    /// position with the position it started from.
    pub open spec fn records_history(self) -> bool {
        self is Verlet || self is VelocityVerlet
    }
}

/// Whether a body's stored previous position is the one synthesised at
/// construction or one recorded by a step.
#[derive(Clone, Copy, Debug, PartialEq, Eq, Structural)]
pub enum History {
    /// Set at construction to `p - dt * (v + dt * a / 2)`, an estimate of the
    /// position one step earlier.
    Synthesized,
    /// Set by a Verlet-family step to the position that step started from.
    Recorded,
}

impl History {
    /// History state of a fresh body.
    pub fn new() -> (r: History)
        ensures
            r == History::Synthesized,
    {
        History::Synthesized
    }

    /// History state after one step with `step_type`: recorded after a
    /// Verlet-family step, unchanged after an explicit Euler step.
    pub fn after_step(self, step_type: StepType) -> (r: History)
        ensures
            r == (if step_type.records_history() {
                History::Recorded
            } else {
                self
            }),
    {
        match step_type {
            StepType::Naive => self,
            StepType::Verlet | StepType::VelocityVerlet => History::Recorded,
        }
    }
}

} // verus!
