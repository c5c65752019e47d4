use molecular_dynamics::integration::{History, StepType};

#[test]
fn fresh_body_has_synthesized_history() {
    assert_eq!(History::new(), History::Synthesized);
}

#[test]
fn euler_keeps_history_state() {
    assert_eq!(History::Synthesized.after_step(StepType::Naive), History::Synthesized);
    assert_eq!(History::Recorded.after_step(StepType::Naive), History::Recorded);
}

#[test]
fn verlet_family_records_history() {
    assert_eq!(History::Synthesized.after_step(StepType::Verlet), History::Recorded);
    assert_eq!(History::Synthesized.after_step(StepType::VelocityVerlet), History::Recorded);
    assert_eq!(History::Recorded.after_step(StepType::Verlet), History::Recorded);
}
