use molecular_dynamics::integration::StepType;
use molecular_dynamics::schedule::{frame_plan, substeps_per_frame, Action, FrameCursor};

fn reset(body: usize) -> Action {
    Action::ResetAcceleration { body }
}

fn pair(first: usize, second: usize) -> Action {
    Action::ApplyPair { first, second }
}

fn integrate(body: usize, step_type: StepType) -> Action {
    Action::Integrate { body, step_type }
}

#[test]
fn empty_collection_is_a_no_op() {
    assert!(frame_plan(0, StepType::Naive, 1).is_empty());
    assert!(frame_plan(0, StepType::Verlet, 7).is_empty());
}

#[test]
fn single_body_has_no_self_force() {
    let plan = frame_plan(1, StepType::Verlet, 3);
    assert_eq!(
        plan,
        vec![
            reset(0),
            integrate(0, StepType::Verlet),
            reset(0),
            integrate(0, StepType::Verlet),
            reset(0),
            integrate(0, StepType::Verlet),
        ]
    );
    assert!(!plan.iter().any(|a| matches!(a, Action::ApplyPair { .. })));
}

#[test]
fn two_bodies_one_pair() {
    let plan = frame_plan(2, StepType::Naive, 1);
    assert_eq!(
        plan,
        vec![
            reset(0),
            reset(1),
            pair(0, 1),
            integrate(0, StepType::Naive),
            integrate(1, StepType::Naive),
        ]
    );
}

#[test]
fn four_bodies_canonical_order() {
    let plan = frame_plan(4, StepType::VelocityVerlet, 1);
    let s = StepType::VelocityVerlet;
    assert_eq!(
        plan,
        vec![
            reset(0),
            reset(1),
            reset(2),
            reset(3),
            pair(0, 1),
            pair(0, 2),
            pair(0, 3),
            pair(1, 2),
            pair(1, 3),
            pair(2, 3),
            integrate(0, s),
            integrate(1, s),
            integrate(2, s),
            integrate(3, s),
        ]
    );
}

#[test]
fn pair_count_is_n_choose_two() {
    for n in 0..12usize {
        let plan = frame_plan(n, StepType::Naive, 1);
        let pairs = plan.iter().filter(|a| matches!(a, Action::ApplyPair { .. })).count();
        assert_eq!(pairs, n * n.saturating_sub(1) / 2);
        assert_eq!(plan.len(), 2 * n + pairs);
    }
}

#[test]
fn every_pair_exactly_once_and_ascending() {
    let n = 7usize;
    let plan = frame_plan(n, StepType::Naive, 1);
    let pairs: Vec<(usize, usize)> = plan
        .iter()
        .filter_map(|a| match a {
            Action::ApplyPair { first, second } => Some((*first, *second)),
            _ => None,
        })
        .collect();
    for i in 0..n {
        for j in 0..n {
            let count = pairs.iter().filter(|p| **p == (i, j)).count();
            assert_eq!(count, if i < j { 1 } else { 0 });
        }
    }
    for w in pairs.windows(2) {
        assert!(w[0] < w[1]);
    }
}

#[test]
fn phases_are_ordered() {
    let plan = frame_plan(5, StepType::Verlet, 1);
    let phase = |a: &Action| match a {
        Action::ResetAcceleration { .. } => 0,
        Action::ApplyPair { .. } => 1,
        Action::Integrate { .. } => 2,
    };
    for w in plan.windows(2) {
        assert!(phase(&w[0]) <= phase(&w[1]));
    }
}

#[test]
fn frame_repeats_the_substep() {
    let one = frame_plan(3, StepType::Naive, 1);
    let four = frame_plan(3, StepType::Naive, 4);
    assert_eq!(one.len(), 9);
    assert_eq!(four.len(), 4 * one.len());
    for (t, a) in four.iter().enumerate() {
        assert_eq!(*a, one[t % one.len()]);
    }
}

#[test]
fn zero_substeps_do_nothing() {
    assert!(frame_plan(5, StepType::Naive, 0).is_empty());
}

#[test]
fn substep_count_defaults_to_one() {
    assert_eq!(substeps_per_frame(None), 1);
    assert_eq!(substeps_per_frame(Some(0)), 0);
    assert_eq!(substeps_per_frame(Some(5)), 5);
    assert_eq!(substeps_per_frame(Some(255)), 255);
}

#[test]
fn step_type_defaults_to_euler() {
    assert_eq!(StepType::resolve(None), StepType::Naive);
    assert_eq!(StepType::resolve(Some(StepType::Verlet)), StepType::Verlet);
    assert_eq!(StepType::resolve(Some(StepType::VelocityVerlet)), StepType::VelocityVerlet);
    assert_eq!(StepType::resolve(Some(StepType::Naive)), StepType::Naive);
}

fn drain(mut cursor: FrameCursor) -> Vec<Action> {
    let mut out = Vec::new();
    while let Some(a) = cursor.next_action() {
        out.push(a);
    }
    out
}

#[test]
fn cursor_walks_the_frame_plan() {
    for n in 0..8usize {
        for k in 0..4u32 {
            for s in [StepType::Naive, StepType::Verlet, StepType::VelocityVerlet] {
                assert_eq!(drain(FrameCursor::new(n, s, k)), frame_plan(n, s, k));
            }
        }
    }
}

#[test]
fn cursor_stays_exhausted() {
    let mut cursor = FrameCursor::new(2, StepType::Naive, 1);
    assert_eq!(cursor.next_action(), Some(reset(0)));
    assert_eq!(cursor.next_action(), Some(reset(1)));
    assert_eq!(cursor.next_action(), Some(pair(0, 1)));
    assert_eq!(cursor.next_action(), Some(integrate(0, StepType::Naive)));
    assert_eq!(cursor.next_action(), Some(integrate(1, StepType::Naive)));
    assert_eq!(cursor.next_action(), None);
    assert_eq!(cursor.next_action(), None);
}

#[test]
fn each_body_reset_and_advanced_once() {
    let n = 6usize;
    let s = StepType::Verlet;
    let plan = frame_plan(n, s, 1);
    for b in 0..n {
        assert_eq!(plan.iter().filter(|a| **a == reset(b)).count(), 1);
        assert_eq!(plan.iter().filter(|a| **a == integrate(b, s)).count(), 1);
    }
    assert!(plan
        .iter()
        .all(|a| !matches!(a, Action::Integrate { step_type, .. } if *step_type != s)));
}
