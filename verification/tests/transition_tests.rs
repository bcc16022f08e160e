//! The transition value type.
use std::collections::HashSet;

use qubit_state_machine::Transition;

#[derive(Debug, Clone, Copy, Eq, PartialEq, Hash)]
enum TestState {
    Ready,
    Running,
}

#[derive(Debug, Clone, Copy, Eq, PartialEq, Hash)]
enum TestEvent {
    Start,
}

#[test]
fn test_transition_new_stores_source_event_and_target() {
    let transition = Transition::new(TestState::Ready, TestEvent::Start, TestState::Running);

    assert_eq!(transition.source(), TestState::Ready);
    assert_eq!(transition.event(), TestEvent::Start);
    assert_eq!(transition.target(), TestState::Running);
}

#[test]
fn transition_tests_test_transition_hash_and_equality_use_all_fields() {
    let transition = Transition::new(TestState::Ready, TestEvent::Start, TestState::Running);
    let same = Transition::new(TestState::Ready, TestEvent::Start, TestState::Running);
    let different = Transition::new(TestState::Running, TestEvent::Start, TestState::Ready);

    let mut transitions = HashSet::new();
    transitions.insert(transition);
    transitions.insert(same);
    transitions.insert(different);

    assert_eq!(transitions.len(), 2);
    assert!(transitions.contains(&transition));
    assert!(transitions.contains(&different));
}

#[test]
fn test_transition_is_available_without_machine_features() {
    let transition = Transition::new(1_u8, 2_u8, 3_u8);
    assert_eq!(transition.source(), 1);
    assert_eq!(transition.event(), 2);
    assert_eq!(transition.target(), 3);
}

#[test]
fn test_transition_hash_and_equality_use_all_fields() {
    let first = Transition::new(1_u8, 2_u8, 3_u8);
    let same = Transition::new(1_u8, 2_u8, 3_u8);
    let different = Transition::new(3_u8, 2_u8, 1_u8);
    assert_eq!(first, same);
    assert_ne!(first, different);
}
