//! Concrete instances of the library's laws.
use qubit_atomic::AtomicRef;
use qubit_fast_cas::FastCasState;
use qubit_state_machine::FastStateMachine;
use qubit_state_machine::FastStateMachineBuildError;
use qubit_state_machine::FastStateMachineError;
use qubit_state_machine::StateMachine;
use qubit_state_machine::StateMachineBuildError;
use qubit_state_machine::StateMachineError;

#[test]
fn test_fast_terminal_state_rejects_every_event() {
    let machine = FastStateMachine::builder()
        .state_count(3)
        .event_count(3)
        .initial_state(0)
        .terminal_state(2)
        .transition(0, 0, 1)
        .transition(1, 1, 2)
        .build()
        .expect("valid rules");
    for event in 0..4 {
        let state = FastCasState::new(2);
        assert_eq!(
            machine.trigger(&state, event),
            Err(FastStateMachineError::UnknownTransition { source_state: 2, event })
        );
        assert_eq!(machine.transition_target(2, event), None);
    }
}

#[test]
fn test_standard_terminal_state_rejects_every_event() {
    let machine = StateMachine::<u8, u8>::builder()
        .add_states(&[0, 1, 2])
        .initial_state(0)
        .terminal_state(2)
        .transition(0, 0, 1)
        .transition(1, 1, 2)
        .build()
        .expect("valid rules");
    for event in 0..4 {
        let state = AtomicRef::from_value(2_u8);
        assert_eq!(
            machine.trigger(&state, event),
            Err(StateMachineError::UnknownTransition { source_state: 2, event })
        );
    }
}

#[test]
fn test_fast_repeated_transition_changes_nothing() {
    let once = FastStateMachine::builder()
        .state_count(3)
        .event_count(2)
        .initial_state(0)
        .transition(0, 0, 1)
        .transition(1, 1, 2)
        .build()
        .expect("valid rules");
    let twice = FastStateMachine::builder()
        .state_count(3)
        .event_count(2)
        .initial_state(0)
        .transition(0, 0, 1)
        .transition(1, 1, 2)
        .transition(0, 0, 1)
        .build()
        .expect("a repeated rule is accepted");
    assert_eq!(once.transition_count(), twice.transition_count());
    for source in 0..3 {
        for event in 0..2 {
            assert_eq!(once.transition_target(source, event), twice.transition_target(source, event));
        }
    }
    assert_eq!(
        FastStateMachine::builder()
            .state_count(3)
            .event_count(2)
            .transition(0, 0, 1)
            .transition(0, 0, 1)
            .build()
            .expect_err("the first error is unchanged by a repeated rule"),
        FastStateMachineBuildError::InitialStateNotConfigured
    );
}

#[test]
fn test_standard_repeated_transition_changes_nothing() {
    let twice = StateMachine::<u8, u8>::builder()
        .add_states(&[0, 1, 2])
        .initial_state(0)
        .transition(0, 0, 1)
        .transition(0, 0, 1)
        .build()
        .expect("a repeated rule is accepted");
    assert_eq!(twice.transition_count(), 1);
    assert_eq!(twice.transition_target(0, 0), Some(1));
    assert_eq!(
        StateMachine::<u8, u8>::builder()
            .add_states(&[0, 1, 2])
            .initial_state(0)
            .transition(0, 0, 1)
            .transition(0, 0, 1)
            .transition(0, 0, 2)
            .build()
            .expect_err("a conflicting rule is still rejected"),
        StateMachineBuildError::DuplicateTransition {
            source_state: 0,
            event: 0,
            existing_target: 1,
            new_target: 2,
        }
    );
}

#[test]
fn test_backends_agree_on_in_range_rules() {
    let rules = [(0_u64, 0_u64, 1_u64), (1, 0, 2), (0, 1, 2), (0, 0, 1)];
    let mut fast = FastStateMachine::builder().state_count(3).event_count(2).initial_state(0);
    let mut standard = StateMachine::<u64, u64>::builder().add_states(&[0, 1, 2]).initial_state(0);
    for &(source, event, target) in &rules {
        fast = fast.transition(source, event, target);
        standard = standard.transition(source, event, target);
    }
    let fast = fast.build().expect("fast accepts");
    let standard = standard.build().expect("standard accepts");
    assert_eq!(fast.transition_count(), standard.transition_count());
    for source in 0..3 {
        for event in 0..2 {
            assert_eq!(fast.transition_target(source, event), standard.transition_target(source, event));
        }
    }
    let fast_error = FastStateMachine::builder()
        .state_count(3)
        .event_count(2)
        .initial_state(0)
        .transition(1, 1, 0)
        .transition(1, 1, 2)
        .build()
        .expect_err("conflict");
    let standard_error = StateMachine::<u64, u64>::builder()
        .add_states(&[0, 1, 2])
        .initial_state(0)
        .transition(1, 1, 0)
        .transition(1, 1, 2)
        .build()
        .expect_err("conflict");
    assert_eq!(
        fast_error,
        FastStateMachineBuildError::DuplicateTransition {
            source_state: 1,
            event: 1,
            existing_target: 0,
            new_target: 2,
        }
    );
    assert_eq!(
        standard_error,
        StateMachineBuildError::DuplicateTransition {
            source_state: 1,
            event: 1,
            existing_target: 0,
            new_target: 2,
        }
    );
}

#[test]
fn test_trigger_commits_the_target_of_the_observed_state() {
    let machine = FastStateMachine::builder()
        .state_count(4)
        .event_count(1)
        .initial_state(0)
        .transition(0, 0, 1)
        .transition(1, 0, 3)
        .transition(3, 0, 2)
        .build()
        .expect("valid rules");
    let state = machine.create_state();
    let mut observed = Vec::new();
    for _ in 0..3 {
        let before = state.load();
        let next = machine
            .trigger_with(&state, 0, |old, new| observed.push((old, new)))
            .expect("each state has a successor");
        assert_eq!(machine.transition_target(before, 0), Some(next));
        assert_eq!(state.load(), next);
    }
    assert_eq!(observed, vec![(0, 1), (1, 3), (3, 2)]);
    assert_eq!(
        machine.trigger(&state, 0),
        Err(FastStateMachineError::UnknownTransition { source_state: 2, event: 0 })
    );
}

#[test]
fn test_last_initial_state_wins_and_later_terminal_duplicates_are_merged() {
    let machine = StateMachine::<u8, u8>::builder()
        .add_states(&[3, 1, 2, 1])
        .initial_state(1)
        .initial_state(2)
        .terminal_states(&[3, 3])
        .build()
        .expect("valid rules");
    assert_eq!(machine.initial_state(), 2);
    assert_eq!(machine.states(), &[3, 1, 2]);
    assert_eq!(machine.state_count(), 3);
    assert_eq!(machine.terminal_states(), &[3]);
}

#[test]
fn test_fast_cell_limit_is_inclusive_and_checked_after_rules() {
    assert_eq!(
        FastStateMachine::builder()
            .state_count(2)
            .event_count(3)
            .initial_state(0)
            .transition(0, 3, 1)
            .max_table_cells(1)
            .build()
            .expect_err("rule errors come first"),
        FastStateMachineBuildError::TransitionEventOutOfRange { event: 3, event_count: 3 }
    );
    assert!(FastStateMachine::builder()
        .state_count(2)
        .event_count(3)
        .initial_state(0)
        .max_table_cells(6)
        .build()
        .is_ok());
}
