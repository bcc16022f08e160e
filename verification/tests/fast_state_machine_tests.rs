//! Triggering events on fast state machines.
use std::sync::atomic::{
    AtomicUsize,
    Ordering,
};
use std::sync::{
    Arc,
    Mutex,
};

use qubit_fast_cas::{
    FastCasPolicy,
    FastCasState,
};
use qubit_state_machine::{
    FAST_STATE_MACHINE_DEFAULT_CAS_ATTEMPTS,
    FastStateMachine,
    FastStateMachineError,
};

const QUEUED: u64 = 0;
const RUNNING: u64 = 1;
const SUCCEEDED: u64 = 2;
const FAILED: u64 = 3;

const START: u64 = 0;
const COMPLETE: u64 = 1;
const FAIL: u64 = 2;
const TICK: u64 = 3;

fn create_machine() -> FastStateMachine {
    FastStateMachine::builder()
        .state_count(4)
        .event_count(4)
        .initial_state(QUEUED)
        .terminal_states(&[SUCCEEDED, FAILED])
        .transition(QUEUED, START, RUNNING)
        .transition(RUNNING, COMPLETE, SUCCEEDED)
        .transition(RUNNING, FAIL, FAILED)
        .transition(RUNNING, TICK, RUNNING)
        .build()
        .expect("fast machine should build")
}

#[test]
fn test_trigger_updates_fast_state_and_returns_next_state() {
    let machine = create_machine();
    let state = FastCasState::new(QUEUED);

    let next = machine
        .trigger(&state, START)
        .expect("start transition should be valid");

    assert_eq!(next, RUNNING);
    assert_eq!(state.load(), RUNNING);
}

#[test]
fn test_trigger_returns_error_for_unknown_transition_and_keeps_state() {
    let machine = create_machine();
    let state = FastCasState::new(QUEUED);

    let error = machine
        .trigger(&state, COMPLETE)
        .expect_err("queued state has no complete transition");

    assert_eq!(
        error,
        FastStateMachineError::UnknownTransition {
            source_state: QUEUED,
            event: COMPLETE,
        }
    );
    assert_eq!(state.load(), QUEUED);
}

#[test]
fn test_trigger_returns_error_for_unknown_state() {
    let machine = create_machine();
    let state = FastCasState::new(9);

    let error = machine
        .trigger(&state, START)
        .expect_err("unknown state should fail");

    assert_eq!(error, FastStateMachineError::UnknownState { state: 9 });
    assert_eq!(state.load(), 9);
}

#[test]
fn test_trigger_preserves_high_u64_unknown_state() {
    let machine = create_machine();
    let high_state = 1_u64 << 32;
    let state = FastCasState::new(high_state);

    let error = machine
        .trigger(&state, START)
        .expect_err("high u64 state must not be truncated to a valid code");

    assert_eq!(
        error,
        FastStateMachineError::UnknownState { state: high_state }
    );
    assert_eq!(state.load(), high_state);
}

#[test]
fn test_trigger_with_calls_callback_after_success() {
    let machine = create_machine();
    let state = FastCasState::new(QUEUED);
    let callback_states = Arc::new(Mutex::new(Vec::new()));
    let callback_states_for_capture = Arc::clone(&callback_states);

    let next = machine
        .trigger_with(&state, START, |old_state, new_state| {
            callback_states_for_capture
                .lock()
                .expect("callback state should lock")
                .push((old_state, new_state));
        })
        .expect("start should succeed");

    assert_eq!(next, RUNNING);
    assert_eq!(
        callback_states
            .lock()
            .expect("callback state should lock")
            .as_slice(),
        &[(QUEUED, RUNNING)],
    );
    assert_eq!(state.load(), RUNNING);
}

#[test]
fn fast_state_machine_tests_test_trigger_with_accepts_callback_that_consumes_capture() {
    let machine = create_machine();
    let state = FastCasState::new(QUEUED);
    let captured = String::from("consume once");

    let next = machine
        .trigger_with(&state, START, move |old_state, new_state| {
            assert_eq!((old_state, new_state), (QUEUED, RUNNING));
            drop(captured);
        })
        .expect("FnOnce callback should be accepted");

    assert_eq!(next, RUNNING);
}

#[test]
fn test_try_trigger_is_boolean_result_without_error() {
    let machine = create_machine();
    let state = FastCasState::new(QUEUED);

    assert!(machine.try_trigger(&state, START));
    assert_eq!(state.load(), RUNNING);
    assert!(!machine.try_trigger(&state, START));
    assert_eq!(state.load(), RUNNING);
}

#[test]
fn test_try_trigger_with_calls_callback_only_on_success() {
    let machine = create_machine();
    let state = FastCasState::new(QUEUED);
    let callback_count = AtomicUsize::new(0);

    let matched = machine.try_trigger_with(&state, COMPLETE, |_, _| {
        callback_count.fetch_add(1, Ordering::SeqCst);
    });
    assert!(!matched);
    assert_eq!(callback_count.load(Ordering::SeqCst), 0);
    assert_eq!(state.load(), QUEUED);

    let matched = machine.try_trigger_with(&state, START, |_, _| {
        callback_count.fetch_add(1, Ordering::SeqCst);
    });
    assert!(matched);
    assert_eq!(callback_count.load(Ordering::SeqCst), 1);
    assert_eq!(state.load(), RUNNING);
}

#[test]
fn test_transition_target_is_constant_time_lookup_for_known_codes() {
    let machine = create_machine();

    assert_eq!(machine.transition_target(RUNNING, TICK), Some(RUNNING));
    assert_eq!(machine.transition_target(RUNNING, FAIL), Some(FAILED));
    assert_eq!(machine.transition_target(FAILED, START), None);
}

#[test]
fn test_cas_policy_is_readable_from_machine() {
    let default_machine = FastStateMachine::builder()
        .state_count(1)
        .event_count(1)
        .initial_state(QUEUED)
        .transition(QUEUED, START, QUEUED)
        .build()
        .expect("single-state machine should build");

    assert_eq!(
        default_machine.cas_policy(),
        FastCasPolicy::spin(FAST_STATE_MACHINE_DEFAULT_CAS_ATTEMPTS)
    );

    let custom_policy = FastCasPolicy::spin(8);
    let custom_machine = FastStateMachine::builder()
        .state_count(1)
        .event_count(1)
        .initial_state(QUEUED)
        .cas_policy(custom_policy)
        .transition(QUEUED, START, QUEUED)
        .build()
        .expect("single-state machine should build with custom policy");

    assert_eq!(custom_machine.cas_policy(), custom_policy);
}

#[test]
fn test_transition_target_returns_none_for_out_of_range_input() {
    let machine = create_machine();

    assert_eq!(machine.transition_target(u64::MAX, START), None);
    assert_eq!(machine.transition_target(QUEUED, u64::MAX), None);
}

#[test]
fn test_state_setters_and_queries() {
    let machine = create_machine();
    let transitions = machine.transitions();

    assert_eq!(transitions.len(), 4);
    assert_eq!(machine.terminal_states(), vec![SUCCEEDED, FAILED]);
    assert!(machine.is_initial_state(QUEUED));
    assert!(!machine.is_initial_state(RUNNING));
    assert!(machine.is_terminal_state(SUCCEEDED));
    assert!(!machine.is_terminal_state(RUNNING));
    assert!(!machine.is_initial_state(9));
    assert!(!machine.is_terminal_state(9));
}
