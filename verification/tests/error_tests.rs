//! Error values and the projection of compare-and-swap failures.
use qubit_atomic::AtomicRef;
use qubit_cas::CasErrorKind;
use qubit_cas::CasExecutor;
use qubit_cas::CasStrategy;
use qubit_state_machine::fast_state_machine_default_cas_policy;
use qubit_state_machine::probe_agrees;
use qubit_state_machine::probe_verdict;
use qubit_state_machine::step_agrees;
use qubit_state_machine::BuilderOutcome;
use qubit_state_machine::FastStateMachine;
use qubit_state_machine::StepObservation;
use qubit_state_machine::FastCasFailure;
use qubit_state_machine::FastStateMachineBuildError;
use qubit_state_machine::FastStateMachineError;
use qubit_state_machine::StateMachine;
use qubit_state_machine::StateMachineBuildError;
use qubit_state_machine::StateMachineError;
use qubit_state_machine::StateMachineResult;
use qubit_state_machine::STATE_MACHINE_DEFAULT_CAS_MAX_ATTEMPTS;

#[derive(Debug, Clone, Copy, PartialEq, Eq, Hash)]
enum State {
    New,
    Running,
}

#[derive(Debug, Clone, Copy, PartialEq, Eq, Hash)]
enum Event {
    Start,
}

#[test]
fn test_fast_state_machine_error_equality_uses_fields() {
    let first = FastStateMachineError::CasConflict { attempts: 1 };
    let second = FastStateMachineError::CasConflict { attempts: 1 };
    let different = FastStateMachineError::CasConflict { attempts: 2 };
    assert_eq!(first, second);
    assert_ne!(first, different);
}

#[test]
fn test_build_error_equality_uses_variant_fields() {
    let first = FastStateMachineBuildError::DuplicateTransition {
        source_state: 0,
        event: 1,
        existing_target: 0,
        new_target: 1,
    };
    let second = FastStateMachineBuildError::DuplicateTransition {
        source_state: 0,
        event: 1,
        existing_target: 0,
        new_target: 1,
    };
    let different = FastStateMachineBuildError::DuplicateTransition {
        source_state: 0,
        event: 1,
        existing_target: 1,
        new_target: 0,
    };

    assert_eq!(first, second);
    assert_ne!(first, different);
}

#[test]
fn test_state_machine_build_error_equality_uses_variant_fields() {
    let first = StateMachineBuildError::<u8, u8>::TransitionTargetNotRegistered {
        source_state: 1,
        event: 2,
        target: 3,
    };
    let same = StateMachineBuildError::<u8, u8>::TransitionTargetNotRegistered {
        source_state: 1,
        event: 2,
        target: 3,
    };
    let other = StateMachineBuildError::<u8, u8>::TransitionSourceNotRegistered {
        source_state: 1,
        event: 2,
        target: 3,
    };
    assert_eq!(first, same);
    assert_ne!(first, other);
}

#[test]
fn test_state_machine_error_equality_uses_variant_fields() {
    let first = StateMachineError::<u8, u8>::UnknownTransition { source_state: 1, event: 2 };
    let same = StateMachineError::<u8, u8>::UnknownTransition { source_state: 1, event: 2 };
    let other = StateMachineError::<u8, u8>::UnknownTransition { source_state: 2, event: 1 };
    assert_eq!(first, same);
    assert_ne!(first, other);
}

#[test]
fn test_state_machine_result_alias_uses_runtime_error() {
    let ok: StateMachineResult<u8, u8> = Ok(3);
    let error: StateMachineResult<u8, u8> = Err(StateMachineError::UnknownState { state: 9 });
    assert_eq!(ok, Ok(3));
    assert_eq!(error, Err(StateMachineError::UnknownState { state: 9 }));
}

#[test]
fn test_budget_projection_preserves_kind_and_attempts() {
    for kind in [CasErrorKind::OperationBudgetExceeded, CasErrorKind::TotalBudgetExceeded] {
        assert_eq!(
            StateMachine::<u8, u8>::state_error_from_parts(kind, 7, None),
            StateMachineError::CasFailure { kind, attempts: 7 },
        );
    }
}

#[test]
fn test_business_projection_preserves_original_error() {
    let business = StateMachineError::UnknownState { state: 7u8 };
    assert_eq!(
        StateMachine::<u8, u8>::state_error_from_parts(CasErrorKind::Abort, 1, Some(business),),
        business,
    );
}

#[test]
fn test_default_executor_is_attempt_bounded_without_time_budgets() {
    let machine = StateMachine::<u8, u8>::builder()
        .add_states(&[0, 1])
        .initial_state(0)
        .transition(0, 0, 1)
        .build()
        .expect("valid machine");
    let executor = machine.cas_executor();
    let limits = executor;
    assert_eq!(STATE_MACHINE_DEFAULT_CAS_MAX_ATTEMPTS, 16);
    assert_eq!(limits.max_attempts(), STATE_MACHINE_DEFAULT_CAS_MAX_ATTEMPTS);
    assert_eq!(limits.max_operation_elapsed(), None);
    assert_eq!(limits.max_total_elapsed(), None);
    assert_eq!(executor.attempt_timeout(), None);
    assert_eq!(executor.flow_timeout(), None);
}

#[test]
fn test_injection_and_strategy_replace_whole_executor() {
    for strategy_last in [false, true] {
        let executor = CasExecutor::<u8, StateMachineError<u8, u8>>::builder()
            .max_attempts(1)
            .build()
            .expect("valid executor");
        let builder = StateMachine::<u8, u8>::builder().add_state(0).initial_state(0);
        let builder = if strategy_last {
            builder.cas_executor(executor).cas_strategy(CasStrategy::LatencyFirst)
        } else {
            builder.cas_strategy(CasStrategy::LatencyFirst).cas_executor(executor)
        };
        let machine = builder.build().expect("valid machine");
        let limits = machine.cas_executor();
        if strategy_last {
            let profile = CasStrategy::LatencyFirst.profile();
            assert_eq!(limits.max_attempts(), profile.max_attempts());
            assert_eq!(limits.max_operation_elapsed(), Some(profile.max_operation_elapsed()));
            assert_eq!(limits.max_total_elapsed(), profile.max_total_elapsed());
        } else {
            assert_eq!(limits.max_attempts(), 1);
            assert_eq!(limits.max_operation_elapsed(), None);
            assert_eq!(limits.max_total_elapsed(), None);
        }
    }
}

#[test]
fn test_injected_executor_and_success_callback_work() {
    let executor = CasExecutor::<State, StateMachineError<State, Event>>::builder()
        .max_attempts(1)
        .no_delay()
        .build()
        .expect("valid executor");
    let machine = StateMachine::builder()
        .add_states(&[State::New, State::Running])
        .initial_state(State::New)
        .transition(State::New, Event::Start, State::Running)
        .cas_executor(executor)
        .build()
        .expect("valid machine");
    let state = AtomicRef::from_value(State::New);
    let mut observed = Vec::new();
    machine
        .trigger_with(&state, Event::Start, |old, new| observed.push((old, new)))
        .expect("start succeeds");
    assert_eq!(observed, vec![(State::New, State::Running)]);
    assert!(matches!(
        machine.trigger_with(&state, Event::Start, |_, _| panic!("must not run")),
        Err(StateMachineError::UnknownTransition { .. })
    ));
}

#[test]
fn test_probe_agreement_matches_outcomes_with_the_model() {
    assert!(probe_agrees::<FastStateMachineError>(Ok(2), Some(2)));
    assert!(!probe_agrees::<FastStateMachineError>(Ok(2), Some(1)));
    assert!(!probe_agrees::<FastStateMachineError>(Ok(2), None));
    assert!(probe_agrees(Err(FastStateMachineError::CasConflict { attempts: 1 }), None));
    assert!(!probe_agrees(Err(FastStateMachineError::CasConflict { attempts: 1 }), Some(0)));
}

#[test]
fn test_fast_cas_failures_project_to_runtime_errors() {
    let business = FastStateMachineError::UnknownTransition { source_state: 1, event: 2 };
    assert_eq!(
        qubit_state_machine::fast_state_machine_error_from_fast_cas_error(FastCasFailure::Abort {
            current: 1,
            error: business,
            attempts: 1,
        }),
        business
    );
    assert_eq!(
        qubit_state_machine::fast_state_machine_error_from_fast_cas_error(FastCasFailure::Conflict {
            current: 5,
            attempts: 9,
        }),
        FastStateMachineError::CasConflict { attempts: 9 }
    );
}

#[test]
fn test_probe_verdict_requires_every_probe_and_untouched_state() {
    let expected = vec![Some(1), None];
    let agreeing: Vec<Result<u64, FastStateMachineError>> =
        vec![Ok(1), Err(FastStateMachineError::CasConflict { attempts: 1 })];
    assert_eq!(probe_verdict(&expected, agreeing.clone(), 0, 6), BuilderOutcome::Built { checked_pairs: 6 });
    assert_eq!(probe_verdict(&expected, agreeing, 1, 6), BuilderOutcome::Diverged);
    let wrong_target: Vec<Result<u64, FastStateMachineError>> =
        vec![Ok(2), Err(FastStateMachineError::CasConflict { attempts: 1 })];
    assert_eq!(probe_verdict(&expected, wrong_target, 0, 6), BuilderOutcome::Diverged);
    let missing: Vec<Result<u64, FastStateMachineError>> = vec![Ok(1)];
    assert_eq!(probe_verdict(&expected, missing, 0, 6), BuilderOutcome::Diverged);
}

fn committed_step(target: u64) -> StepObservation {
    StepObservation {
        fast: Ok(target),
        standard: Ok(target),
        typed: Ok(target),
        fast_seen: Some((0, target)),
        standard_seen: Some((0, target)),
        typed_seen: Some((0, target)),
        fast_now: target,
        standard_now: target,
        typed_now: Some(target),
    }
}

#[test]
fn test_step_agrees_on_commits_and_rejections() {
    assert!(step_agrees(Some(2), 0, 1, &committed_step(2)));
    assert!(!step_agrees(Some(3), 0, 1, &committed_step(2)));
    let mut diverged_callback = committed_step(2);
    diverged_callback.standard_seen = Some((1, 2));
    assert!(!step_agrees(Some(2), 0, 1, &diverged_callback));
    let mut stale_cell = committed_step(2);
    stale_cell.typed_now = Some(0);
    assert!(!step_agrees(Some(2), 0, 1, &stale_cell));
    let rejected = StepObservation {
        fast: Err(FastStateMachineError::UnknownTransition { source_state: 1, event: 2 }),
        standard: Err(StateMachineError::UnknownTransition { source_state: 1, event: 2 }),
        typed: Err(Some(1)),
        fast_seen: None,
        standard_seen: None,
        typed_seen: None,
        fast_now: 1,
        standard_now: 1,
        typed_now: Some(1),
    };
    assert!(step_agrees(None, 1, 2, &rejected));
    assert!(!step_agrees(None, 1, 3, &rejected));
    assert!(!step_agrees(None, 0, 2, &rejected));
}

#[test]
fn test_default_fast_cas_policy_is_sixteen_spins() {
    let policy = fast_state_machine_default_cas_policy();
    assert_eq!(policy, qubit_fast_cas::FastCasPolicy::spin(16));
    let machine = FastStateMachine::builder()
        .state_count(1)
        .event_count(1)
        .initial_state(0)
        .build()
        .unwrap();
    assert_eq!(machine.cas_policy(), policy);
}

#[test]
fn test_real_engine_run_projects_business_rejection() {
    let machine = StateMachine::<u8, u8>::builder()
        .add_states(&[0, 1])
        .initial_state(0)
        .transition(0, 0, 1)
        .build()
        .expect("valid machine");
    let state = machine.create_state();
    assert_eq!(machine.trigger(&state, 0), Ok(1));
    assert_eq!(
        machine.trigger(&state, 0),
        Err(StateMachineError::UnknownTransition { source_state: 1, event: 0 })
    );
    assert_eq!(*state.load(), 1);
    let foreign = AtomicRef::from_value(9u8);
    assert_eq!(machine.trigger(&foreign, 0), Err(StateMachineError::UnknownState { state: 9 }));
    assert_eq!(*foreign.load(), 9);
}
