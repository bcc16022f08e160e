//! The compare-and-swap engines of the outside crates, as Verus sees them.
//!
//! Everything here is trusted: the declarations make the outside types
//! usable in verified code, and the contracts state what the outside
//! sources show of the functions.
use qubit_atomic::AtomicRef;
use qubit_cas::CasDecision;
use qubit_cas::CasErrorKind;
use qubit_cas::CasExecutor;
use qubit_cas::CasStrategy;
use qubit_cas::CasSuccess;
use qubit_fast_cas::CasCell;
use qubit_fast_cas::FastCas;
use qubit_fast_cas::FastCasError;
use qubit_fast_cas::FastCasPolicy;
use qubit_fast_cas::FastCasState;
use std::fmt::Debug;
use std::time::Duration;
use std::hash::Hash;
use vstd::prelude::*;

use crate::CasChange;
use crate::CasFailureReport;
use crate::FastCasFailure;
use crate::FastStateMachine;
use crate::FastStateMachineError;
use crate::StateMachine;
use crate::StateMachineError;

verus! {

/// The retry policy of the compact CAS engine (opaque to Verus).
#[verifier::external_type_specification]
#[verifier::external_body]
pub struct ExFastCasPolicy(FastCasPolicy);

/// The atomic `u64` cell of the compact CAS engine (opaque to Verus).
#[verifier::external_type_specification]
#[verifier::external_body]
pub struct ExCasCell(CasCell);

/// `FastCasPolicy::spin` builds a spinning retry policy; nothing is claimed
/// of the policy value.
pub assume_specification[ FastCasPolicy::spin ](max_attempts: u32) -> FastCasPolicy;

/// `FastCasPolicy` derives `Clone` and `Copy`: a clone is the same value.
pub assume_specification[ <FastCasPolicy as Clone>::clone ](policy: &FastCasPolicy) -> (r: FastCasPolicy)
    ensures
        r == *policy,
;

/// `CasCell::new` (alias `FastCasState::new`) creates a cell holding
/// `value`; the cell is shared memory, so nothing is claimed of what later
/// loads observe.
pub assume_specification[ CasCell::new ](value: u64) -> CasCell;

/// `CasCell::load` reads the current value; other threads may change it at
/// any time, so nothing is claimed of the result.
pub assume_specification[ CasCell::load ](cell: &CasCell) -> u64;

/// Runs `FastCas::update_by` with the machine's policy, deciding each
/// attempt by `FastStateMachine::cas_step`.
///
/// By the source of `update_by` and `execute`: a success reports the value
/// the committed attempt observed and the value it installed, which is the
/// decision's target for that observation; an abort reports the observed
/// value with the decision's error. A conflict reports the value that made
/// the last compare-and-swap fail, of which nothing is claimed.
#[verifier::external_body]
pub(crate) fn fast_cas_transition(
    machine: &FastStateMachine,
    state: &FastCasState,
    event: u64,
) -> (r: Result<(u64, u64), FastCasFailure>)
    ensures
        match r {
            Ok((previous, next)) => machine@.next_state(previous, event) == Ok::<u64, FastStateMachineError>(next),
            Err(FastCasFailure::Abort { current, error, .. }) => machine@.next_state(current, event) == Err::<u64, FastStateMachineError>(error),
            Err(FastCasFailure::Conflict { .. }) => true,
        },
{
    match FastCas::with_policy(machine.cas_policy).update_by(state, |current| machine.cas_step(current, event)) {
        Ok(success) => Ok((success.previous(), success.current())),
        Err(FastCasError::Abort { current, error, attempts }) => Err(FastCasFailure::Abort { current, error, attempts }),
        Err(FastCasError::Conflict { current, attempts }) => Err(FastCasFailure::Conflict { current, attempts }),
    }
}

/// The classified kind of a terminal failure of the generic CAS engine
/// (opaque to Verus).
#[verifier::external_type_specification]
#[verifier::external_body]
pub struct ExCasErrorKind(CasErrorKind);

/// `CasErrorKind` derives `Clone` and `Copy`: a clone is the same value.
pub assume_specification[ <CasErrorKind as Clone>::clone ](kind: &CasErrorKind) -> (r: CasErrorKind)
    ensures
        r == *kind,
;

/// The lock-free shared reference that holds a generic machine's current
/// state (opaque to Verus).
#[verifier::external_type_specification]
#[verifier::external_body]
#[verifier::reject_recursive_types(T)]
pub struct ExAtomicRef<T>(AtomicRef<T>);

/// The retrying executor of the generic CAS engine (opaque to Verus).
#[verifier::external_type_specification]
#[verifier::external_body]
#[verifier::reject_recursive_types(T)]
#[verifier::reject_recursive_types(E)]
pub struct ExCasExecutor<T, E>(CasExecutor<T, E>);

/// A built-in retry strategy of the generic CAS engine (opaque to Verus).
#[verifier::external_type_specification]
#[verifier::external_body]
pub struct ExCasStrategy(CasStrategy);

/// `AtomicRef::from_value` creates a reference holding `value`; the
/// reference is shared memory, so nothing is claimed of later loads.
pub assume_specification<T>[ AtomicRef::<T>::from_value ](value: T) -> AtomicRef<T>;

/// `CasExecutor` implements `Clone` by copying its configuration and
/// sharing its retry cache; nothing is claimed of the copy.
pub assume_specification<T, E>[ <CasExecutor<T, E> as Clone>::clone ](executor: &CasExecutor<T, E>) -> CasExecutor<T, E>;

/// `CasExecutor::with_strategy` builds an executor from a built-in
/// strategy; the source builds it with `expect` on settings it documents as
/// always valid. Nothing is claimed of the executor.
pub assume_specification<T, E>[ CasExecutor::<T, E>::with_strategy ](strategy: CasStrategy) -> CasExecutor<T, E>;

/// Reads the value a shared reference currently holds, by
/// `AtomicRef::load`. Other threads may change it at any time, so nothing is
/// claimed of the result.
#[verifier::external_body]
pub(crate) fn load_state<S: Copy>(state: &AtomicRef<S>) -> S {
    *state.load()
}

/// Builds an executor through `CasExecutor::builder` with the given
/// attempt budget, time budgets and timeouts, and no delay between
/// attempts. The source's `build` fails only for zero attempts (the no-delay
/// backoff is always valid), which `requires` excludes. Nothing is claimed
/// of the executor.
#[verifier::external_body]
pub(crate) fn undelayed_executor<T, E>(
    max_attempts: u32,
    max_operation_elapsed: Option<Duration>,
    max_total_elapsed: Option<Duration>,
    flow_timeout: Option<Duration>,
    attempt_timeout: Option<Duration>,
) -> CasExecutor<T, E>
    requires
        max_attempts > 0,
{
    CasExecutor::builder()
        .max_attempts(max_attempts)
        .max_operation_elapsed(max_operation_elapsed)
        .max_total_elapsed(max_total_elapsed)
        .flow_timeout(flow_timeout)
        .attempt_timeout(attempt_timeout)
        .no_delay()
        .build()
        .expect("an executor with attempts and no delay is valid")
}

/// Runs `CasExecutor::execute_result` with `executor`, deciding
/// each attempt by `StateMachine::next_state`: a target becomes an update
/// to it (reported as the output too), a rejection aborts the run.
///
/// By the source of `execute_result` and `apply_decision`: a success
/// reports the value the committed attempt observed and the value it
/// installed, which is the decision's target for that observation; the
/// decision never finishes without writing. A failure reports its kind and
/// attempt count, of which nothing is claimed (they depend on timing), and
/// the error of its last attempt when that attempt was rejected by the
/// decision.
#[verifier::external_body]
pub(crate) fn standard_cas_transition<S, E>(
    machine: &StateMachine<S, E>,
    executor: &CasExecutor<S, StateMachineError<S, E>>,
    state: &AtomicRef<S>,
    event: E,
) -> (r: Result<CasChange<S>, CasFailureReport<S, E>>)
    where
        S: Copy + Eq + Hash + Debug + 'static,
        E: Copy + Eq + Hash + Debug + 'static,
    ensures
        match r {
            Ok(CasChange::Updated { previous, current }) => machine@.next_state(previous, event) == Ok::<S, StateMachineError<S, E>>(current),
            Ok(CasChange::Finished { .. }) => false,
            Err(report) => match report.business {
                Some(error) => exists|observed: S| machine@.next_state(observed, event) == Err::<S, StateMachineError<S, E>>(error),
                None => true,
            },
        },
{
    let result = executor.execute_result(state, |current: &S| match machine.next_state(*current, event) {
        Ok(next) => CasDecision::update(next, next),
        Err(error) => CasDecision::abort(error),
    });
    match result {
        Ok(CasSuccess::Updated { previous, current, .. }) => Ok(CasChange::Updated { previous: *previous, current: *current }),
        Ok(CasSuccess::Finished { current, .. }) => Ok(CasChange::Finished { current: *current }),
        Err(error) => Err(CasFailureReport { kind: error.kind(), attempts: error.attempts(), business: error.error().copied() }),
    }
}

} // verus!
