//! Runtime errors returned by state transitions, and the outcomes of one
//! compare-and-swap run that they are computed from.
use qubit_cas::CasErrorKind;
use vstd::prelude::*;

verus! {

/// Error returned when an event cannot be applied to the current state.
#[derive(Debug, Clone, Copy, PartialEq, Eq)]
pub enum StateMachineError<S, E> {
    /// The current state is not registered in the state machine.
    UnknownState {
        /// The unregistered current state.
        state: S,
    },
    /// There is no transition for the current state and event pair.
    UnknownTransition {
        /// The current source state.
        source_state: S,
        /// The event that was triggered.
        event: E,
    },
    /// CAS execution terminated before a transition could be installed.
    CasFailure {
        /// Terminal CAS error kind.
        kind: CasErrorKind,
        /// Number of attempts executed by the CAS executor.
        attempts: u32,
    },
}

/// Result returned by event-triggering state machine operations.
pub type StateMachineResult<S, E> = Result<S, StateMachineError<S, E>>;

/// A successful compare-and-swap run of the generic engine.
#[derive(Debug, Clone, Copy, PartialEq, Eq)]
pub enum CasChange<S> {
    /// The observed state `previous` was replaced by `current`.
    Updated {
        /// The state the committed attempt observed.
        previous: S,
        /// The state it installed.
        current: S,
    },
    /// The run finished without writing; `current` was observed.
    Finished {
        /// The observed state.
        current: S,
    },
}

/// A terminal failure of one compare-and-swap run of the generic engine.
#[derive(Debug, Clone, Copy, PartialEq, Eq)]
pub struct CasFailureReport<S, E> {
    /// The classified kind of the failure.
    pub kind: CasErrorKind,
    /// Attempts executed.
    pub attempts: u32,
    /// The business error of the last attempt, when the decision rejected
    /// the state it observed.
    pub business: Option<StateMachineError<S, E>>,
}

} // verus!
