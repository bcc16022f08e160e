//! Runtime errors returned by fast state machine transitions.
use vstd::prelude::*;

verus! {

/// Error returned when an event cannot be applied through a fast state machine.
#[derive(Debug, Clone, Copy, PartialEq, Eq)]
pub enum FastStateMachineError {
    /// The current state code is not configured in the state machine.
    UnknownState {
        /// The unregistered current state code.
        state: u64,
    },
    /// No transition is configured for the `(state, event)` pair.
    UnknownTransition {
        /// The source state code.
        source_state: u64,
        /// The triggering event code.
        event: u64,
    },
    /// CAS conflicts were exhausted before the update could be installed.
    CasConflict {
        /// The total number of CAS attempts executed.
        attempts: u32,
    },
}

/// Result returned by the fast state machine's runtime transition operations.
pub type FastStateMachineResult = Result<u64, FastStateMachineError>;

/// A terminal failure of one compare-and-swap run, as reported by the
/// compact CAS engine.
#[derive(Debug, Clone, Copy, PartialEq, Eq)]
pub enum FastCasFailure {
    /// The decision rejected the observed state with a business error.
    Abort {
        /// The state observed when the decision was made.
        current: u64,
        /// The business error.
        error: FastStateMachineError,
        /// Attempts executed.
        attempts: u32,
    },
    /// Every allowed attempt lost its compare-and-swap race.
    Conflict {
        /// The state observed by the last failed compare-and-swap.
        current: u64,
        /// Attempts executed.
        attempts: u32,
    },
}

/// Converts a compact CAS failure into the runtime error of the fast state
/// machine: an abort keeps its business error, a conflict reports its
/// attempt count.
pub fn fast_state_machine_error_from_fast_cas_error(error: FastCasFailure) -> (r: FastStateMachineError)
    ensures
        r == (match error {
            FastCasFailure::Abort { error, .. } => error,
            FastCasFailure::Conflict { attempts, .. } => FastStateMachineError::CasConflict { attempts },
        }),
{
    match error {
        FastCasFailure::Abort { error, .. } => error,
        FastCasFailure::Conflict { attempts, .. } => FastStateMachineError::CasConflict { attempts },
    }
}

} // verus!
