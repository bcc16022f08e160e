//! Runtime failures from typed event validation or the fast engine.
use vstd::prelude::*;

use super::DenseCode;

verus! {

/// Error returned when a typed event cannot commit a transition.
#[derive(Debug, Clone, Copy, PartialEq, Eq)]
pub enum TypedFastStateMachineError<S: DenseCode, E: DenseCode> {
    /// The supplied event is absent from its declared finite table.
    InvalidEventCode {
        /// The invalid event value.
        event: E,
        /// The invalid event's claimed code.
        code: u64,
    },
    /// No transition is configured for the typed pair.
    UnknownTransition {
        /// The current typed state.
        source_state: S,
        /// The triggering event.
        event: E,
    },
    /// CAS retries were exhausted.
    CasConflict {
        /// Number of exhausted CAS attempts.
        attempts: u32,
    },
    /// The stored state code is outside the typed codebook.
    InvalidStateCode {
        /// The invalid stored code.
        code: u64,
    },
}

impl<S: DenseCode, E: DenseCode> TypedFastStateMachineError<S, E> {
    /// Returns whether the event has no configured transition from the
    /// observed state.
    pub fn is_unknown_transition(&self) -> (r: bool)
        ensures
            r == (self is UnknownTransition),
    {
        match self {
            TypedFastStateMachineError::UnknownTransition { .. } => true,
            _ => false,
        }
    }

    /// Returns whether the CAS retry budget was exhausted.
    pub fn is_cas_conflict(&self) -> (r: bool)
        ensures
            r == (self is CasConflict),
    {
        match self {
            TypedFastStateMachineError::CasConflict { .. } => true,
            _ => false,
        }
    }
}

} // verus!
