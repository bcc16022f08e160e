//! Validation errors returned when building a state machine.
use vstd::prelude::*;

verus! {

/// Error returned when state machine rules are internally inconsistent.
#[derive(Debug, Clone, Copy, PartialEq, Eq)]
pub enum StateMachineBuildError<S, E> {
    /// No initial state was configured.
    InitialStateNotConfigured,
    /// An initial state was configured but not registered as a state.
    InitialStateNotRegistered {
        /// The unregistered initial state.
        state: S,
    },
    /// A terminal state was configured but not registered as a state.
    TerminalStateNotRegistered {
        /// The unregistered terminal state.
        state: S,
    },
    /// A terminal state has an outgoing transition.
    TerminalStateHasOutgoingTransition {
        /// Terminal source state.
        state: S,
        /// Event that would leave the terminal state.
        event: E,
        /// Target state of the forbidden transition.
        target: S,
    },
    /// A transition source was not registered as a state.
    TransitionSourceNotRegistered {
        /// Source state of the invalid transition.
        source_state: S,
        /// Event of the invalid transition.
        event: E,
        /// Target state of the invalid transition.
        target: S,
    },
    /// A transition target was not registered as a state.
    TransitionTargetNotRegistered {
        /// Source state of the invalid transition.
        source_state: S,
        /// Event of the invalid transition.
        event: E,
        /// Target state of the invalid transition.
        target: S,
    },
    /// Two transitions use the same `(source, event)` with different targets.
    DuplicateTransition {
        /// Source state shared by both transitions.
        source_state: S,
        /// Event shared by both transitions.
        event: E,
        /// Target registered first.
        existing_target: S,
        /// Conflicting target registered later.
        new_target: S,
    },
}

} // verus!
