//! Validation errors returned while building a fast state machine.
use vstd::prelude::*;

verus! {

/// Error returned when a fast state machine configuration is invalid.
#[derive(Debug, Clone, Copy, PartialEq, Eq)]
pub enum FastStateMachineBuildError {
    /// State count was not configured.
    StateCountNotConfigured,
    /// Event count was not configured.
    EventCountNotConfigured,
    /// No initial state was configured.
    InitialStateNotConfigured,
    /// State count must be greater than zero.
    InvalidStateCount {
        /// Requested state count.
        count: u64,
    },
    /// Event count must be greater than zero.
    InvalidEventCount {
        /// Requested event count.
        count: u64,
    },
    /// Transition-table size overflowed `u64`.
    TransitionTableOverflow {
        /// The number of states.
        state_count: u64,
        /// The number of events.
        event_count: u64,
    },
    /// Transition-table storage cannot be represented or allocated.
    TransitionTableCapacityExceeded {
        /// The number of states.
        state_count: u64,
        /// The number of events.
        event_count: u64,
    },
    /// The transition table exceeds the configured cell budget.
    TransitionTableLimitExceeded {
        /// Number of states.
        state_count: u64,
        /// Number of events.
        event_count: u64,
        /// Required cells.
        cells: u64,
        /// Configured maximum.
        limit: u64,
    },
    /// The initial state code is not below the configured state count.
    InitialStateOutOfRange {
        /// The invalid initial state.
        state: u64,
        /// Configured state count.
        state_count: u64,
    },
    /// A terminal state code is not below the configured state count.
    TerminalStateOutOfRange {
        /// The invalid terminal state.
        state: u64,
        /// Configured state count.
        state_count: u64,
    },
    /// A terminal state has an outgoing transition.
    TerminalStateHasOutgoingTransition {
        /// Terminal source state.
        state: u64,
        /// Event that would leave the terminal state.
        event: u64,
        /// Target of the forbidden transition.
        target: u64,
    },
    /// A transition source code is not below the configured state count.
    TransitionSourceOutOfRange {
        /// The invalid source state.
        source_state: u64,
        /// Configured state count.
        state_count: u64,
    },
    /// A transition event code is not below the configured event count.
    TransitionEventOutOfRange {
        /// The invalid event code.
        event: u64,
        /// Configured event count.
        event_count: u64,
    },
    /// A transition target code is not below the configured state count.
    TransitionTargetOutOfRange {
        /// The invalid target state.
        target: u64,
        /// Configured state count.
        state_count: u64,
    },
    /// The same `(source, event)` maps to two different targets.
    DuplicateTransition {
        /// Source state.
        source_state: u64,
        /// Event code.
        event: u64,
        /// Target registered first.
        existing_target: u64,
        /// Conflicting target registered later.
        new_target: u64,
    },
}

} // verus!
