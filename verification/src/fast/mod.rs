//! High-throughput state machine over dense integer state and event codes.
mod fast_state_machine;
mod fast_state_machine_build_error;
mod fast_state_machine_builder;
mod fast_state_machine_error;
mod typed;

pub use fast_state_machine::FastStateMachine;
pub use fast_state_machine::FastTable;
pub use fast_state_machine_build_error::FastStateMachineBuildError;
pub use fast_state_machine_builder::allocate_transition_table;
pub use fast_state_machine_builder::fast_definition_error;
pub use fast_state_machine_builder::fast_table_of;
pub use fast_state_machine_builder::fast_transitions_error;
pub use fast_state_machine_builder::FastDefinition;
pub use fast_state_machine_builder::FastStateMachineBuilder;
pub use fast_state_machine_builder::fast_state_machine_default_cas_policy;
pub use fast_state_machine_builder::FAST_STATE_MACHINE_DEFAULT_CAS_ATTEMPTS;
pub use fast_state_machine_error::fast_state_machine_error_from_fast_cas_error;
pub use fast_state_machine_error::FastCasFailure;
pub use fast_state_machine_error::FastStateMachineError;
pub use fast_state_machine_error::FastStateMachineResult;
pub use typed::codebook;
pub use typed::entry_code;
pub use typed::returns_code;
pub(crate) use typed::value_code;
pub use typed::typed_outcome;
pub use typed::DenseCode;
pub use typed::TypedDefinition;
pub use typed::TypedFastState;
pub use typed::TypedFastStateMachine;
pub use typed::TypedFastStateMachineBuilder;
pub use typed::TypedFastStateMachineBuildError;
pub use typed::TypedFastStateMachineError;
