//! Generic state machine over user-provided state and event types.
mod state_machine;
mod state_machine_build_error;
mod state_machine_builder;
mod state_machine_error;
pub(crate) mod values;

pub use state_machine::StandardTable;
pub use state_machine::StateMachine;
pub use state_machine_build_error::StateMachineBuildError;
pub use state_machine_builder::standard_transitions_error;
pub use state_machine_builder::StandardDefinition;
pub use state_machine_builder::StateMachineBuilder;
pub use state_machine_builder::STATE_MACHINE_DEFAULT_CAS_MAX_ATTEMPTS;
pub use state_machine_error::CasChange;
pub use state_machine_error::CasFailureReport;
pub use state_machine_error::StateMachineError;
pub use state_machine_error::StateMachineResult;
