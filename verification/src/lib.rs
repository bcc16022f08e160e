//! A small finite state machine library with immutable, validated transition
//! tables and compare-and-swap backed event triggering.

mod cas;
mod conformance;
mod diagnostics;
mod fast;
mod standard;
mod table;
mod transition;

pub use conformance::probe_agrees;
pub use conformance::probe_verdict;
pub use conformance::step_agrees;
pub use conformance::StepObservation;
pub use conformance::run_differential;
pub use conformance::run_fast_builder;
pub use conformance::run_standard_builder;
pub use conformance::BuilderOutcome;
pub use diagnostics::GraphDiagnostics;
pub use fast::fast_state_machine_error_from_fast_cas_error;
pub use fast::DenseCode;
pub use fast::FastCasFailure;
pub use fast::FastDefinition;
pub use fast::FastStateMachine;
pub use fast::FastStateMachineBuildError;
pub use fast::FastStateMachineBuilder;
pub use fast::FastStateMachineError;
pub use fast::FastStateMachineResult;
pub use fast::FastTable;
pub use fast::TypedDefinition;
pub use fast::allocate_transition_table;
pub use fast::fast_state_machine_default_cas_policy;
pub use fast::FAST_STATE_MACHINE_DEFAULT_CAS_ATTEMPTS;
pub use fast::TypedFastState;
pub use fast::TypedFastStateMachine;
pub use fast::TypedFastStateMachineBuildError;
pub use fast::TypedFastStateMachineBuilder;
pub use fast::TypedFastStateMachineError;
pub use standard::CasChange;
pub use standard::CasFailureReport;
pub use standard::StandardDefinition;
pub use standard::StandardTable;
pub use standard::StateMachine;
pub use standard::StateMachineBuildError;
pub use standard::StateMachineBuilder;
pub use standard::StateMachineError;
pub use standard::StateMachineResult;
pub use standard::STATE_MACHINE_DEFAULT_CAS_MAX_ATTEMPTS;
pub use transition::Transition;
