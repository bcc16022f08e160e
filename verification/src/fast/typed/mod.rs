//! Strongly typed finite encodings over the fast engine.
mod dense_code;
mod typed_fast_state;
mod typed_fast_state_machine;
mod typed_fast_state_machine_build_error;
mod typed_fast_state_machine_builder;
mod typed_fast_state_machine_error;

pub use dense_code::codebook;
pub use dense_code::entry_code;
pub use dense_code::returns_code;
pub(crate) use dense_code::value_code;
pub use dense_code::DenseCode;
pub use typed_fast_state::TypedFastState;
pub use typed_fast_state_machine::decoded_somewhere;
pub use typed_fast_state_machine::decodes;
pub use typed_fast_state_machine::typed_outcome;
pub use typed_fast_state_machine::TypedFastStateMachine;
pub use typed_fast_state_machine_build_error::TypedFastStateMachineBuildError;
pub use typed_fast_state_machine_builder::after_terminal_state;
pub use typed_fast_state_machine_builder::after_terminal_states;
pub use typed_fast_state_machine_builder::after_transition;
pub use typed_fast_state_machine_builder::note_rejection;
pub use typed_fast_state_machine_builder::typed_build_error;
pub use typed_fast_state_machine_builder::TypedDefinition;
pub use typed_fast_state_machine_builder::TypedFastStateMachineBuilder;
pub use typed_fast_state_machine_error::TypedFastStateMachineError;
