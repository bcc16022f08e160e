//! Validation errors from typed codebooks or the underlying fast builder.
use vstd::prelude::*;

use crate::FastStateMachineBuildError;

verus! {

/// Error returned when typed rules or their codebooks are invalid.
#[derive(Debug, Clone, Copy, PartialEq, Eq)]
pub enum TypedFastStateMachineBuildError {
    /// The named codebook lists no values.
    EmptyCodebook {
        /// `state` or `event`.
        domain: &'static str,
    },
    /// A codebook entry's code differs from its index.
    InvalidCodebook {
        /// `state` or `event`.
        domain: &'static str,
        /// The entry's index in the table.
        index: usize,
        /// The code the entry reported.
        code: u64,
    },
    /// A value given to the builder is not its codebook's entry.
    ValueNotInCodebook {
        /// `state` or `event`.
        domain: &'static str,
        /// The code the value reported.
        code: u64,
    },
    /// The underlying fast builder rejected the encoded rules.
    Raw(FastStateMachineBuildError),
}

impl From<FastStateMachineBuildError> for TypedFastStateMachineBuildError {
    /// Wraps a fast builder error.
    fn from(error: FastStateMachineBuildError) -> (r: Self) {
        TypedFastStateMachineBuildError::Raw(error)
    }
}

impl vstd::std_specs::convert::FromSpecImpl<FastStateMachineBuildError> for TypedFastStateMachineBuildError {
    open spec fn obeys_from_spec() -> bool {
        true
    }

    open spec fn from_spec(error: FastStateMachineBuildError) -> Self {
        TypedFastStateMachineBuildError::Raw(error)
    }
}

} // verus!
