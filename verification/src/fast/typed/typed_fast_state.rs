//! Typed view of a fast state cell.
use qubit_fast_cas::FastCasState;
use std::marker::PhantomData;
use vstd::prelude::*;

use super::dense_code::codebook;
use super::dense_code::decode;
use super::DenseCode;

verus! {

/// A state cell of a typed fast state machine: an atomic state code read
/// and written only through the typed machine.
#[derive(Debug)]
pub struct TypedFastState<S: DenseCode> {
    /// The atomic state code.
    pub(crate) raw: FastCasState,
    /// The state type, without storage.
    pub(crate) marker: PhantomData<S>,
}

impl<S: DenseCode> TypedFastState<S> {
    /// The atomic cell that holds the state code.
    pub closed spec fn cell(self) -> FastCasState {
        self.raw
    }

    /// Wraps a cell that holds a state code.
    pub(crate) fn from_cell(raw: FastCasState) -> (r: Self)
        ensures
            r.cell() == raw,
    {
        TypedFastState { raw, marker: PhantomData }
    }

    /// Loads the current state: the codebook entry of the stored code, or
    /// `None` when the stored code is not in the codebook (which no machine
    /// built from this codebook writes).
    pub fn load(&self) -> (r: Option<S>)
        ensures
            r matches Some(state) ==> codebook::<S>().contains(state),
    {
        decode(self.raw.load())
    }
}

} // verus!
