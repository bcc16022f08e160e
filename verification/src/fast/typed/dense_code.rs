//! Finite value sets encoded as contiguous integer codes.
use std::fmt::Debug;
use vstd::prelude::*;

use super::TypedFastStateMachineBuildError;
use crate::standard::values::same_value;

verus! {

/// A finite set of values encoded as contiguous integer codes.
///
/// `VALUES[i].code()` must equal `i`: implementations list every usable
/// value exactly once and return deterministic codes. Builders validate the
/// table, and each typed input is checked against its table entry, so an
/// omitted value cannot impersonate another value with the same code.
///
/// Nothing about `code` is assumed: contracts speak of the codes that calls
/// of it returned (see [`returns_code`]).
pub trait DenseCode: Copy + Eq + Debug + Send + Sync + Sized + 'static {
    /// Complete value set in ascending code order.
    const VALUES: &'static [Self];

    /// Returns this value's stable index in [`Self::VALUES`].
    fn code(self) -> u64;
}

/// The value set of a codebook.
pub open spec fn codebook<T: DenseCode>() -> Seq<T> {
    T::VALUES@
}

/// `code` is a code that `value.code()` returns.
pub open spec fn returns_code<T: DenseCode>(value: T, code: u64) -> bool {
    call_ensures(T::code, (value,), code)
}

/// The code `code` of `value` when the codebook lists `value` at that
/// index, and nothing otherwise.
pub open spec fn entry_code<T: DenseCode>(value: T, code: u64) -> Option<u64> {
    if code < codebook::<T>().len() && codebook::<T>()[code as int] == value {
        Some(code)
    } else {
        None
    }
}

/// Calls `value.code()`.
pub(crate) fn value_code<T: DenseCode>(value: T) -> (r: u64)
    ensures
        returns_code(value, r),
{
    let code = T::code;
    code(value)
}

/// Keeps `code` only when the codebook lists `value` at that index.
pub(crate) fn listed_code<T: DenseCode>(value: T, code: u64) -> (r: Option<u64>)
    requires
        vstd::laws_eq::obeys_concrete_eq::<T>(),
    ensures
        r == entry_code(value, code),
{
    let values: &[T] = T::VALUES;
    if code >= values.len() as u64 {
        return None;
    }
    let index = code as usize;
    if same_value(&values[index], &value) {
        Some(code)
    } else {
        None
    }
}

/// Encodes `value` only when its declared table entry equals the value:
/// the code that `value.code()` returns, when the codebook lists `value` at
/// that index.
pub fn checked_code<T: DenseCode>(value: T) -> (r: Option<u64>)
    requires
        vstd::laws_eq::obeys_concrete_eq::<T>(),
    ensures
        exists|code: u64| #[trigger] returns_code(value, code) && r == entry_code(value, code),
        r matches Some(code) ==> code < codebook::<T>().len() && codebook::<T>()[code as int] == value,
        !codebook::<T>().contains(value) ==> r is None,
{
    let code = value_code(value);
    let r = listed_code(value, code);
    proof {
        if r is Some {
            assert(codebook::<T>()[code as int] == value);
        }
    }
    r
}

/// Decodes `code` through the finite value table.
pub fn decode<T: DenseCode>(code: u64) -> (r: Option<T>)
    ensures
        r == (if code < codebook::<T>().len() {
            Some(codebook::<T>()[code as int])
        } else {
            None::<T>
        }),
{
    let values: &[T] = T::VALUES;
    if code >= values.len() as u64 {
        return None;
    }
    Some(values[code as usize])
}

/// Each entry of a codebook that fits in memory returned its own index as
/// its code.
pub open spec fn codes_are_indices<T: DenseCode>() -> bool {
    &&& codebook::<T>().len() <= usize::MAX
    &&& forall|i: int| 0 <= i < codebook::<T>().len() ==> #[trigger] returns_code(codebook::<T>()[i], i as u64)
}

/// What validating a codebook may give for `domain`: the empty-codebook
/// error for an empty table; otherwise success when each entry's code was
/// its index, or the first entry whose code was not, with that code.
pub open spec fn codebook_check<T: DenseCode>(
    domain: &'static str,
    r: Result<(), TypedFastStateMachineBuildError>,
) -> bool {
    if codebook::<T>().len() == 0 {
        r == Err::<(), TypedFastStateMachineBuildError>(TypedFastStateMachineBuildError::EmptyCodebook { domain })
    } else {
        match r {
            Ok(()) => codes_are_indices::<T>(),
            Err(TypedFastStateMachineBuildError::InvalidCodebook { domain: d, index, code }) => {
                &&& d == domain
                &&& index < codebook::<T>().len()
                &&& code != index
                &&& returns_code(codebook::<T>()[index as int], code)
                &&& forall|j: int| 0 <= j < index ==> #[trigger] returns_code(codebook::<T>()[j], j as u64)
            },
            _ => false,
        }
    }
}

/// Round trip through a validated codebook: the table is nonempty, each
/// entry returned its own index as its code and is accepted there, and a
/// code accepted for any value indexes that value, so it decodes back to it.
pub proof fn lemma_codebook_round_trip<T: DenseCode>(domain: &'static str)
    requires
        codebook_check::<T>(domain, Ok(())),
    ensures
        codebook::<T>().len() > 0,
        forall|i: int|
            0 <= i < codebook::<T>().len() ==> #[trigger] returns_code(codebook::<T>()[i], i as u64) && entry_code(
                codebook::<T>()[i],
                i as u64,
            ) == Some(i as u64),
        forall|value: T, code: u64|
            #[trigger] entry_code(value, code) == Some(code) ==> code < codebook::<T>().len()
                && codebook::<T>()[code as int] == value,
{
    assert forall|i: int| 0 <= i < codebook::<T>().len() implies #[trigger] returns_code(codebook::<T>()[i], i as u64)
        && entry_code(codebook::<T>()[i], i as u64) == Some(i as u64) by {
        assert(codebook::<T>().len() != 0);
        assert(codes_are_indices::<T>());
    }
}

/// Validates a nonempty, contiguous table: an empty table, or the first
/// entry whose code differs from its index, is reported.
pub fn validate_values<T: DenseCode>(domain: &'static str) -> (r: Result<(), TypedFastStateMachineBuildError>)
    ensures
        codebook_check::<T>(domain, r),
{
    let values: &[T] = T::VALUES;
    if values.len() == 0 {
        return Err(TypedFastStateMachineBuildError::EmptyCodebook { domain });
    }
    let mut index: usize = 0;
    while index < values.len()
        invariant
            values@ == codebook::<T>(),
            values@.len() > 0,
            index <= values@.len(),
            forall|j: int| 0 <= j < index ==> #[trigger] returns_code(codebook::<T>()[j], j as u64),
        decreases values@.len() - index,
    {
        let code = value_code(values[index]);
        if code != index as u64 {
            return Err(TypedFastStateMachineBuildError::InvalidCodebook { domain, index, code });
        }
        index = index + 1;
    }
    Ok(())
}

} // verus!
