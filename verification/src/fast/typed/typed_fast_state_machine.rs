//! Typed dense state machine over finite state and event codebooks.
use qubit_fast_cas::FastCasPolicy;
use qubit_fast_cas::FastCasState;
use std::marker::PhantomData;
use vstd::prelude::*;

use super::dense_code::codebook;
use super::dense_code::decode;
use super::dense_code::entry_code;
use super::dense_code::listed_code;
use super::dense_code::returns_code;
use super::dense_code::value_code;
use super::DenseCode;
use super::TypedFastState;
use super::TypedFastStateMachineBuilder;
use super::TypedFastStateMachineError;
use crate::diagnostics::nodes_where;
use crate::diagnostics::reachable;
use crate::diagnostics::reverse;
use crate::FastStateMachine;
use crate::FastStateMachineError;
use crate::FastTable;
use crate::GraphDiagnostics;
use crate::Transition;

verus! {

/// The typed outcome of a fast outcome for `event`: codes are decoded
/// through the state codebook; a code outside it is an invalid state code.
pub open spec fn typed_outcome<S: DenseCode, E: DenseCode>(
    outcome: Result<u64, FastStateMachineError>,
    event: E,
) -> Result<S, TypedFastStateMachineError<S, E>> {
    match outcome {
        Ok(code) => if code < codebook::<S>().len() {
            Ok(codebook::<S>()[code as int])
        } else {
            Err(TypedFastStateMachineError::InvalidStateCode { code })
        },
        Err(FastStateMachineError::UnknownTransition { source_state, .. }) => if source_state
            < codebook::<S>().len() {
            Err(TypedFastStateMachineError::UnknownTransition { source_state: codebook::<S>()[source_state as int], event })
        } else {
            Err(TypedFastStateMachineError::InvalidStateCode { code: source_state })
        },
        Err(FastStateMachineError::UnknownState { state }) => Err(TypedFastStateMachineError::InvalidStateCode { code: state }),
        Err(FastStateMachineError::CasConflict { attempts }) => Err(TypedFastStateMachineError::CasConflict { attempts }),
    }
}

/// Decodes a fast outcome for `event` through the state codebook.
fn typed_result<S: DenseCode, E: DenseCode>(
    outcome: Result<u64, FastStateMachineError>,
    event: E,
) -> (r: Result<S, TypedFastStateMachineError<S, E>>)
    ensures
        r == typed_outcome::<S, E>(outcome, event),
{
    match outcome {
        Ok(code) => match decode(code) {
            Some(state) => Ok(state),
            None => Err(TypedFastStateMachineError::InvalidStateCode { code }),
        },
        Err(FastStateMachineError::UnknownTransition { source_state, .. }) => match decode(source_state) {
            Some(state) => Err(TypedFastStateMachineError::UnknownTransition { source_state: state, event }),
            None => Err(TypedFastStateMachineError::InvalidStateCode { code: source_state }),
        },
        Err(FastStateMachineError::UnknownState { state }) => Err(TypedFastStateMachineError::InvalidStateCode { code: state }),
        Err(FastStateMachineError::CasConflict { attempts }) => Err(TypedFastStateMachineError::CasConflict { attempts }),
    }
}

/// Decodes validated state codes.
fn decode_states<S: DenseCode>(codes: Vec<u64>) -> (r: Vec<S>)
    requires
        forall|i: int| 0 <= i < codes@.len() ==> #[trigger] codes@[i] < codebook::<S>().len(),
    ensures
        r@ == codes@.map_values(|c: u64| codebook::<S>()[c as int]),
{
    let mut r: Vec<S> = Vec::new();
    let mut i: usize = 0;
    while i < codes.len()
        invariant
            i <= codes@.len(),
            forall|k: int| 0 <= k < codes@.len() ==> #[trigger] codes@[k] < codebook::<S>().len(),
            r@ == codes@.take(i as int).map_values(|c: u64| codebook::<S>()[c as int]),
        decreases codes@.len() - i,
    {
        let state = match decode(codes[i]) {
            Some(state) => state,
            None => {
                proof {
                    assert(codes@[i as int] < codebook::<S>().len());
                }
                return r;
            },
        };
        r.push(state);
        proof {
            assert(codes@.take(i + 1).map_values(|c: u64| codebook::<S>()[c as int]) =~= codes@.take(
                i as int,
            ).map_values(|c: u64| codebook::<S>()[c as int]).push(codebook::<S>()[codes@[i as int] as int]));
        }
        i = i + 1;
    }
    proof {
        assert(codes@.take(codes@.len() as int) =~= codes@);
    }
    r
}

/// `transition` is the code triple `(source, event, target)` decoded.
pub open spec fn decodes<S: DenseCode, E: DenseCode>(transition: Transition<S, E>, source: u64, event: u64, target: u64) -> bool {
    transition@ == (codebook::<S>()[source as int], codebook::<E>()[event as int], codebook::<S>()[target as int])
}

/// Decoded transitions of configured code triples are configured, decoded.
proof fn lemma_decoded_transitions_sound<S: DenseCode, E: DenseCode>(
    table: FastTable,
    raw: Seq<Transition<u64, u64>>,
    decoded: Seq<Transition<S, E>>,
)
    requires
        decoded.len() == raw.len(),
        forall|k: int| #![trigger raw[k]] 0 <= k < raw.len() ==> table.target(raw[k]@.0, raw[k]@.1) == Some(raw[k]@.2),
        forall|k: int| #![trigger decoded[k]]
            0 <= k < decoded.len() ==> decoded[k]@ == (
                codebook::<S>()[raw[k]@.0 as int],
                codebook::<E>()[raw[k]@.1 as int],
                codebook::<S>()[raw[k]@.2 as int],
            ),
    ensures
        forall|i: int| 0 <= i < decoded.len() ==> #[trigger] decoded_somewhere(table, decoded[i]),
{
    assert forall|i: int| 0 <= i < decoded.len() implies #[trigger] decoded_somewhere(table, decoded[i]) by {
        let key = (raw[i]@.0, raw[i]@.1);
        assert(table.target(raw[i]@.0, raw[i]@.1) == Some(raw[i]@.2));
        assert(table.targets.contains_key(key));
        assert(decoded[i]@ == (
            codebook::<S>()[raw[i]@.0 as int],
            codebook::<E>()[raw[i]@.1 as int],
            codebook::<S>()[raw[i]@.2 as int],
        ));
        assert(table.targets[key] == raw[i]@.2);
        assert(decodes(decoded[i], key.0, key.1, table.targets[(key.0, key.1)]));
    }
}

/// `transition` decodes some configured code triple of `table`.
pub open spec fn decoded_somewhere<S: DenseCode, E: DenseCode>(table: FastTable, transition: Transition<S, E>) -> bool {
    exists|s: u64, e: u64| #[trigger] table.targets.contains_key((s, e)) && decodes(transition, s, e, table.targets[(s, e)])
}

/// The typed target of a pair of checked codes: the codebook entry of the
/// configured target when both codes were accepted and a target exists.
pub open spec fn typed_target<S: DenseCode>(table: FastTable, source: Option<u64>, event: Option<u64>) -> Option<S> {
    match (source, event) {
        (Some(s), Some(e)) => match table.target(s, e) {
            Some(t) => Some(codebook::<S>()[t as int]),
            None => None,
        },
        _ => None,
    }
}

/// `try_trigger` reports exactly whether a run of `trigger` on the same
/// machine, cell and event committed: every commit counts, a
/// self-transition that leaves the state unchanged included.
pub proof fn lemma_typed_try_trigger_reports_commits<S: DenseCode, E: DenseCode>(
    machine: TypedFastStateMachine<S, E>,
    state: TypedFastState<S>,
    event: E,
    committed: bool,
)
    requires
        call_ensures(TypedFastStateMachine::<S, E>::try_trigger, (&machine, &state, event), committed),
    ensures
        exists|result: Result<S, TypedFastStateMachineError<S, E>>|
            #[trigger] call_ensures(TypedFastStateMachine::<S, E>::trigger, (&machine, &state, event), result)
                && (committed <==> result is Ok),
        !codebook::<E>().contains(event) ==> !committed,
{
}

/// A created typed cell starts at the code of the machine's initial state:
/// its cell is one that `CasCell::new` makes for that code.
pub proof fn lemma_typed_created_cell_holds_initial_state<S: DenseCode, E: DenseCode>(
    machine: TypedFastStateMachine<S, E>,
    cell: TypedFastState<S>,
)
    requires
        call_ensures(TypedFastStateMachine::<S, E>::create_state, (&machine,), cell),
    ensures
        call_ensures(FastCasState::new, (machine@.initial_state,), cell.cell()),
{
}

/// A dense state machine whose states and events are typed values, each
/// encoded by its position in its codebook.
#[derive(Debug)]
pub struct TypedFastStateMachine<S: DenseCode, E: DenseCode> {
    /// The machine over codes.
    raw: FastStateMachine,
    /// The state and event types, without storage.
    marker: PhantomData<(S, E)>,
}

impl<S: DenseCode, E: DenseCode> View for TypedFastStateMachine<S, E> {
    type V = FastTable;

    closed spec fn view(&self) -> FastTable {
        self.raw@
    }
}

impl<S: DenseCode, E: DenseCode> Clone for TypedFastStateMachine<S, E> {
    /// Copies the rules; the copy has the same model.
    fn clone(&self) -> (r: Self)
        ensures
            r@ == self@,
    {
        proof {
            use_type_invariant(self);
        }
        TypedFastStateMachine { raw: self.raw.clone(), marker: PhantomData }
    }
}

impl<S: DenseCode, E: DenseCode> TypedFastStateMachine<S, E> {
    /// The code spaces are the codebooks, and `==` on typed values is the
    /// identity.
    #[verifier::type_invariant]
    closed spec fn sized_by_codebooks(self) -> bool {
        &&& vstd::laws_eq::obeys_concrete_eq::<S>()
        &&& vstd::laws_eq::obeys_concrete_eq::<E>()
        &&& self.raw@.state_count == codebook::<S>().len()
        &&& self.raw@.event_count == codebook::<E>().len()
        &&& self.raw@.valid()
    }

    /// Wraps a machine over codes whose code spaces are the codebooks.
    pub(crate) fn from_raw(raw: FastStateMachine) -> (m: Self)
        requires
            vstd::laws_eq::obeys_concrete_eq::<S>(),
            vstd::laws_eq::obeys_concrete_eq::<E>(),
            raw@.state_count == codebook::<S>().len(),
            raw@.event_count == codebook::<E>().len(),
            raw@.valid(),
        ensures
            m@ == raw@,
    {
        TypedFastStateMachine { raw, marker: PhantomData }
    }

    /// Creates a typed builder.
    pub fn builder() -> (b: TypedFastStateMachineBuilder<S, E>)
        ensures
            b@.raw.state_count == Some(codebook::<S>().len() as u64),
            b@.raw.event_count == Some(codebook::<E>().len() as u64),
            b@.raw.initial_state is None,
            b@.raw.terminal_states == Seq::<u64>::empty(),
            b@.raw.transitions == Seq::<(u64, u64, u64)>::empty(),
            b@.raw.max_table_cells is None,
            b@.input_error is None,
    {
        TypedFastStateMachineBuilder::new()
    }

    /// Creates an independent state cell holding the initial state.
    pub fn create_state(&self) -> (r: TypedFastState<S>)
        ensures
            call_ensures(FastCasState::new, (self@.initial_state,), r.cell()),
    {
        proof {
            use_type_invariant(self);
        }
        TypedFastState::from_cell(self.raw.create_state())
    }

    /// Applies `event` to the state held by `state`.
    ///
    /// An event outside its codebook is rejected without touching the
    /// cell. Otherwise the outcome is the decoded outcome of the fast
    /// machine for the event's code: a committed target of some state, a
    /// rejection of an observed state, or a conflict.
    pub fn trigger(&self, state: &TypedFastState<S>, event: E) -> (r: Result<S, TypedFastStateMachineError<S, E>>)
        ensures
            !codebook::<E>().contains(event) ==> r matches Err(TypedFastStateMachineError::InvalidEventCode { .. }),
            r matches Err(TypedFastStateMachineError::InvalidEventCode { event: e, code }) ==> e == event
                && returns_code(event, code) && entry_code(event, code) is None,
            !(r matches Err(TypedFastStateMachineError::InvalidEventCode { .. })) ==> exists|code: u64|
                #![trigger codebook::<E>()[code as int]]
                returns_code(event, code) && code < codebook::<E>().len() && codebook::<E>()[code as int] == event && (r matches Err(
                    TypedFastStateMachineError::CasConflict { .. },
                ) || exists|observed: u64| r == typed_outcome::<S, E>(self@.next_state(observed, code), event)),
    {
        proof {
            use_type_invariant(self);
        }
        let reported = value_code(event);
        let code = match listed_code(event, reported) {
            Some(code) => code,
            None => return Err(TypedFastStateMachineError::InvalidEventCode { event, code: reported }),
        };
        let outcome = self.raw.trigger(&state.raw, code);
        proof {
            assert(codebook::<E>()[code as int] == event);
            if let Ok(next) = outcome {
                let previous = choose|previous: u64| self@.next_state(previous, code) == Ok::<u64, FastStateMachineError>(next);
                assert(typed_outcome::<S, E>(self@.next_state(previous, code), event) == typed_outcome::<S, E>(outcome, event));
            }
        }
        typed_result(outcome, event)
    }

    /// Applies `event` like [`Self::trigger`] and, after a committed update,
    /// calls `on_success(previous, next)` once with the decoded states.
    pub fn trigger_with<F>(&self, state: &TypedFastState<S>, event: E, on_success: F) -> (r: Result<
        S,
        TypedFastStateMachineError<S, E>,
    >)
        where
            F: FnOnce(S, S),
        requires
            forall|previous: S, next: S| call_requires(on_success, (previous, next)),
        ensures
            !codebook::<E>().contains(event) ==> r matches Err(TypedFastStateMachineError::InvalidEventCode { .. }),
            r matches Err(TypedFastStateMachineError::InvalidEventCode { event: e, code }) ==> e == event
                && returns_code(event, code) && entry_code(event, code) is None,
            !(r matches Err(TypedFastStateMachineError::InvalidEventCode { .. })) ==> exists|code: u64|
                #![trigger codebook::<E>()[code as int]]
                returns_code(event, code) && code < codebook::<E>().len() && codebook::<E>()[code as int] == event && (r matches Err(
                    TypedFastStateMachineError::CasConflict { .. },
                ) || exists|observed: u64| r == typed_outcome::<S, E>(self@.next_state(observed, code), event)),
    {
        proof {
            use_type_invariant(self);
        }
        let reported = value_code(event);
        let code = match listed_code(event, reported) {
            Some(code) => code,
            None => return Err(TypedFastStateMachineError::InvalidEventCode { event, code: reported }),
        };
        let on_success_with_codes = move |previous: u64, next: u64|
            {
                if let (Some(previous), Some(next)) = (decode::<S>(previous), decode::<S>(next)) {
                    on_success(previous, next);
                }
            };
        let outcome = self.raw.trigger_with(&state.raw, code, on_success_with_codes);
        proof {
            assert(codebook::<E>()[code as int] == event);
            if let Ok(next) = outcome {
                let previous = choose|previous: u64| self@.next_state(previous, code) == Ok::<u64, FastStateMachineError>(next) && call_ensures(
                    on_success_with_codes,
                    (previous, next),
                    (),
                );
                assert(typed_outcome::<S, E>(self@.next_state(previous, code), event) == typed_outcome::<S, E>(outcome, event));
            }
        }
        typed_result(outcome, event)
    }

    /// Applies `event` and reports only whether an update committed.
    pub fn try_trigger(&self, state: &TypedFastState<S>, event: E) -> (r: bool)
        ensures
            r ==> exists|code: u64, previous: u64|
                #![trigger codebook::<E>()[code as int], self@.next_state(previous, code)]
                code < codebook::<E>().len() && codebook::<E>()[code as int] == event && self@.next_state(previous, code) is Ok,
            !codebook::<E>().contains(event) ==> !r,
            exists|result: Result<S, TypedFastStateMachineError<S, E>>|
                #[trigger] call_ensures(TypedFastStateMachine::<S, E>::trigger, (self, state, event), result) && r
                    == result is Ok,
    {
        let trigger = TypedFastStateMachine::<S, E>::trigger;
        match trigger(self, state, event) {
            Ok(_) => true,
            Err(_) => false,
        }
    }

    /// Applies `event` with a success callback and reports only whether an
    /// update committed; the callback runs only when it did.
    pub fn try_trigger_with<F>(&self, state: &TypedFastState<S>, event: E, callback: F) -> (r: bool)
        where
            F: FnOnce(S, S),
        requires
            forall|previous: S, next: S| call_requires(callback, (previous, next)),
        ensures
            r ==> exists|code: u64, previous: u64|
                #![trigger codebook::<E>()[code as int], self@.next_state(previous, code)]
                code < codebook::<E>().len() && codebook::<E>()[code as int] == event && self@.next_state(previous, code) is Ok,
            !codebook::<E>().contains(event) ==> !r,
            exists|result: Result<S, TypedFastStateMachineError<S, E>>|
                #[trigger] call_ensures(
                    TypedFastStateMachine::<S, E>::trigger_with::<F>,
                    (self, state, event, callback),
                    result,
                ) && r == result is Ok,
    {
        let trigger_with = TypedFastStateMachine::<S, E>::trigger_with::<F>;
        match trigger_with(self, state, event, callback) {
            Ok(_) => true,
            Err(_) => false,
        }
    }

    /// Looks up the configured target of a typed `(source, event)` pair.
    pub fn transition_target(&self, source: S, event: E) -> (r: Option<S>)
        ensures
            exists|s: u64, e: u64|
                #![trigger returns_code(source, s), returns_code(event, e)]
                returns_code(source, s) && returns_code(event, e) && r == typed_target::<S>(
                    self@,
                    entry_code(source, s),
                    entry_code(event, e),
                ),
            !codebook::<S>().contains(source) || !codebook::<E>().contains(event) ==> r is None,
    {
        proof {
            use_type_invariant(self);
        }
        let reported_source = value_code(source);
        let reported_event = value_code(event);
        let s = match listed_code(source, reported_source) {
            Some(s) => s,
            None => return None,
        };
        let e = match listed_code(event, reported_event) {
            Some(e) => e,
            None => return None,
        };
        proof {
            assert(codebook::<S>()[s as int] == source);
            assert(codebook::<E>()[e as int] == event);
        }
        match self.raw.transition_target(s, e) {
            Some(t) => decode(t),
            None => None,
        }
    }

    /// Returns the configured initial state.
    pub fn initial_state(&self) -> (r: S)
        ensures
            r == codebook::<S>()[self@.initial_state as int],
    {
        proof {
            use_type_invariant(self);
        }
        let code = self.raw.initial_state();
        let states: &[S] = S::VALUES;
        states[code as usize]
    }

    /// Tests whether `state` is its codebook's entry.
    pub fn contains_state(&self, state: S) -> (r: bool)
        ensures
            exists|code: u64| #[trigger] returns_code(state, code) && r == entry_code(state, code) is Some,
            r ==> codebook::<S>().contains(state),
    {
        proof {
            use_type_invariant(self);
        }
        let reported = value_code(state);
        let r = listed_code(state, reported).is_some();
        proof {
            if r {
                assert(codebook::<S>()[reported as int] == state);
            }
        }
        r
    }

    /// Tests whether `state` is the initial state.
    pub fn is_initial_state(&self, state: S) -> (r: bool)
        ensures
            exists|code: u64| #[trigger] returns_code(state, code) && r == (entry_code(state, code) == Some(
                self@.initial_state,
            )),
            r ==> codebook::<S>()[self@.initial_state as int] == state,
    {
        proof {
            use_type_invariant(self);
        }
        let reported = value_code(state);
        match listed_code(state, reported) {
            Some(code) => self.raw.is_initial_state(code),
            None => false,
        }
    }

    /// Tests whether `state` is a terminal state.
    pub fn is_terminal_state(&self, state: S) -> (r: bool)
        ensures
            exists|code: u64| #[trigger] returns_code(state, code) && r == (entry_code(state, code) is Some
                && self@.terminal_states.contains(code)),
            r ==> exists|code: u64| #![trigger codebook::<S>()[code as int]]
                self@.terminal_states.contains(code) && codebook::<S>()[code as int] == state,
    {
        proof {
            use_type_invariant(self);
        }
        let reported = value_code(state);
        match listed_code(state, reported) {
            Some(code) => self.raw.is_terminal_state(code),
            None => false,
        }
    }

    /// Returns the number of states, the size of the state codebook.
    pub fn state_count(&self) -> (r: u64)
        ensures
            r == self@.state_count,
            r == codebook::<S>().len(),
    {
        proof {
            use_type_invariant(self);
        }
        self.raw.state_count()
    }

    /// Returns the number of events, the size of the event codebook.
    pub fn event_count(&self) -> (r: u64)
        ensures
            r == self@.event_count,
            r == codebook::<E>().len(),
    {
        proof {
            use_type_invariant(self);
        }
        self.raw.event_count()
    }

    /// Returns the number of configured `(source, event)` pairs.
    pub fn transition_count(&self) -> (r: usize)
        ensures
            r == self@.targets.dom().len(),
    {
        self.raw.transition_count()
    }

    /// Returns the compare-and-swap retry policy.
    pub fn cas_policy(&self) -> (r: FastCasPolicy)
        ensures
            r == self@.cas_policy,
    {
        self.raw.cas_policy()
    }

    /// Returns the terminal states in code order.
    pub fn terminal_states(&self) -> (r: Vec<S>)
        ensures
            forall|state: S| #[trigger] r@.contains(state) <==> exists|code: u64|
                #![trigger codebook::<S>()[code as int]]
                self@.terminal_states.contains(code) && codebook::<S>()[code as int] == state,
    {
        proof {
            use_type_invariant(self);
        }
        let codes = self.raw.terminal_states();
        let ghost raw_codes = codes@;
        proof {
            assert forall|i: int| 0 <= i < codes@.len() implies #[trigger] codes@[i] < codebook::<S>().len() by {
                assert(codes@.contains(codes@[i]));
            }
        }
        let r = decode_states::<S>(codes);
        proof {
            assert forall|state: S| #[trigger] r@.contains(state) <==> exists|code: u64|
                #![trigger codebook::<S>()[code as int]]
                self@.terminal_states.contains(code) && codebook::<S>()[code as int] == state by {
                if r@.contains(state) {
                    let i = choose|i: int| 0 <= i < r@.len() && r@[i] == state;
                    assert(raw_codes.contains(raw_codes[i]));
                    assert(codebook::<S>()[raw_codes[i] as int] == state);
                }
                if exists|code: u64| #![trigger codebook::<S>()[code as int]]
                    self@.terminal_states.contains(code) && codebook::<S>()[code as int] == state {
                    let code = choose|code: u64| #![trigger codebook::<S>()[code as int]]
                        self@.terminal_states.contains(code) && codebook::<S>()[code as int] == state;
                    assert(raw_codes.contains(code));
                    let i = choose|i: int| 0 <= i < raw_codes.len() && raw_codes[i] == code;
                    assert(r@[i] == state);
                }
            }
        }
        r
    }

    /// Returns every configured transition once, decoded.
    pub fn transitions(&self) -> (r: Vec<Transition<S, E>>)
        ensures
            forall|key: (u64, u64)| #[trigger]
                self@.targets.contains_key(key) ==> exists|i: int|
                    0 <= i < r@.len() && r@[i]@ == (
                        codebook::<S>()[key.0 as int],
                        codebook::<E>()[key.1 as int],
                        codebook::<S>()[self@.targets[key] as int],
                    ),
            forall|i: int| 0 <= i < r@.len() ==> #[trigger] decoded_somewhere(self@, r@[i]),
    {
        proof {
            use_type_invariant(self);
        }
        let raw = self.raw.transitions();
        let mut r: Vec<Transition<S, E>> = Vec::new();
        let mut i: usize = 0;
        while i < raw.len()
            invariant
                self@.valid(),
                self@.state_count == codebook::<S>().len(),
                self@.event_count == codebook::<E>().len(),
                i <= raw@.len(),
                r@.len() == i,
                forall|k: int| #![trigger raw@[k]]
                    0 <= k < raw@.len() ==> self@.target(raw@[k]@.0, raw@[k]@.1) == Some(raw@[k]@.2),
                forall|k: int| #![trigger r@[k]]
                    0 <= k < i ==> r@[k]@ == (
                        codebook::<S>()[raw@[k]@.0 as int],
                        codebook::<E>()[raw@[k]@.1 as int],
                        codebook::<S>()[raw@[k]@.2 as int],
                    ),
            decreases raw@.len() - i,
        {
            let t = raw[i];
            proof {
                assert(self@.targets.contains_key((t@.0, t@.1)));
            }
            let states: &[S] = S::VALUES;
            let events: &[E] = E::VALUES;
            r.push(Transition::new(states[t.source() as usize], events[t.event() as usize], states[t.target() as usize]));
            i = i + 1;
        }
        proof {
            lemma_decoded_transitions_sound::<S, E>(self@, raw@, r@);
            assert forall|key: (u64, u64)| #[trigger] self@.targets.contains_key(key) implies exists|k: int|
                0 <= k < r@.len() && r@[k]@ == (
                    codebook::<S>()[key.0 as int],
                    codebook::<E>()[key.1 as int],
                    codebook::<S>()[self@.targets[key] as int],
                ) by {
                let k = choose|k: int| 0 <= k < raw@.len() && raw@[k]@ == (key.0, key.1, self@.targets[key]);
                assert(r@[k]@ == (
                    codebook::<S>()[key.0 as int],
                    codebook::<E>()[key.1 as int],
                    codebook::<S>()[self@.targets[key] as int],
                ));
            }
        }
        r
    }

    /// Analyzes reachability like [`FastStateMachine::diagnose_graph`],
    /// reporting decoded states in code order.
    pub fn diagnose_graph(&self) -> (r: GraphDiagnostics<S>)
        ensures
            r@.0 == nodes_where(
                self@.state_count as nat,
                |v: int| !reachable(|u: int, w: int| self@.edge(u, w), set![self@.initial_state as int], v),
            ).map_values(|v: usize| codebook::<S>()[v as int]),
            r@.1 == nodes_where(
                self@.state_count as nat,
                |v: int| !reachable(reverse(|u: int, w: int| self@.edge(u, w)), self@.terminal_set(), v),
            ).map_values(|v: usize| codebook::<S>()[v as int]),
    {
        let states: &[S] = S::VALUES;
        let _count = states.len();
        proof {
            use_type_invariant(self);
            crate::diagnostics::lemma_nodes_where_below(
                self@.state_count as nat,
                |v: int| !reachable(|u: int, w: int| self@.edge(u, w), set![self@.initial_state as int], v),
            );
            crate::diagnostics::lemma_nodes_where_below(
                self@.state_count as nat,
                |v: int| !reachable(reverse(|u: int, w: int| self@.edge(u, w)), self@.terminal_set(), v),
            );
        }
        let report = self.raw.diagnose_graph();
        let (unreachable, without_path) = report.into_parts();
        let ghost first = unreachable@;
        let ghost second = without_path@;
        let unreachable = decode_states::<S>(unreachable);
        let without_path = decode_states::<S>(without_path);
        proof {
            assert(unreachable@ =~= nodes_where(
                self@.state_count as nat,
                |v: int| !reachable(|u: int, w: int| self@.edge(u, w), set![self@.initial_state as int], v),
            ).map_values(|v: usize| codebook::<S>()[v as int]));
            assert(without_path@ =~= nodes_where(
                self@.state_count as nat,
                |v: int| !reachable(reverse(|u: int, w: int| self@.edge(u, w)), self@.terminal_set(), v),
            ).map_values(|v: usize| codebook::<S>()[v as int]));
        }
        GraphDiagnostics::new(unreachable, without_path)
    }
}

} // verus!
