//! Builder for typed fast state machines.
use qubit_fast_cas::FastCasPolicy;
use std::marker::PhantomData;
use vstd::prelude::*;

use super::dense_code::codebook;
use super::dense_code::codebook_check;
use super::dense_code::entry_code;
use super::dense_code::listed_code;
use super::dense_code::returns_code;
use super::dense_code::validate_values;
use super::dense_code::value_code;
use super::DenseCode;
use super::TypedFastStateMachine;
use super::TypedFastStateMachineBuildError;
use crate::fast::fast_definition_error;
use crate::fast::fast_table_of;
use crate::FastDefinition;
use crate::FastStateMachineBuilder;
use crate::Transition;

verus! {

/// The configuration a typed builder has collected: the encoded rules and
/// the first typed input that was not its codebook's entry.
pub struct TypedDefinition {
    /// The encoded rules handed to the fast builder.
    pub raw: FastDefinition,
    /// The first rejected typed input.
    pub input_error: Option<TypedFastStateMachineBuildError>,
}

/// The first rejected input after rejecting the value of `domain` that
/// reported `code`: an earlier rejection stays.
pub open spec fn note_rejection(
    before: Option<TypedFastStateMachineBuildError>,
    domain: &'static str,
    code: u64,
) -> Option<TypedFastStateMachineBuildError> {
    match before {
        Some(error) => Some(error),
        None => Some(TypedFastStateMachineBuildError::ValueNotInCodebook { domain, code }),
    }
}

/// The configuration after one terminal-state input that reported `code`:
/// the code marked terminal when the codebook lists the state at that code,
/// else the rejection noted.
pub open spec fn after_terminal_state<S: DenseCode>(definition: TypedDefinition, state: S, code: u64) -> TypedDefinition {
    match entry_code(state, code) {
        Some(c) => TypedDefinition {
            raw: FastDefinition { terminal_states: definition.raw.terminal_states.push(c), ..definition.raw },
            ..definition
        },
        None => TypedDefinition { input_error: note_rejection(definition.input_error, "state", code), ..definition },
    }
}

/// The configuration after the terminal-state inputs `states`, in order,
/// whose values reported `codes`.
pub open spec fn after_terminal_states<S: DenseCode>(
    definition: TypedDefinition,
    states: Seq<S>,
    codes: Seq<u64>,
) -> TypedDefinition
    decreases states.len(),
{
    if states.len() == 0 {
        definition
    } else {
        after_terminal_state(
            after_terminal_states(definition, states.drop_last(), codes.drop_last()),
            states.last(),
            codes.last(),
        )
    }
}

/// Registering a list of terminal states marks every listed state that its
/// codebook accepts at its code, after the terminal states already marked
/// and in list order, and changes nothing else of the rules.
pub proof fn lemma_terminal_states_marks_every_listed_state<S: DenseCode>(
    definition: TypedDefinition,
    states: Seq<S>,
    codes: Seq<u64>,
)
    requires
        codes.len() == states.len(),
    ensures
        ({
            let after = after_terminal_states(definition, states, codes);
            &&& forall|k: int|
                0 <= k < states.len() && #[trigger] entry_code(states[k], codes[k]) is Some
                    ==> after.raw.terminal_states.contains(codes[k])
            &&& forall|j: int|
                0 <= j < definition.raw.terminal_states.len() ==> after.raw.terminal_states[j]
                    == definition.raw.terminal_states[j]
            &&& definition.raw.terminal_states.len() <= after.raw.terminal_states.len()
            &&& after.raw == FastDefinition { terminal_states: after.raw.terminal_states, ..definition.raw }
        }),
    decreases states.len(),
{
    if states.len() > 0 {
        let prefix = states.drop_last();
        let prefix_codes = codes.drop_last();
        lemma_terminal_states_marks_every_listed_state(definition, prefix, prefix_codes);
        let before = after_terminal_states(definition, prefix, prefix_codes);
        let after = after_terminal_states(definition, states, codes);
        assert forall|k: int|
            0 <= k < states.len() && #[trigger] entry_code(states[k], codes[k]) is Some
                implies after.raw.terminal_states.contains(codes[k]) by {
            if k < states.len() - 1 {
                assert(prefix[k] == states[k] && prefix_codes[k] == codes[k]);
                assert(entry_code(prefix[k], prefix_codes[k]) is Some);
                assert(before.raw.terminal_states.contains(codes[k]));
                let j = choose|j: int| 0 <= j < before.raw.terminal_states.len() && before.raw.terminal_states[j] == codes[k];
                if entry_code(states.last(), codes.last()) is Some {
                    assert(after.raw.terminal_states[j] == codes[k]);
                }
            } else {
                assert(entry_code(states.last(), codes.last()) == Some(codes.last()));
                let n = before.raw.terminal_states.len() as int;
                assert(after.raw.terminal_states[n] == codes[k]);
            }
        }
    }
}

/// The configuration after registering `source --event--> target`, whose
/// values reported the codes `s`, `e` and `t`: the encoded transition when
/// all three are listed at their codes; otherwise the rules stay and each
/// unlisted value, in that order, is noted as rejected.
pub open spec fn after_transition<S: DenseCode, E: DenseCode>(
    definition: TypedDefinition,
    source: S,
    event: E,
    target: S,
    s: u64,
    e: u64,
    t: u64,
) -> TypedDefinition {
    let first = if entry_code(source, s) is Some {
        definition.input_error
    } else {
        note_rejection(definition.input_error, "state", s)
    };
    let second = if entry_code(event, e) is Some {
        first
    } else {
        note_rejection(first, "event", e)
    };
    let third = if entry_code(target, t) is Some {
        second
    } else {
        note_rejection(second, "state", t)
    };
    match (entry_code(source, s), entry_code(event, e), entry_code(target, t)) {
        (Some(cs), Some(ce), Some(ct)) => TypedDefinition {
            raw: FastDefinition { transitions: definition.raw.transitions.push((cs, ce, ct)), ..definition.raw },
            input_error: third,
        },
        _ => TypedDefinition { input_error: third, ..definition },
    }
}

/// What building a typed configuration gives once its codebooks were
/// checked: the state check's error, then the event check's error, then
/// the first rejected input, then the fast builder's first error; `None`
/// where the rules build.
pub open spec fn typed_build_error(
    definition: TypedDefinition,
    states_check: Result<(), TypedFastStateMachineBuildError>,
    events_check: Result<(), TypedFastStateMachineBuildError>,
) -> Option<TypedFastStateMachineBuildError> {
    match states_check {
        Err(error) => Some(error),
        Ok(()) => match events_check {
            Err(error) => Some(error),
            Ok(()) => match definition.input_error {
                Some(error) => Some(error),
                None => match fast_definition_error(definition.raw) {
                    Some(error) => Some(TypedFastStateMachineBuildError::Raw(error)),
                    None => None,
                },
            },
        },
    }
}

/// Builder used to configure typed states, events and transitions.
#[derive(Debug)]
pub struct TypedFastStateMachineBuilder<S: DenseCode, E: DenseCode> {
    /// The fast builder receiving encoded rules.
    raw: FastStateMachineBuilder,
    /// The first rejected typed input.
    input_error: Option<TypedFastStateMachineBuildError>,
    /// The state and event types, without storage.
    marker: PhantomData<(S, E)>,
}

impl<S: DenseCode, E: DenseCode> View for TypedFastStateMachineBuilder<S, E> {
    type V = TypedDefinition;

    closed spec fn view(&self) -> TypedDefinition {
        TypedDefinition { raw: self.raw@, input_error: self.input_error }
    }
}

impl<S: DenseCode, E: DenseCode> TypedFastStateMachineBuilder<S, E> {
    /// The code spaces are the codebooks' sizes.
    #[verifier::type_invariant]
    closed spec fn sized_by_codebooks(self) -> bool {
        &&& self.raw@.state_count == Some(codebook::<S>().len() as u64)
        &&& self.raw@.event_count == Some(codebook::<E>().len() as u64)
        &&& self.input_error is None || self.input_error matches Some(
            TypedFastStateMachineBuildError::ValueNotInCodebook { .. },
        )
    }

    /// Creates a builder whose code spaces are the two codebooks, with no
    /// rules and no rejected input.
    pub fn new() -> (b: Self)
        ensures
            b@.raw.state_count == Some(codebook::<S>().len() as u64),
            b@.raw.event_count == Some(codebook::<E>().len() as u64),
            b@.raw.initial_state is None,
            b@.raw.terminal_states == Seq::<u64>::empty(),
            b@.raw.transitions == Seq::<(u64, u64, u64)>::empty(),
            b@.raw.max_table_cells is None,
            b@.input_error is None,
    {
        let states: &[S] = S::VALUES;
        let events: &[E] = E::VALUES;
        let raw = FastStateMachineBuilder::new().state_count(states.len() as u64).event_count(events.len() as u64);
        TypedFastStateMachineBuilder { raw, input_error: None, marker: PhantomData }
    }

    /// Encodes `value`, recording the first rejected input.
    fn encode<T: DenseCode>(&mut self, value: T, domain: &'static str) -> (r: Option<u64>)
        requires
            vstd::laws_eq::obeys_concrete_eq::<T>(),
        ensures
            final(self)@.raw == old(self)@.raw,
            exists|code: u64| #[trigger] returns_code(value, code) && r == entry_code(value, code)
                && final(self)@.input_error == (if r is Some {
                old(self)@.input_error
            } else {
                note_rejection(old(self)@.input_error, domain, code)
            }),
    {
        proof {
            use_type_invariant(&*self);
        }
        let reported = value_code(value);
        match listed_code(value, reported) {
            Some(code) => Some(code),
            None => {
                if self.input_error.is_none() {
                    self.input_error = Some(TypedFastStateMachineBuildError::ValueNotInCodebook { domain, code: reported });
                }
                None
            },
        }
    }

    /// Sets the initial state, replacing an earlier one; a value outside
    /// the state codebook is recorded as rejected instead.
    pub fn initial_state(self, state: S) -> (b: Self)
        requires
            vstd::laws_eq::obeys_concrete_eq::<S>(),
        ensures
            exists|code: u64| #[trigger] returns_code(state, code) && b@ == (match entry_code(state, code) {
                Some(c) => TypedDefinition { raw: FastDefinition { initial_state: Some(c), ..self@.raw }, ..self@ },
                None => TypedDefinition { input_error: note_rejection(self@.input_error, "state", code), ..self@ },
            }),
    {
        let mut b = self;
        proof {
            use_type_invariant(&b);
        }
        if let Some(code) = b.encode(state, "state") {
            b.raw = b.raw.initial_state(code);
        }
        b
    }

    /// Registers one terminal state; a value outside the state codebook is
    /// recorded as rejected instead.
    pub fn terminal_state(self, state: S) -> (b: Self)
        requires
            vstd::laws_eq::obeys_concrete_eq::<S>(),
        ensures
            exists|code: u64| #[trigger] returns_code(state, code) && b@ == (match entry_code(state, code) {
                Some(c) => TypedDefinition {
                    raw: FastDefinition { terminal_states: self@.raw.terminal_states.push(c), ..self@.raw },
                    ..self@
                },
                None => TypedDefinition { input_error: note_rejection(self@.input_error, "state", code), ..self@ },
            }),
            exists|code: u64| #[trigger] returns_code(state, code) && b@ == after_terminal_state(self@, state, code),
    {
        let mut b = self;
        proof {
            use_type_invariant(&b);
        }
        if let Some(code) = b.encode(state, "state") {
            b.raw = b.raw.terminal_state(code);
        }
        b
    }

    /// Registers several terminal states, in order; values outside the
    /// state codebook are recorded as rejected instead.
    pub fn terminal_states(self, states: &[S]) -> (b: Self)
        requires
            vstd::laws_eq::obeys_concrete_eq::<S>(),
        ensures
            exists|codes: Seq<u64>|
                #![trigger self@.raw.terminal_states + codes]
                b@.raw == (FastDefinition { terminal_states: self@.raw.terminal_states + codes, ..self@.raw })
                    && codes.len() <= states@.len() && forall|k: int|
                    0 <= k < codes.len() ==> #[trigger] codes[k] < codebook::<S>().len() && states@.contains(
                        codebook::<S>()[codes[k] as int],
                    ),
            self@.input_error is Some ==> b@.input_error == self@.input_error,
            exists|reported: Seq<u64>|
                #![trigger after_terminal_states(self@, states@, reported)]
                reported.len() == states@.len() && (forall|k: int|
                    0 <= k < reported.len() ==> #[trigger] returns_code(states@[k], reported[k])) && b@
                    == after_terminal_states(self@, states@, reported),
    {
        let mut b = self;
        let ghost mut codes: Seq<u64> = Seq::empty();
        let ghost mut reported: Seq<u64> = Seq::empty();
        proof {
            assert(self@.raw.terminal_states + codes =~= self@.raw.terminal_states);
        }
        let mut i: usize = 0;
        while i < states.len()
            invariant
                vstd::laws_eq::obeys_concrete_eq::<S>(),
                i <= states@.len(),
                codes.len() <= i,
                b@.raw == (FastDefinition { terminal_states: self@.raw.terminal_states + codes, ..self@.raw }),
                forall|k: int|
                    0 <= k < codes.len() ==> #[trigger] codes[k] < codebook::<S>().len() && states@.contains(
                        codebook::<S>()[codes[k] as int],
                    ),
                self@.input_error is Some ==> b@.input_error == self@.input_error,
                reported.len() == i,
                forall|k: int| 0 <= k < reported.len() ==> #[trigger] returns_code(states@[k], reported[k]),
                b@ == after_terminal_states(self@, states@.take(i as int), reported),
            decreases states@.len() - i,
        {
            let ghost before = b@;
            let state = states[i];
            b = b.terminal_state(state);
            proof {
                let code = choose|code: u64| #[trigger] returns_code(state, code) && b@ == (match entry_code(state, code) {
                    Some(c) => TypedDefinition {
                        raw: FastDefinition { terminal_states: before.raw.terminal_states.push(c), ..before.raw },
                        ..before
                    },
                    None => TypedDefinition { input_error: note_rejection(before.input_error, "state", code), ..before },
                });
                assert(states@.take(i + 1).drop_last() =~= states@.take(i as int));
                assert(reported.push(code).drop_last() =~= reported);
                assert(states@.take(i + 1).last() == state);
                reported = reported.push(code);
                if let Some(c) = entry_code(state, code) {
                    assert(states@[i as int] == state);
                    assert(codebook::<S>()[c as int] == state);
                    assert(self@.raw.terminal_states + codes.push(c) =~= (self@.raw.terminal_states + codes).push(c));
                    codes = codes.push(c);
                }
            }
            i = i + 1;
        }
        proof {
            assert(states@.take(states@.len() as int) =~= states@);
        }
        b
    }

    /// Registers the transition `source --event--> target`; when a value
    /// is outside its codebook, the first such value is recorded as
    /// rejected instead.
    pub fn transition(self, source: S, event: E, target: S) -> (b: Self)
        requires
            vstd::laws_eq::obeys_concrete_eq::<S>(),
            vstd::laws_eq::obeys_concrete_eq::<E>(),
        ensures
            exists|s: u64, e: u64, t: u64|
                #![trigger returns_code(source, s), returns_code(event, e), returns_code(target, t)]
                returns_code(source, s) && returns_code(event, e) && returns_code(target, t) && b@ == after_transition(
                    self@,
                    source,
                    event,
                    target,
                    s,
                    e,
                    t,
                ),
    {
        let mut b = self;
        proof {
            use_type_invariant(&b);
        }
        let s = b.encode(source, "state");
        let e = b.encode(event, "event");
        let t = b.encode(target, "state");
        if let (Some(s), Some(e), Some(t)) = (s, e, t) {
            b.raw = b.raw.transition(s, e, t);
        }
        b
    }

    /// Registers one transition value.
    pub fn transition_value(self, value: Transition<S, E>) -> (b: Self)
        requires
            vstd::laws_eq::obeys_concrete_eq::<S>(),
            vstd::laws_eq::obeys_concrete_eq::<E>(),
        ensures
            exists|s: u64, e: u64, t: u64|
                #![trigger returns_code(value@.0, s), returns_code(value@.1, e), returns_code(value@.2, t)]
                returns_code(value@.0, s) && returns_code(value@.1, e) && returns_code(value@.2, t) && b@
                    == after_transition(self@, value@.0, value@.1, value@.2, s, e, t),
    {
        self.transition(value.source(), value.event(), value.target())
    }

    /// Limits the table to at most `cells` cells.
    pub fn max_table_cells(self, cells: u64) -> (b: Self)
        ensures
            b@ == (TypedDefinition { raw: FastDefinition { max_table_cells: Some(cells), ..self@.raw }, ..self@ }),
    {
        let mut b = self;
        proof {
            use_type_invariant(&b);
        }
        b.raw = b.raw.max_table_cells(cells);
        b
    }

    /// Sets the compare-and-swap retry policy of the built machine.
    pub fn cas_policy(self, policy: FastCasPolicy) -> (b: Self)
        ensures
            b@ == (TypedDefinition { raw: FastDefinition { cas_policy: policy, ..self@.raw }, ..self@ }),
    {
        let mut b = self;
        proof {
            use_type_invariant(&b);
        }
        b.raw = b.raw.cas_policy(policy);
        b
    }

    /// Builds the typed machine. The codebooks are validated first (states,
    /// then events), then the first rejected input is reported, then the
    /// fast builder's own validation applies.
    pub fn build(self) -> (r: Result<TypedFastStateMachine<S, E>, TypedFastStateMachineBuildError>)
        requires
            vstd::laws_eq::obeys_concrete_eq::<S>(),
            vstd::laws_eq::obeys_concrete_eq::<E>(),
        ensures
            codebook::<S>().len() == 0 ==> r == Err::<TypedFastStateMachine<S, E>, TypedFastStateMachineBuildError>(
                TypedFastStateMachineBuildError::EmptyCodebook { domain: "state" },
            ),
            exists|states_check: Result<(), TypedFastStateMachineBuildError>|
                #[trigger] codebook_check::<S>("state", states_check) && (states_check is Ok ==> exists|
                    events_check: Result<(), TypedFastStateMachineBuildError>,
                |
                    #[trigger] codebook_check::<E>("event", events_check) && match typed_build_error(
                        self@,
                        states_check,
                        events_check,
                    ) {
                        Some(error) => r == Err::<TypedFastStateMachine<S, E>, TypedFastStateMachineBuildError>(error),
                        None => (r matches Ok(machine) && machine@ == fast_table_of(self@.raw)) || r matches Err(
                            TypedFastStateMachineBuildError::Raw(
                                crate::FastStateMachineBuildError::TransitionTableCapacityExceeded { .. },
                            ),
                        ),
                    }) && (states_check is Err ==> r == Err::<TypedFastStateMachine<S, E>, TypedFastStateMachineBuildError>(
                    states_check->Err_0,
                )),
    {
        let states: &[S] = S::VALUES;
        let events: &[E] = E::VALUES;
        let _state_count = states.len();
        let _event_count = events.len();
        proof {
            use_type_invariant(&self);
        }
        let states_check = validate_values::<S>("state");
        if let Err(error) = states_check {
            return Err(error);
        }
        let events_check = validate_values::<E>("event");
        if let Err(error) = events_check {
            return Err(error);
        }
        if let Some(error) = self.input_error {
            return Err(error);
        }
        match self.raw.build() {
            Ok(raw) => Ok(TypedFastStateMachine::from_raw(raw)),
            Err(error) => Err(TypedFastStateMachineBuildError::Raw(error)),
        }
    }
}

impl<S: DenseCode, E: DenseCode> Default for TypedFastStateMachineBuilder<S, E> {
    /// Creates the same builder as [`TypedFastStateMachineBuilder::new`].
    fn default() -> (b: Self)
        ensures
            b@.raw.state_count == Some(codebook::<S>().len() as u64),
            b@.raw.event_count == Some(codebook::<E>().len() as u64),
            b@.raw.initial_state is None,
            b@.raw.terminal_states == Seq::<u64>::empty(),
            b@.raw.transitions == Seq::<(u64, u64, u64)>::empty(),
            b@.raw.max_table_cells is None,
            b@.input_error is None,
    {
        TypedFastStateMachineBuilder::new()
    }
}

} // verus!
