//! Immutable finite state machine rules and CAS-backed event triggering.
use qubit_atomic::AtomicRef;
use qubit_cas::CasErrorKind;
use qubit_cas::CasExecutor;
use std::fmt::Debug;
use std::hash::Hash;
use vstd::prelude::*;

use super::values::contains_value;
use super::values::copy_values;
use super::values::index_of;
use super::values::values_at;
use super::values::position_of;
use super::values::same_value;
use super::CasChange;
use super::CasFailureReport;
use super::StateMachineBuilder;
use super::StateMachineError;
use super::StateMachineResult;
use crate::cas::load_state;
use crate::diagnostics::analyze_graph;
use crate::diagnostics::backward_step;
use crate::diagnostics::forward_step;
use crate::diagnostics::index_set;
use crate::diagnostics::lemma_nodes_where_below;
use crate::diagnostics::nodes_where;
use crate::diagnostics::reachable;
use crate::diagnostics::reverse;
use crate::GraphDiagnostics;
use crate::cas::standard_cas_transition;
use crate::table::definition_key;
use crate::table::keys_distinct;
use crate::table::lemma_distinct_keys_table;
use crate::table::lemma_transition_table_domain;
use crate::table::transition_table;
use crate::Transition;

verus! {

/// The mathematical model of a generic state machine.
#[verifier::reject_recursive_types(S)]
#[verifier::reject_recursive_types(E)]
pub struct StandardTable<S, E> {
    /// The registered states, each once, in order of first registration.
    pub states: Seq<S>,
    /// The unique initial state.
    pub initial_state: S,
    /// The terminal states, each once, in order of first registration.
    pub terminal_states: Seq<S>,
    /// The configured target of each `(source, event)` pair.
    pub targets: Map<(S, E), S>,
    /// The executor used by runtime transitions.
    pub cas_executor: CasExecutor<S, StateMachineError<S, E>>,
}

impl<S, E> StandardTable<S, E> {
    /// Every validated table: registered initial and terminal states,
    /// transitions between registered states, and none leaving a terminal
    /// state.
    pub open spec fn valid(self) -> bool {
        &&& self.states.no_duplicates()
        &&& self.states.contains(self.initial_state)
        &&& self.terminal_states.no_duplicates()
        &&& forall|s: S| #[trigger] self.terminal_states.contains(s) ==> self.states.contains(s)
        &&& self.targets.dom().finite()
        &&& forall|key: (S, E)| #[trigger]
            self.targets.contains_key(key) ==> {
                &&& self.states.contains(key.0)
                &&& self.states.contains(self.targets[key])
                &&& !self.terminal_states.contains(key.0)
            }
    }

    /// The configured target of `(source, event)`, if any.
    pub open spec fn target(self, source: S, event: E) -> Option<S> {
        if self.targets.contains_key((source, event)) {
            Some(self.targets[(source, event)])
        } else {
            None
        }
    }

    /// The outcome of applying `event` to a reference that holds `state`:
    /// the target, or the error that rejects the event.
    pub open spec fn next_state(self, state: S, event: E) -> Result<S, StateMachineError<S, E>> {
        if !self.states.contains(state) {
            Err(StateMachineError::UnknownState { state })
        } else {
            match self.target(state, event) {
                Some(target) => Ok(target),
                None => Err(StateMachineError::UnknownTransition { source_state: state, event }),
            }
        }
    }

    /// An edge of the transition graph between the states at positions `u`
    /// and `w` of `states`.
    pub open spec fn edge(self, u: int, w: int) -> bool {
        &&& 0 <= u < self.states.len()
        &&& 0 <= w < self.states.len()
        &&& exists|event: E|
            #[trigger] self.targets.contains_key((self.states[u], event)) && self.targets[(self.states[u], event)]
                == self.states[w]
    }

    /// The position of the initial state, as a set.
    pub open spec fn initial_positions(self) -> Set<int> {
        Set::new(|i: int| 0 <= i < self.states.len() && self.states[i] == self.initial_state)
    }

    /// The positions of the terminal states.
    pub open spec fn terminal_positions(self) -> Set<int> {
        Set::new(|i: int| 0 <= i < self.states.len() && self.terminal_states.contains(self.states[i]))
    }
}

/// `try_trigger` reports exactly whether a run of `trigger` on the same
/// machine, reference and event committed: every commit counts, a
/// self-transition that leaves the state unchanged included, and a report
/// of a commit means some state has a target under the event.
pub proof fn lemma_standard_try_trigger_reports_commits<S, E>(
    machine: StateMachine<S, E>,
    state: AtomicRef<S>,
    event: E,
    committed: bool,
)
    where
        S: Copy + Eq + Hash + Debug + 'static,
        E: Copy + Eq + Hash + Debug + 'static,
    requires
        call_ensures(StateMachine::<S, E>::try_trigger, (&machine, &state, event), committed),
    ensures
        exists|result: StateMachineResult<S, E>|
            #[trigger] call_ensures(StateMachine::<S, E>::trigger, (&machine, &state, event), result) && (committed
                <==> result is Ok),
        committed ==> exists|previous: S, next: S|
            machine@.next_state(previous, event) == Ok::<S, StateMachineError<S, E>>(next),
{
}

/// A created reference starts at the machine's initial state: it is a
/// reference that `AtomicRef::from_value` makes for that state.
pub proof fn lemma_standard_created_state_holds_initial_state<S, E>(machine: StateMachine<S, E>, cell: AtomicRef<S>)
    where
        S: Copy + Eq + Hash + Debug + 'static,
        E: Copy + Eq + Hash + Debug + 'static,
    requires
        call_ensures(StateMachine::<S, E>::create_state, (&machine,), cell),
    ensures
        call_ensures(AtomicRef::<S>::from_value, (machine@.initial_state,), cell),
{
}

/// A terminal state of a valid table rejects every event as an unknown
/// transition: terminal states have no outgoing transitions.
pub proof fn lemma_standard_terminal_state_rejects_every_event<S, E>(table: StandardTable<S, E>, state: S, event: E)
    requires
        table.valid(),
        table.terminal_states.contains(state),
    ensures
        table.next_state(state, event) == Err::<S, StateMachineError<S, E>>(
            StateMachineError::UnknownTransition { source_state: state, event },
        ),
{
    if table.targets.contains_key((state, event)) {
        assert(!table.terminal_states.contains((state, event).0));
    }
}

/// Immutable finite state machine rules over generic states and events.
///
/// The machine is immutable; each object's current state lives in an
/// [`AtomicRef`] and is updated through the configured CAS executor.
#[derive(Debug)]
#[verifier::reject_recursive_types(S)]
#[verifier::reject_recursive_types(E)]
pub struct StateMachine<S, E> where
    S: Copy + Eq + Hash + Debug + 'static,
    E: Copy + Eq + Hash + Debug + 'static,
 {
    /// Registered states, each once.
    states: Vec<S>,
    /// The unique registered initial state.
    initial_state: S,
    /// Registered terminal states, each once.
    terminal_states: Vec<S>,
    /// `(source, event, target)` rules with distinct `(source, event)` pairs.
    transitions: Vec<(S, E, S)>,
    /// CAS executor used to update current-state references.
    cas_executor: CasExecutor<S, StateMachineError<S, E>>,
}

impl<S, E> View for StateMachine<S, E> where
    S: Copy + Eq + Hash + Debug + 'static,
    E: Copy + Eq + Hash + Debug + 'static,
 {
    type V = StandardTable<S, E>;

    closed spec fn view(&self) -> StandardTable<S, E> {
        StandardTable {
            states: self.states@,
            initial_state: self.initial_state,
            terminal_states: self.terminal_states@,
            targets: transition_table(self.transitions@),
            cas_executor: self.cas_executor,
        }
    }
}

impl<S, E> Clone for StateMachine<S, E> where
    S: Copy + Eq + Hash + Debug + 'static,
    E: Copy + Eq + Hash + Debug + 'static,
 {
    /// Copies the rules; the copy has the same rules and shares the
    /// executor's configuration.
    fn clone(&self) -> (r: Self)
        ensures
            r@.states == self@.states,
            r@.initial_state == self@.initial_state,
            r@.terminal_states == self@.terminal_states,
            r@.targets == self@.targets,
    {
        proof {
            use_type_invariant(self);
        }
        StateMachine {
            states: copy_values(&self.states),
            initial_state: self.initial_state,
            terminal_states: copy_values(&self.terminal_states),
            transitions: copy_values(&self.transitions),
            cas_executor: self.cas_executor.clone(),
        }
    }
}

/// The parts form a valid machine whose `==` on states and events is the
/// identity.
pub open spec fn standard_parts_well_formed<S: PartialEq, E: PartialEq>(
    states: Seq<S>,
    initial_state: S,
    terminal_states: Seq<S>,
    transitions: Seq<(S, E, S)>,
) -> bool {
    &&& vstd::laws_eq::obeys_concrete_eq::<S>()
    &&& vstd::laws_eq::obeys_concrete_eq::<E>()
    &&& states.no_duplicates()
    &&& states.contains(initial_state)
    &&& terminal_states.no_duplicates()
    &&& forall|s: S| #[trigger] terminal_states.contains(s) ==> states.contains(s)
    &&& keys_distinct(transitions)
    &&& forall|j: int|
        0 <= j < transitions.len() ==> {
            &&& states.contains((#[trigger] transitions[j]).0)
            &&& states.contains(transitions[j].2)
            &&& !terminal_states.contains(transitions[j].0)
        }
}

impl<S, E> StateMachine<S, E> where S: Copy + Eq + Hash + Debug + 'static, E: Copy + Eq + Hash + Debug + 'static {
    /// The rules are valid, stored once each, and compared by identity.
    #[verifier::type_invariant]
    closed spec fn well_formed(self) -> bool {
        standard_parts_well_formed(self.states@, self.initial_state, self.terminal_states@, self.transitions@)
    }

    /// The model of well-formed parts is valid.
    proof fn lemma_parts_valid(
        states: Seq<S>,
        initial_state: S,
        terminal_states: Seq<S>,
        transitions: Seq<(S, E, S)>,
        cas_executor: CasExecutor<S, StateMachineError<S, E>>,
    )
        requires
            standard_parts_well_formed(states, initial_state, terminal_states, transitions),
        ensures
            (StandardTable { states, initial_state, terminal_states, targets: transition_table(transitions), cas_executor }).valid(),
            transition_table(transitions).dom().len() == transitions.len(),
    {
        lemma_transition_table_domain(transitions);
        lemma_distinct_keys_table(transitions);
        let table = transition_table(transitions);
        assert forall|key: (S, E)| #[trigger] table.contains_key(key) implies {
            &&& states.contains(key.0)
            &&& states.contains(table[key])
            &&& !terminal_states.contains(key.0)
        } by {
            let j = choose|j: int| 0 <= j < transitions.len() && definition_key(transitions[j]) == key;
            assert(table[definition_key(transitions[j])] == transitions[j].2);
        }
    }

    /// Assembles a machine from validated parts.
    pub(crate) fn from_parts(
        states: Vec<S>,
        initial_state: S,
        terminal_states: Vec<S>,
        transitions: Vec<(S, E, S)>,
        cas_executor: CasExecutor<S, StateMachineError<S, E>>,
    ) -> (m: Self)
        requires
            standard_parts_well_formed(states@, initial_state, terminal_states@, transitions@),
        ensures
            m@ == (StandardTable {
                states: states@,
                initial_state,
                terminal_states: terminal_states@,
                targets: transition_table(transitions@),
                cas_executor,
            }),
            m@.valid(),
    {
        proof {
            Self::lemma_parts_valid(states@, initial_state, terminal_states@, transitions@, cas_executor);
        }
        StateMachine { states, initial_state, terminal_states, transitions, cas_executor }
    }

    /// The model of a machine is valid, and its table has one entry per rule.
    proof fn lemma_valid(&self)
        requires
            self.well_formed(),
        ensures
            self@.valid(),
            self@.targets.dom().len() == self.transitions@.len(),
            vstd::laws_eq::obeys_concrete_eq::<S>(),
            vstd::laws_eq::obeys_concrete_eq::<E>(),
    {
        Self::lemma_parts_valid(self.states@, self.initial_state, self.terminal_states@, self.transitions@, self.cas_executor);
    }

    /// Creates a builder for immutable state machine rules.
    pub fn builder() -> (b: StateMachineBuilder<S, E>)
        ensures
            b@.states == Seq::<S>::empty(),
            b@.initial_state is None,
            b@.terminal_states == Seq::<S>::empty(),
            b@.transitions == Seq::<(S, E, S)>::empty(),
    {
        StateMachineBuilder::new()
    }

    /// Returns the executor used by runtime transitions.
    pub fn cas_executor(&self) -> (r: &CasExecutor<S, StateMachineError<S, E>>)
        ensures
            *r == self@.cas_executor,
    {
        &self.cas_executor
    }

    /// Returns the registered states, each once, in order of first
    /// registration.
    pub fn states(&self) -> (r: &[S])
        ensures
            r@ == self@.states,
    {
        self.states.as_slice()
    }

    /// Returns the configured initial state.
    pub fn initial_state(&self) -> (r: S)
        ensures
            r == self@.initial_state,
    {
        self.initial_state
    }

    /// Returns the terminal states, each once, in order of first
    /// registration.
    pub fn terminal_states(&self) -> (r: &[S])
        ensures
            r@ == self@.terminal_states,
    {
        self.terminal_states.as_slice()
    }

    /// Returns every configured transition once.
    pub fn transitions(&self) -> (r: Vec<Transition<S, E>>)
        ensures
            r@.len() == self@.targets.dom().len(),
            forall|i: int| #![trigger r@[i]]
                0 <= i < r@.len() ==> self@.target(r@[i]@.0, r@[i]@.1) == Some(r@[i]@.2),
            forall|key: (S, E)| #[trigger]
                self@.targets.contains_key(key) ==> exists|i: int|
                    0 <= i < r@.len() && r@[i]@ == (key.0, key.1, self@.targets[key]),
    {
        proof {
            use_type_invariant(self);
            self.lemma_valid();
            lemma_distinct_keys_table(self.transitions@);
            lemma_transition_table_domain(self.transitions@);
        }
        let ghost table = self@.targets;
        let mut r: Vec<Transition<S, E>> = Vec::new();
        let mut i: usize = 0;
        while i < self.transitions.len()
            invariant
                table == self@.targets,
                i <= self.transitions@.len(),
                r@.len() == i,
                forall|j: int| #![trigger r@[j]] 0 <= j < i ==> r@[j]@ == self.transitions@[j],
                forall|j: int| 0 <= j < self.transitions@.len() ==> #[trigger] table[definition_key(self.transitions@[j])] == self.transitions@[j].2,
                forall|key: (S, E)| #[trigger] table.contains_key(key) ==> table.dom().contains(key),
            decreases self.transitions@.len() - i,
        {
            let (source, event, target) = self.transitions[i];
            r.push(Transition::new(source, event, target));
            i = i + 1;
        }
        proof {
            assert forall|j: int| #![trigger r@[j]] 0 <= j < r@.len() implies self@.target(r@[j]@.0, r@[j]@.1) == Some(r@[j]@.2) by {
                assert(table[definition_key(self.transitions@[j])] == self.transitions@[j].2);
                assert(table.contains_key(definition_key(self.transitions@[j])));
            }
            assert forall|key: (S, E)| #[trigger] self@.targets.contains_key(key) implies exists|j: int|
                0 <= j < r@.len() && r@[j]@ == (key.0, key.1, self@.targets[key]) by {
                let j = choose|j: int| 0 <= j < self.transitions@.len() && definition_key(self.transitions@[j]) == key;
                assert(table[definition_key(self.transitions@[j])] == self.transitions@[j].2);
                assert(r@[j]@ == (key.0, key.1, self@.targets[key]));
            }
        }
        r
    }

    /// Tests whether `state` is registered.
    pub fn contains_state(&self, state: S) -> (r: bool)
        ensures
            r == self@.states.contains(state),
    {
        proof {
            use_type_invariant(self);
            self.lemma_valid();
        }
        contains_value(&self.states, &state)
    }

    /// Tests whether `state` is the initial state.
    pub fn is_initial_state(&self, state: S) -> (r: bool)
        ensures
            r == (state == self@.initial_state),
    {
        proof {
            use_type_invariant(self);
            self.lemma_valid();
        }
        same_value(&self.initial_state, &state)
    }

    /// Tests whether `state` is a terminal state.
    pub fn is_terminal_state(&self, state: S) -> (r: bool)
        ensures
            r == self@.terminal_states.contains(state),
    {
        proof {
            use_type_invariant(self);
            self.lemma_valid();
        }
        contains_value(&self.terminal_states, &state)
    }

    /// Returns the number of registered states.
    pub fn state_count(&self) -> (r: usize)
        ensures
            r == self@.states.len(),
    {
        self.states.len()
    }

    /// Returns the number of configured `(source, event)` pairs.
    pub fn transition_count(&self) -> (r: usize)
        ensures
            r == self@.targets.dom().len(),
    {
        proof {
            use_type_invariant(self);
            self.lemma_valid();
        }
        self.transitions.len()
    }

    /// Creates an independent current-state reference holding the initial
    /// state.
    pub fn create_state(&self) -> (r: AtomicRef<S>)
        ensures
            call_ensures(AtomicRef::<S>::from_value, (self@.initial_state,), r),
    {
        let from_value = AtomicRef::<S>::from_value;
        from_value(self.initial_state)
    }

    /// Looks up the configured target of `(source, event)`.
    pub fn transition_target(&self, source: S, event: E) -> (r: Option<S>)
        ensures
            r == self@.target(source, event),
    {
        proof {
            use_type_invariant(self);
            self.lemma_valid();
            lemma_distinct_keys_table(self.transitions@);
            lemma_transition_table_domain(self.transitions@);
        }
        let mut i: usize = 0;
        while i < self.transitions.len()
            invariant
                vstd::laws_eq::obeys_concrete_eq::<S>(),
                vstd::laws_eq::obeys_concrete_eq::<E>(),
                i <= self.transitions@.len(),
                forall|j: int| 0 <= j < i ==> definition_key(#[trigger] self.transitions@[j]) != (source, event),
                forall|j: int|
                    0 <= j < self.transitions@.len() ==> #[trigger] transition_table(self.transitions@)[definition_key(
                        self.transitions@[j],
                    )] == self.transitions@[j].2,
                forall|key: (S, E)|
                    #[trigger] transition_table(self.transitions@).contains_key(key) <==> exists|j: int|
                        0 <= j < self.transitions@.len() && definition_key(self.transitions@[j]) == key,
            decreases self.transitions@.len() - i,
        {
            let (s, e, t) = self.transitions[i];
            if same_value(&s, &source) && same_value(&e, &event) {
                proof {
                    assert(definition_key(self.transitions@[i as int]) == (source, event));
                }
                return Some(t);
            }
            i = i + 1;
        }
        None
    }

    /// Resolves the next state for an observed state and event.
    pub(crate) fn next_state(&self, current_state: S, event: E) -> (r: Result<S, StateMachineError<S, E>>)
        ensures
            r == self@.next_state(current_state, event),
    {
        if !self.contains_state(current_state) {
            return Err(StateMachineError::UnknownState { state: current_state });
        }
        match self.transition_target(current_state, event) {
            Some(target) => Ok(target),
            None => Err(StateMachineError::UnknownTransition { source_state: current_state, event }),
        }
    }

    /// The old and new state reported by a successful compare-and-swap run.
    fn state_change_from_success(success: CasChange<S>) -> (r: (S, S))
        ensures
            r == (match success {
                CasChange::Updated { previous, current } => (previous, current),
                CasChange::Finished { current } => (current, current),
            }),
    {
        match success {
            CasChange::Updated { previous, current } => (previous, current),
            CasChange::Finished { current } => (current, current),
        }
    }

    /// The runtime error of a failed compare-and-swap run: its business
    /// error when the decision rejected the observed state, else a
    /// `CasFailure` with the run's kind and attempt count.
    pub fn state_error_from_parts(
        kind: CasErrorKind,
        attempts: u32,
        business: Option<StateMachineError<S, E>>,
    ) -> (r: StateMachineError<S, E>)
        ensures
            r == (match business {
                Some(error) => error,
                None => StateMachineError::CasFailure { kind, attempts },
            }),
    {
        match business {
            Some(error) => error,
            None => StateMachineError::CasFailure { kind, attempts },
        }
    }

    /// Projects a failure report onto a runtime error.
    fn state_error_from_cas_error(report: CasFailureReport<S, E>) -> (r: StateMachineError<S, E>)
        ensures
            r == (match report.business {
                Some(error) => error,
                None => StateMachineError::CasFailure { kind: report.kind, attempts: report.attempts },
            }),
    {
        Self::state_error_from_parts(report.kind, report.attempts, report.business)
    }

    /// Applies `event` through the CAS executor, after rejecting it at once
    /// when the currently held state already rejects it.
    fn change_state(&self, state: &AtomicRef<S>, event: E) -> (r: Result<(S, S), StateMachineError<S, E>>)
        ensures
            r matches Ok((previous, next)) ==> self@.next_state(previous, event) == Ok::<S, StateMachineError<S, E>>(next),
            r matches Err(error) ==> error is CasFailure || exists|observed: S|
                self@.next_state(observed, event) == Err::<S, StateMachineError<S, E>>(error),
    {
        let initial_state = load_state(state);
        match self.next_state(initial_state, event) {
            Err(error) => return Err(error),
            Ok(_) => {},
        }
        match standard_cas_transition(self, self.cas_executor(), state, event) {
            Ok(success) => Ok(Self::state_change_from_success(success)),
            Err(report) => Err(Self::state_error_from_cas_error(report)),
        }
    }

    /// Applies `event` to the state held by `state`.
    ///
    /// The event is resolved against the state the reference holds when
    /// the update commits: a success installs and returns the target of
    /// some state under `event`; a rejection reports why an observed state
    /// has no target; `CasFailure` reports that the executor gave up.
    pub fn trigger(&self, state: &AtomicRef<S>, event: E) -> (r: StateMachineResult<S, E>)
        ensures
            r matches Ok(next) ==> exists|previous: S|
                self@.next_state(previous, event) == Ok::<S, StateMachineError<S, E>>(next),
            r matches Err(error) ==> error is CasFailure || exists|observed: S|
                self@.next_state(observed, event) == Err::<S, StateMachineError<S, E>>(error),
    {
        match self.change_state(state, event) {
            Ok((_previous, next)) => Ok(next),
            Err(error) => Err(error),
        }
    }

    /// Applies `event` like [`Self::trigger`] and, after a committed update,
    /// calls `on_success(previous, next)` once.
    pub fn trigger_with<F>(&self, state: &AtomicRef<S>, event: E, on_success: F) -> (r: StateMachineResult<S, E>)
        where
            F: FnOnce(S, S),
        requires
            forall|previous: S, next: S| call_requires(on_success, (previous, next)),
        ensures
            r matches Ok(next) ==> exists|previous: S|
                self@.next_state(previous, event) == Ok::<S, StateMachineError<S, E>>(next)
                    && call_ensures(on_success, (previous, next), ()),
            r matches Err(error) ==> error is CasFailure || exists|observed: S|
                self@.next_state(observed, event) == Err::<S, StateMachineError<S, E>>(error),
    {
        match self.change_state(state, event) {
            Ok((previous, next)) => {
                on_success(previous, next);
                Ok(next)
            },
            Err(error) => Err(error),
        }
    }

    /// Applies `event` and reports only whether an update committed.
    pub fn try_trigger(&self, state: &AtomicRef<S>, event: E) -> (r: bool)
        ensures
            r ==> exists|previous: S, next: S|
                self@.next_state(previous, event) == Ok::<S, StateMachineError<S, E>>(next),
            exists|result: StateMachineResult<S, E>|
                #[trigger] call_ensures(StateMachine::<S, E>::trigger, (self, state, event), result) && r == result is Ok,
    {
        let trigger = StateMachine::<S, E>::trigger;
        match trigger(self, state, event) {
            Ok(_) => true,
            Err(_) => false,
        }
    }

    /// Applies `event` with a success callback and reports only whether an
    /// update committed; the callback runs only when it did.
    pub fn try_trigger_with<F>(&self, state: &AtomicRef<S>, event: E, on_success: F) -> (r: bool)
        where
            F: FnOnce(S, S),
        requires
            forall|previous: S, next: S| call_requires(on_success, (previous, next)),
        ensures
            r ==> exists|previous: S, next: S|
                self@.next_state(previous, event) == Ok::<S, StateMachineError<S, E>>(next)
                    && call_ensures(on_success, (previous, next), ()),
            exists|result: StateMachineResult<S, E>|
                #[trigger] call_ensures(StateMachine::<S, E>::trigger_with::<F>, (self, state, event, on_success), result)
                    && r == result is Ok,
    {
        let trigger_with = StateMachine::<S, E>::trigger_with::<F>;
        match trigger_with(self, state, event, on_success) {
            Ok(_) => true,
            Err(_) => false,
        }
    }

    /// Analyzes reachability: the registered states no path reaches from
    /// the initial state, and the states from which no path reaches a
    /// terminal state, each in registration order.
    pub fn diagnose_graph(&self) -> (r: GraphDiagnostics<S>)
        ensures
            r@.0 == nodes_where(
                self@.states.len(),
                |v: int| !reachable(|u: int, w: int| self@.edge(u, w), self@.initial_positions(), v),
            ).map_values(|i: usize| self@.states[i as int]),
            r@.1 == nodes_where(
                self@.states.len(),
                |v: int| !reachable(reverse(|u: int, w: int| self@.edge(u, w)), self@.terminal_positions(), v),
            ).map_values(|i: usize| self@.states[i as int]),
    {
        proof {
            use_type_invariant(self);
            self.lemma_valid();
            lemma_distinct_keys_table(self.transitions@);
            lemma_transition_table_domain(self.transitions@);
        }
        let ghost table = self@;
        let ghost rules = self.transitions@;
        let n = self.states.len();
        let initial = index_of(&self.states, &self.initial_state);
        let mut edges: Vec<(usize, usize)> = Vec::new();
        let mut i: usize = 0;
        while i < self.transitions.len()
            invariant
                table == self@,
                rules == self.transitions@,
                n == table.states.len(),
                standard_parts_well_formed(self.states@, self.initial_state, self.terminal_states@, rules),
                i <= rules.len(),
                edges@.len() == i,
                forall|k: int| #![trigger edges@[k]]
                    0 <= k < i ==> edges@[k].0 < n && edges@[k].1 < n && table.states[edges@[k].0 as int] == rules[k].0
                        && table.states[edges@[k].1 as int] == rules[k].2,
            decreases rules.len() - i,
        {
            let (source, _event, target) = self.transitions[i];
            let from = index_of(&self.states, &source);
            let to = index_of(&self.states, &target);
            edges.push((from, to));
            i = i + 1;
        }
        let mut terminals: Vec<usize> = Vec::new();
        let mut i: usize = 0;
        while i < self.terminal_states.len()
            invariant
                table == self@,
                n == table.states.len(),
                standard_parts_well_formed(self.states@, self.initial_state, self.terminal_states@, rules),
                i <= table.terminal_states.len(),
                terminals@.len() == i,
                forall|k: int| #![trigger terminals@[k]]
                    0 <= k < i ==> terminals@[k] < n && table.states[terminals@[k] as int] == table.terminal_states[k],
            decreases table.terminal_states.len() - i,
        {
            let terminal = self.terminal_states[i];
            proof {
                assert(table.terminal_states.contains(terminal));
            }
            terminals.push(index_of(&self.states, &terminal));
            i = i + 1;
        }
        let report = analyze_graph(n, initial, &terminals, &edges);
        proof {
            let step = |u: int, w: int| table.edge(u, w);
            assert(forward_step(edges@) =~= step) by {
                assert forall|u: int, w: int| #[trigger] forward_step(edges@)(u, w) == step(u, w) by {
                    if forward_step(edges@)(u, w) {
                        let j = choose|j: int| 0 <= j < edges@.len() && edges@[j].0 as int == u && edges@[j].1 as int == w;
                        assert(table.targets[definition_key(rules[j])] == rules[j].2);
                        assert(table.targets.contains_key((table.states[u], rules[j].1)));
                    }
                    if step(u, w) {
                        let event = choose|event: E| #[trigger] table.targets.contains_key((table.states[u], event))
                            && table.targets[(table.states[u], event)] == table.states[w];
                        let j = choose|j: int| 0 <= j < rules.len() && definition_key(rules[j]) == (table.states[u], event);
                        assert(table.targets[definition_key(rules[j])] == rules[j].2);
                        assert(edges@[j].0 as int == u);
                        assert(edges@[j].1 as int == w);
                    }
                }
            }
            assert(backward_step(edges@) =~= reverse(step)) by {
                assert forall|u: int, w: int| #[trigger] backward_step(edges@)(u, w) == reverse(step)(u, w) by {
                    assert(backward_step(edges@)(u, w) == forward_step(edges@)(w, u));
                }
            }
            assert(set![initial as int] =~= table.initial_positions());
            assert(index_set(terminals@) =~= table.terminal_positions()) by {
                assert forall|v: int| #[trigger] index_set(terminals@).contains(v) == table.terminal_positions().contains(v) by {
                    if index_set(terminals@).contains(v) {
                        let k = choose|k: int| 0 <= k < terminals@.len() && terminals@[k] as int == v;
                        assert(table.terminal_states[k] == table.states[v]);
                    }
                    if table.terminal_positions().contains(v) {
                        let k = choose|k: int| 0 <= k < table.terminal_states.len() && table.terminal_states[k] == table.states[v];
                        assert(table.states[terminals@[k] as int] == table.states[v]);
                        assert(terminals@[k] as int == v);
                    }
                }
            }
        }
        let (unreachable, without_path) = report.into_parts();
        proof {
            lemma_nodes_where_below(n as nat, |v: int| !reachable(forward_step(edges@), set![initial as int], v));
            lemma_nodes_where_below(n as nat, |v: int| !reachable(backward_step(edges@), index_set(terminals@), v));
        }
        GraphDiagnostics::new(values_at(&self.states, unreachable), values_at(&self.states, without_path))
    }
}

} // verus!
