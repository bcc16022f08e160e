//! Builder for immutable state machine rules.
use qubit_cas::CasExecutor;
use qubit_cas::CasStrategy;
use std::fmt::Debug;
use std::hash::Hash;
use vstd::prelude::*;

use super::state_machine::StandardTable;
use super::values::contains_value;
use super::values::distinct_in_order;
use super::values::distinct_values;
use super::values::lemma_distinct_in_order;
use super::values::same_value;
use super::StateMachine;
use super::StateMachineBuildError;
use super::StateMachineError;
use crate::cas::undelayed_executor;
use crate::table::definition_key;
use crate::table::keys_distinct;
use crate::table::lemma_distinct_keys_table;
use crate::table::lemma_transition_table_domain;
use crate::table::lemma_transition_table_take_succ;
use crate::table::transition_table;
use crate::Transition;

verus! {

/// Default number of CAS attempts for generic state-machine transitions.
pub const STATE_MACHINE_DEFAULT_CAS_MAX_ATTEMPTS: u32 = 16;

/// The configuration a state machine builder has collected.
#[verifier::reject_recursive_types(S)]
#[verifier::reject_recursive_types(E)]
pub struct StandardDefinition<S, E> {
    /// Registered states, in registration order (repeats allowed).
    pub states: Seq<S>,
    /// The initial state; a later call replaces an earlier one.
    pub initial_state: Option<S>,
    /// Terminal states, in registration order (repeats allowed).
    pub terminal_states: Seq<S>,
    /// `(source, event, target)` definitions in registration order.
    pub transitions: Seq<(S, E, S)>,
    /// Executor installed in the built machine.
    pub cas_executor: CasExecutor<S, StateMachineError<S, E>>,
}

/// The first terminal state, in registration order, that is not a
/// registered state.
pub open spec fn first_unregistered<S>(terminals: Seq<S>, states: Seq<S>) -> Option<S>
    decreases terminals.len(),
{
    if terminals.len() == 0 {
        None
    } else {
        match first_unregistered(terminals.drop_last(), states) {
            Some(state) => Some(state),
            None => if !states.contains(terminals.last()) {
                Some(terminals.last())
            } else {
                None
            },
        }
    }
}

/// The error, if any, of adding `definition` to the table built so far.
pub open spec fn standard_transition_check<S, E>(
    table: Map<(S, E), S>,
    definition: (S, E, S),
    states: Seq<S>,
    terminals: Seq<S>,
) -> Option<StateMachineBuildError<S, E>> {
    let (source, event, target) = definition;
    if !states.contains(source) {
        Some(StateMachineBuildError::TransitionSourceNotRegistered { source_state: source, event, target })
    } else if !states.contains(target) {
        Some(StateMachineBuildError::TransitionTargetNotRegistered { source_state: source, event, target })
    } else if terminals.contains(source) {
        Some(StateMachineBuildError::TerminalStateHasOutgoingTransition { state: source, event, target })
    } else if table.contains_key((source, event)) && table[(source, event)] != target {
        Some(
            StateMachineBuildError::DuplicateTransition {
                source_state: source,
                event,
                existing_target: table[(source, event)],
                new_target: target,
            },
        )
    } else {
        None
    }
}

/// The first error, in registration order, among the transition definitions.
pub open spec fn standard_transitions_error<S, E>(
    definitions: Seq<(S, E, S)>,
    states: Seq<S>,
    terminals: Seq<S>,
) -> Option<StateMachineBuildError<S, E>>
    decreases definitions.len(),
{
    if definitions.len() == 0 {
        None
    } else {
        let prefix = definitions.drop_last();
        match standard_transitions_error(prefix, states, terminals) {
            Some(error) => Some(error),
            None => standard_transition_check(transition_table(prefix), definitions.last(), states, terminals),
        }
    }
}

/// The error that building `definition` reports, checked in this order: the
/// initial state, the terminal states, then the transitions in registration
/// order. `None` when the definition is valid.
pub open spec fn standard_definition_error<S, E>(definition: StandardDefinition<S, E>) -> Option<
    StateMachineBuildError<S, E>,
> {
    match definition.initial_state {
        None => Some(StateMachineBuildError::InitialStateNotConfigured),
        Some(initial) => if !definition.states.contains(initial) {
            Some(StateMachineBuildError::InitialStateNotRegistered { state: initial })
        } else if first_unregistered(definition.terminal_states, definition.states) is Some {
            Some(
                StateMachineBuildError::TerminalStateNotRegistered {
                    state: first_unregistered(definition.terminal_states, definition.states).unwrap(),
                },
            )
        } else {
            standard_transitions_error(definition.transitions, definition.states, definition.terminal_states)
        },
    }
}

/// The machine that a valid `definition` builds: each state and terminal
/// state once, in order of first registration.
pub open spec fn standard_table_of<S, E>(definition: StandardDefinition<S, E>) -> StandardTable<S, E> {
    StandardTable {
        states: distinct_in_order(definition.states),
        initial_state: definition.initial_state.unwrap(),
        terminal_states: distinct_in_order(definition.terminal_states),
        targets: transition_table(definition.transitions),
        cas_executor: definition.cas_executor,
    }
}

/// Builder used to define and validate finite state machine rules.
#[derive(Debug, Clone)]
#[verifier::reject_recursive_types(S)]
#[verifier::reject_recursive_types(E)]
pub struct StateMachineBuilder<S, E> {
    /// Registered states, in registration order.
    states: Vec<S>,
    /// The unique initial state.
    initial_state: Option<S>,
    /// Registered terminal states, in registration order.
    terminal_states: Vec<S>,
    /// Transition definitions in registration order.
    transitions: Vec<(S, E, S)>,
    /// CAS executor installed when the immutable machine is built.
    cas_executor: CasExecutor<S, StateMachineError<S, E>>,
}

impl<S, E> View for StateMachineBuilder<S, E> {
    type V = StandardDefinition<S, E>;

    closed spec fn view(&self) -> StandardDefinition<S, E> {
        StandardDefinition {
            states: self.states@,
            initial_state: self.initial_state,
            terminal_states: self.terminal_states@,
            transitions: self.transitions@,
            cas_executor: self.cas_executor,
        }
    }
}

impl<S, E> StateMachineBuilder<S, E> where S: Copy + Eq + Hash + Debug + 'static, E: Copy + Eq + Hash + Debug + 'static {
    /// Creates an empty builder whose executor makes at most
    /// [`STATE_MACHINE_DEFAULT_CAS_MAX_ATTEMPTS`] attempts with no time
    /// budgets, no timeouts and no delay.
    pub fn new() -> (b: Self)
        ensures
            b@.states == Seq::<S>::empty(),
            b@.initial_state is None,
            b@.terminal_states == Seq::<S>::empty(),
            b@.transitions == Seq::<(S, E, S)>::empty(),
    {
        StateMachineBuilder {
            states: Vec::new(),
            initial_state: None,
            terminal_states: Vec::new(),
            transitions: Vec::new(),
            cas_executor: undelayed_executor(STATE_MACHINE_DEFAULT_CAS_MAX_ATTEMPTS, None, None, None, None),
        }
    }

    /// Registers a state.
    pub fn add_state(self, state: S) -> (b: Self)
        ensures
            b@ == (StandardDefinition { states: self@.states.push(state), ..self@ }),
    {
        let mut b = self;
        b.states.push(state);
        b
    }

    /// Registers several states, in order.
    pub fn add_states(self, states: &[S]) -> (b: Self)
        ensures
            b@ == (StandardDefinition { states: self@.states + states@, ..self@ }),
    {
        let mut b = self;
        let mut i: usize = 0;
        while i < states.len()
            invariant
                i <= states@.len(),
                b@ == (StandardDefinition { states: self@.states + states@.take(i as int), ..self@ }),
            decreases states@.len() - i,
        {
            b.states.push(states[i]);
            proof {
                assert(self@.states + states@.take(i + 1) =~= (self@.states + states@.take(i as int)).push(
                    states@[i as int],
                ));
            }
            i = i + 1;
        }
        proof {
            assert(states@.take(states@.len() as int) =~= states@);
        }
        b
    }

    /// Sets the initial state, replacing an earlier one. It must also be
    /// registered as a state before building.
    pub fn initial_state(self, state: S) -> (b: Self)
        ensures
            b@ == (StandardDefinition { initial_state: Some(state), ..self@ }),
    {
        let mut b = self;
        b.initial_state = Some(state);
        b
    }

    /// Registers one terminal state. It must also be registered as a state
    /// before building.
    pub fn terminal_state(self, state: S) -> (b: Self)
        ensures
            b@ == (StandardDefinition { terminal_states: self@.terminal_states.push(state), ..self@ }),
    {
        let mut b = self;
        b.terminal_states.push(state);
        b
    }

    /// Registers several terminal states, in order.
    pub fn terminal_states(self, states: &[S]) -> (b: Self)
        ensures
            b@ == (StandardDefinition { terminal_states: self@.terminal_states + states@, ..self@ }),
    {
        let mut b = self;
        let mut i: usize = 0;
        while i < states.len()
            invariant
                i <= states@.len(),
                b@ == (StandardDefinition { terminal_states: self@.terminal_states + states@.take(i as int), ..self@ }),
            decreases states@.len() - i,
        {
            b.terminal_states.push(states[i]);
            proof {
                assert(self@.terminal_states + states@.take(i + 1) =~= (self@.terminal_states + states@.take(
                    i as int,
                )).push(states@[i as int]));
            }
            i = i + 1;
        }
        proof {
            assert(states@.take(states@.len() as int) =~= states@);
        }
        b
    }

    /// Replaces the executor used for state transitions.
    pub fn cas_executor(self, executor: CasExecutor<S, StateMachineError<S, E>>) -> (b: Self)
        ensures
            b@ == (StandardDefinition { cas_executor: executor, ..self@ }),
    {
        let mut b = self;
        b.cas_executor = executor;
        b
    }

    /// Installs an executor built from a built-in CAS strategy, replacing
    /// any earlier executor.
    pub fn cas_strategy(self, strategy: CasStrategy) -> (b: Self)
        ensures
            b@ == (StandardDefinition { cas_executor: b@.cas_executor, ..self@ }),
    {
        let mut b = self;
        b.cas_executor = CasExecutor::with_strategy(strategy);
        b
    }

    /// Registers the transition `source --event--> target`.
    pub fn transition(self, source: S, event: E, target: S) -> (b: Self)
        ensures
            b@ == (StandardDefinition { transitions: self@.transitions.push((source, event, target)), ..self@ }),
    {
        let mut b = self;
        b.transitions.push((source, event, target));
        b
    }

    /// Registers one transition value.
    pub fn transition_value(self, transition: Transition<S, E>) -> (b: Self)
        ensures
            b@ == (StandardDefinition { transitions: self@.transitions.push(transition@), ..self@ }),
    {
        self.transition(transition.source(), transition.event(), transition.target())
    }
}

impl<S, E> Default for StateMachineBuilder<S, E> where S: Copy + Eq + Hash + Debug + 'static, E: Copy + Eq + Hash + Debug + 'static {
    /// Creates the same empty builder as [`StateMachineBuilder::new`].
    fn default() -> (b: Self)
        ensures
            b@.states == Seq::<S>::empty(),
            b@.initial_state is None,
            b@.terminal_states == Seq::<S>::empty(),
            b@.transitions == Seq::<(S, E, S)>::empty(),
    {
        StateMachineBuilder::new()
    }
}

/// The target of the rule for `(source, event)` among `entries`, whose
/// pairs are distinct.
fn find_entry<S: PartialEq + Copy, E: PartialEq + Copy>(entries: &Vec<(S, E, S)>, source: &S, event: &E) -> (r: Option<S>)
    requires
        vstd::laws_eq::obeys_concrete_eq::<S>(),
        vstd::laws_eq::obeys_concrete_eq::<E>(),
        keys_distinct(entries@),
    ensures
        r == (if transition_table(entries@).contains_key((*source, *event)) {
            Some(transition_table(entries@)[(*source, *event)])
        } else {
            None::<S>
        }),
{
    proof {
        lemma_distinct_keys_table(entries@);
        lemma_transition_table_domain(entries@);
    }
    let mut i: usize = 0;
    while i < entries.len()
        invariant
            vstd::laws_eq::obeys_concrete_eq::<S>(),
            vstd::laws_eq::obeys_concrete_eq::<E>(),
            i <= entries@.len(),
            forall|j: int| 0 <= j < i ==> definition_key(#[trigger] entries@[j]) != (*source, *event),
            forall|j: int|
                0 <= j < entries@.len() ==> #[trigger] transition_table(entries@)[definition_key(entries@[j])]
                    == entries@[j].2,
            forall|key: (S, E)|
                #[trigger] transition_table(entries@).contains_key(key) <==> exists|j: int|
                    0 <= j < entries@.len() && definition_key(entries@[j]) == key,
        decreases entries@.len() - i,
    {
        let (s, e, t) = entries[i];
        if same_value(&s, source) && same_value(&e, event) {
            proof {
                assert(definition_key(entries@[i as int]) == (*source, *event));
            }
            return Some(t);
        }
        i = i + 1;
    }
    None
}

impl<S, E> StateMachineBuilder<S, E> where S: Copy + Eq + Hash + Debug + 'static, E: Copy + Eq + Hash + Debug + 'static {
    /// Checks that every terminal state is registered.
    fn validate_registered_states(&self) -> (r: Result<(), StateMachineBuildError<S, E>>)
        requires
            vstd::laws_eq::obeys_concrete_eq::<S>(),
        ensures
            r == (match first_unregistered(self@.terminal_states, self@.states) {
                Some(state) => Err(StateMachineBuildError::<S, E>::TerminalStateNotRegistered { state }),
                None => Ok(()),
            }),
    {
        let ghost terminals = self@.terminal_states;
        let mut i: usize = 0;
        while i < self.terminal_states.len()
            invariant
                vstd::laws_eq::obeys_concrete_eq::<S>(),
                terminals == self.terminal_states@,
                i <= terminals.len(),
                first_unregistered(terminals.take(i as int), self@.states) is None,
            decreases terminals.len() - i,
        {
            let state = self.terminal_states[i];
            proof {
                assert(terminals.take(i + 1).drop_last() =~= terminals.take(i as int));
            }
            if !contains_value(&self.states, &state) {
                proof {
                    lemma_first_unregistered_prefix(terminals, self@.states, i + 1);
                }
                return Err(StateMachineBuildError::TerminalStateNotRegistered { state });
            }
            i = i + 1;
        }
        proof {
            assert(terminals.take(terminals.len() as int) =~= terminals);
        }
        Ok(())
    }

    /// Builds an immutable state machine after validating the rules.
    ///
    /// Fails with the first problem found, checking the initial state, then
    /// the terminal states, then each transition in registration order:
    /// unregistered source, unregistered target, a terminal source, and a
    /// `(source, event)` pair already mapped to another target. Registering
    /// the same transition twice is allowed.
    pub fn build(self) -> (r: Result<StateMachine<S, E>, StateMachineBuildError<S, E>>)
        requires
            vstd::laws_eq::obeys_concrete_eq::<S>(),
            vstd::laws_eq::obeys_concrete_eq::<E>(),
        ensures
            match standard_definition_error(self@) {
                Some(error) => r == Err::<StateMachine<S, E>, StateMachineBuildError<S, E>>(error),
                None => r matches Ok(machine) && machine@ == standard_table_of(self@) && machine@.valid(),
            },
    {
        let initial_state = match self.initial_state {
            Some(state) => state,
            None => return Err(StateMachineBuildError::InitialStateNotConfigured),
        };
        if !contains_value(&self.states, &initial_state) {
            return Err(StateMachineBuildError::InitialStateNotRegistered { state: initial_state });
        }
        match self.validate_registered_states() {
            Err(error) => return Err(error),
            Ok(()) => {},
        }
        let ghost defs = self@.transitions;
        let ghost states = self@.states;
        let ghost terminals = self@.terminal_states;
        proof {
            lemma_first_unregistered_none(terminals, states);
            assert(defs.take(0) =~= Seq::<(S, E, S)>::empty());
            assert(transition_table(Seq::<(S, E, S)>::empty()) =~= Map::<(S, E), S>::empty());
        }
        let mut entries: Vec<(S, E, S)> = Vec::new();
        let mut i: usize = 0;
        while i < self.transitions.len()
            invariant
                vstd::laws_eq::obeys_concrete_eq::<S>(),
                vstd::laws_eq::obeys_concrete_eq::<E>(),
                defs == self@.transitions,
                states == self@.states,
                terminals == self@.terminal_states,
                self@.initial_state == Some(initial_state),
                states.contains(initial_state),
                first_unregistered(terminals, states) is None,
                i <= defs.len(),
                standard_transitions_error(defs.take(i as int), states, terminals) is None,
                keys_distinct(entries@),
                transition_table(entries@) == transition_table(defs.take(i as int)),
                forall|j: int|
                    0 <= j < entries@.len() ==> {
                        &&& states.contains((#[trigger] entries@[j]).0)
                        &&& states.contains(entries@[j].2)
                        &&& !terminals.contains(entries@[j].0)
                    },
            decreases defs.len() - i,
        {
            let (source, event, target) = self.transitions[i];
            proof {
                assert(defs.take(i + 1).drop_last() =~= defs.take(i as int));
                assert(defs.take(i + 1).last() == defs[i as int]);
                lemma_transition_table_take_succ(defs, i as int);
            }
            if !contains_value(&self.states, &source) {
                proof { lemma_standard_error_prefix(defs, states, terminals, i + 1); }
                return Err(StateMachineBuildError::TransitionSourceNotRegistered { source_state: source, event, target });
            }
            if !contains_value(&self.states, &target) {
                proof { lemma_standard_error_prefix(defs, states, terminals, i + 1); }
                return Err(StateMachineBuildError::TransitionTargetNotRegistered { source_state: source, event, target });
            }
            if contains_value(&self.terminal_states, &source) {
                proof { lemma_standard_error_prefix(defs, states, terminals, i + 1); }
                return Err(StateMachineBuildError::TerminalStateHasOutgoingTransition { state: source, event, target });
            }
            match find_entry(&entries, &source, &event) {
                Some(existing_target) => {
                    if !same_value(&existing_target, &target) {
                        proof { lemma_standard_error_prefix(defs, states, terminals, i + 1); }
                        return Err(StateMachineBuildError::DuplicateTransition {
                            source_state: source,
                            event,
                            existing_target,
                            new_target: target,
                        });
                    }
                    proof {
                        assert(transition_table(defs.take(i + 1)) =~= transition_table(entries@));
                    }
                },
                None => {
                    let ghost old_entries = entries@;
                    entries.push((source, event, target));
                    proof {
                        lemma_transition_table_domain(old_entries);
                        assert(entries@.drop_last() =~= old_entries);
                        assert(keys_distinct(entries@)) by {
                            assert forall|a: int, b: int| 0 <= a < b < entries@.len() implies definition_key(
                                #[trigger] entries@[a],
                            ) != definition_key(#[trigger] entries@[b]) by {
                                if b == entries@.len() - 1 {
                                    assert(old_entries[a] == entries@[a]);
                                    if definition_key(entries@[a]) == (source, event) {
                                        assert(transition_table(old_entries).contains_key((source, event)));
                                    }
                                } else {
                                    assert(old_entries[a] == entries@[a] && old_entries[b] == entries@[b]);
                                }
                            }
                        }
                        assert forall|j: int| 0 <= j < entries@.len() implies {
                            &&& states.contains((#[trigger] entries@[j]).0)
                            &&& states.contains(entries@[j].2)
                            &&& !terminals.contains(entries@[j].0)
                        } by {
                            if j < entries@.len() - 1 {
                                assert(old_entries[j] == entries@[j]);
                            }
                        }
                    }
                },
            }
            i = i + 1;
        }
        proof {
            assert(defs.take(defs.len() as int) =~= defs);
            lemma_distinct_in_order(states);
            lemma_distinct_in_order(terminals);
            assert forall|s: S| #[trigger] distinct_in_order(terminals).contains(s) implies distinct_in_order(
                states,
            ).contains(s) by {
                lemma_first_unregistered_none(terminals, states);
                let k = choose|k: int| 0 <= k < terminals.len() && terminals[k] == s;
            }
        }
        let distinct_states = distinct_values(&self.states);
        let distinct_terminals = distinct_values(&self.terminal_states);
        Ok(StateMachine::from_parts(distinct_states, initial_state, distinct_terminals, entries, self.cas_executor))
    }
}

/// Terminal states that pass validation are all registered.
proof fn lemma_first_unregistered_none<S>(terminals: Seq<S>, states: Seq<S>)
    requires
        first_unregistered(terminals, states) is None,
    ensures
        forall|j: int| 0 <= j < terminals.len() ==> states.contains(#[trigger] terminals[j]),
    decreases terminals.len(),
{
    if terminals.len() > 0 {
        lemma_first_unregistered_none(terminals.drop_last(), states);
        assert forall|j: int| 0 <= j < terminals.len() implies states.contains(#[trigger] terminals[j]) by {
            if j < terminals.len() - 1 {
                assert(terminals.drop_last()[j] == terminals[j]);
            }
        }
    }
}

/// An unregistered terminal state in a prefix is the first of the whole list.
proof fn lemma_first_unregistered_prefix<S>(terminals: Seq<S>, states: Seq<S>, n: int)
    requires
        0 <= n <= terminals.len(),
        first_unregistered(terminals.take(n), states) is Some,
    ensures
        first_unregistered(terminals, states) == first_unregistered(terminals.take(n), states),
    decreases terminals.len() - n,
{
    if n < terminals.len() {
        assert(terminals.take(n + 1).drop_last() =~= terminals.take(n));
        lemma_first_unregistered_prefix(terminals, states, n + 1);
    } else {
        assert(terminals.take(n) =~= terminals);
    }
}

/// An error in a prefix of the definitions is the first error of the whole
/// list.
proof fn lemma_standard_error_prefix<S, E>(definitions: Seq<(S, E, S)>, states: Seq<S>, terminals: Seq<S>, n: int)
    requires
        0 <= n <= definitions.len(),
        standard_transitions_error(definitions.take(n), states, terminals) is Some,
    ensures
        standard_transitions_error(definitions, states, terminals) == standard_transitions_error(
            definitions.take(n),
            states,
            terminals,
        ),
    decreases definitions.len() - n,
{
    if n < definitions.len() {
        assert(definitions.take(n + 1).drop_last() =~= definitions.take(n));
        lemma_standard_error_prefix(definitions, states, terminals, n + 1);
    } else {
        assert(definitions.take(n) =~= definitions);
    }
}

/// Definitions that pass validation join registered states, leave no
/// terminal state, and map each definition's pair to its own target.
proof fn lemma_standard_valid_definitions<S, E>(definitions: Seq<(S, E, S)>, states: Seq<S>, terminals: Seq<S>)
    requires
        standard_transitions_error(definitions, states, terminals) is None,
    ensures
        forall|j: int|
            0 <= j < definitions.len() ==> {
                &&& states.contains((#[trigger] definitions[j]).0)
                &&& states.contains(definitions[j].2)
                &&& !terminals.contains(definitions[j].0)
                &&& transition_table(definitions).contains_key(definition_key(definitions[j]))
                &&& transition_table(definitions)[definition_key(definitions[j])] == definitions[j].2
            },
    decreases definitions.len(),
{
    if definitions.len() > 0 {
        let prefix = definitions.drop_last();
        let last = definitions.last();
        lemma_standard_valid_definitions(prefix, states, terminals);
        assert(standard_transition_check(transition_table(prefix), last, states, terminals) is None);
        assert(transition_table(definitions) == transition_table(prefix).insert(definition_key(last), last.2));
        assert forall|j: int| 0 <= j < definitions.len() implies {
            &&& states.contains((#[trigger] definitions[j]).0)
            &&& states.contains(definitions[j].2)
            &&& !terminals.contains(definitions[j].0)
            &&& transition_table(definitions).contains_key(definition_key(definitions[j]))
            &&& transition_table(definitions)[definition_key(definitions[j])] == definitions[j].2
        } by {
            if j < definitions.len() - 1 {
                assert(prefix[j] == definitions[j]);
                assert(transition_table(prefix).contains_key(definition_key(prefix[j])));
            } else {
                assert(definitions[j] == last);
            }
        }
    }
}

/// Registering a transition again, with the same target, changes neither
/// the outcome of building nor, for rules that build, the resulting table.
pub proof fn lemma_standard_repeated_transition_is_harmless<S, E>(definition: StandardDefinition<S, E>, j: int)
    requires
        0 <= j < definition.transitions.len(),
    ensures
        standard_definition_error(
            StandardDefinition { transitions: definition.transitions.push(definition.transitions[j]), ..definition },
        ) == standard_definition_error(definition),
        standard_definition_error(definition) is None ==> transition_table(
            definition.transitions.push(definition.transitions[j]),
        ) == transition_table(definition.transitions),
{
    let defs = definition.transitions;
    let again = defs.push(defs[j]);
    assert(again.drop_last() =~= defs);
    assert(again.last() == defs[j]);
    let states = definition.states;
    let terminals = definition.terminal_states;
    if standard_transitions_error(defs, states, terminals) is None {
        lemma_standard_valid_definitions(defs, states, terminals);
        let t = defs[j];
        assert(transition_table(defs).contains_key(definition_key(defs[j])));
        assert(standard_transition_check(transition_table(defs), t, states, terminals) is None);
        assert(standard_transitions_error(again, states, terminals) is None);
        assert(transition_table(again) =~= transition_table(defs));
    }
}

} // verus!
