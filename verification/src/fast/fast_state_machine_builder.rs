//! Builder for fast state machine rules.
use qubit_fast_cas::FastCasPolicy;
use vstd::prelude::*;

use super::fast_state_machine::cell_index;
use super::fast_state_machine::lemma_cell_index;
use super::fast_state_machine::FastTable;
use super::fast_state_machine::parts_well_formed;
use super::fast_state_machine::table_model;
use super::fast_state_machine::UNSET_TRANSITION;
use super::FastStateMachine;
use super::FastStateMachineBuildError;
use crate::table::definition_key;
use crate::table::lemma_transition_table_domain;
use crate::table::lemma_transition_table_take_succ;
use crate::table::transition_table;

verus! {

/// Attempts allowed by the default compare-and-swap policy of fast machines.
pub const FAST_STATE_MACHINE_DEFAULT_CAS_ATTEMPTS: u32 = 16;

/// The configuration a fast state machine builder has collected.
pub struct FastDefinition {
    /// Configured number of state codes.
    pub state_count: Option<u64>,
    /// Configured number of event codes.
    pub event_count: Option<u64>,
    /// The initial state; a later call replaces an earlier one.
    pub initial_state: Option<u64>,
    /// Terminal states in configuration order.
    pub terminal_states: Seq<u64>,
    /// `(source, event, target)` definitions in configuration order.
    pub transitions: Seq<(u64, u64, u64)>,
    /// Largest table size accepted, in cells; no limit when absent.
    pub max_table_cells: Option<u64>,
    /// Compare-and-swap retry policy of the built machine.
    pub cas_policy: FastCasPolicy,
}

/// The first terminal state, in configuration order, that is not below
/// `state_count`.
pub open spec fn first_terminal_out_of_range(terminals: Seq<u64>, state_count: u64) -> Option<u64>
    decreases terminals.len(),
{
    if terminals.len() == 0 {
        None
    } else {
        match first_terminal_out_of_range(terminals.drop_last(), state_count) {
            Some(state) => Some(state),
            None => if terminals.last() >= state_count {
                Some(terminals.last())
            } else {
                None
            },
        }
    }
}

/// The error, if any, of adding `definition` to the table built so far.
pub open spec fn fast_transition_check(
    table: Map<(u64, u64), u64>,
    definition: (u64, u64, u64),
    state_count: u64,
    event_count: u64,
    terminals: Seq<u64>,
) -> Option<FastStateMachineBuildError> {
    let (source, event, target) = definition;
    if source >= state_count {
        Some(FastStateMachineBuildError::TransitionSourceOutOfRange { source_state: source, state_count })
    } else if event >= event_count {
        Some(FastStateMachineBuildError::TransitionEventOutOfRange { event, event_count })
    } else if target >= state_count {
        Some(FastStateMachineBuildError::TransitionTargetOutOfRange { target, state_count })
    } else if terminals.contains(source) {
        Some(FastStateMachineBuildError::TerminalStateHasOutgoingTransition { state: source, event, target })
    } else if table.contains_key((source, event)) && table[(source, event)] != target {
        Some(
            FastStateMachineBuildError::DuplicateTransition {
                source_state: source,
                event,
                existing_target: table[(source, event)],
                new_target: target,
            },
        )
    } else {
        None
    }
}

/// The first error, in configuration order, among the transition definitions.
pub open spec fn fast_transitions_error(
    definitions: Seq<(u64, u64, u64)>,
    state_count: u64,
    event_count: u64,
    terminals: Seq<u64>,
) -> Option<FastStateMachineBuildError>
    decreases definitions.len(),
{
    if definitions.len() == 0 {
        None
    } else {
        let prefix = definitions.drop_last();
        match fast_transitions_error(prefix, state_count, event_count, terminals) {
            Some(error) => Some(error),
            None => fast_transition_check(
                transition_table(prefix),
                definitions.last(),
                state_count,
                event_count,
                terminals,
            ),
        }
    }
}

/// The error that building `definition` reports, checked in this order:
/// missing or zero counts, the initial state, the terminal states, the
/// transitions in configuration order, then the table size. `None` when the
/// definition is valid.
pub open spec fn fast_definition_error(definition: FastDefinition) -> Option<FastStateMachineBuildError> {
    match (definition.state_count, definition.event_count) {
        (None, _) => Some(FastStateMachineBuildError::StateCountNotConfigured),
        (Some(_), None) => Some(FastStateMachineBuildError::EventCountNotConfigured),
        (Some(state_count), Some(event_count)) => if state_count == 0 {
            Some(FastStateMachineBuildError::InvalidStateCount { count: state_count })
        } else if event_count == 0 {
            Some(FastStateMachineBuildError::InvalidEventCount { count: event_count })
        } else if definition.initial_state is None {
            Some(FastStateMachineBuildError::InitialStateNotConfigured)
        } else if definition.initial_state.unwrap() >= state_count {
            Some(
                FastStateMachineBuildError::InitialStateOutOfRange {
                    state: definition.initial_state.unwrap(),
                    state_count,
                },
            )
        } else if first_terminal_out_of_range(definition.terminal_states, state_count) is Some {
            Some(
                FastStateMachineBuildError::TerminalStateOutOfRange {
                    state: first_terminal_out_of_range(definition.terminal_states, state_count).unwrap(),
                    state_count,
                },
            )
        } else if fast_transitions_error(
            definition.transitions,
            state_count,
            event_count,
            definition.terminal_states,
        ) is Some {
            fast_transitions_error(
                definition.transitions,
                state_count,
                event_count,
                definition.terminal_states,
            )
        } else if state_count * event_count > u64::MAX {
            Some(FastStateMachineBuildError::TransitionTableOverflow { state_count, event_count })
        } else if definition.max_table_cells is Some && state_count * event_count
            > definition.max_table_cells.unwrap() {
            Some(
                FastStateMachineBuildError::TransitionTableLimitExceeded {
                    state_count,
                    event_count,
                    cells: (state_count * event_count) as u64,
                    limit: definition.max_table_cells.unwrap(),
                },
            )
        } else if state_count * event_count > usize::MAX {
            Some(FastStateMachineBuildError::TransitionTableCapacityExceeded { state_count, event_count })
        } else {
            None
        },
    }
}

/// The machine that a valid `definition` builds.
pub open spec fn fast_table_of(definition: FastDefinition) -> FastTable {
    FastTable {
        state_count: definition.state_count.unwrap(),
        event_count: definition.event_count.unwrap(),
        initial_state: definition.initial_state.unwrap(),
        terminal_states: definition.terminal_states.to_set(),
        targets: transition_table(definition.transitions),
        cas_policy: definition.cas_policy,
    }
}

/// Builder used to configure and validate a fast state machine.
#[derive(Debug, Clone)]
pub struct FastStateMachineBuilder {
    /// Number of state codes.
    state_count: Option<u64>,
    /// Number of event codes.
    event_count: Option<u64>,
    /// The unique initial state.
    initial_state: Option<u64>,
    /// Terminal states in configuration order.
    terminal_states: Vec<u64>,
    /// `(source, event, target)` definitions in configuration order.
    transitions: Vec<(u64, u64, u64)>,
    /// Largest table size accepted, in cells.
    max_table_cells: Option<u64>,
    /// Retry policy for runtime compare-and-swap conflicts.
    cas_policy: FastCasPolicy,
}

impl View for FastStateMachineBuilder {
    type V = FastDefinition;

    closed spec fn view(&self) -> FastDefinition {
        FastDefinition {
            state_count: self.state_count,
            event_count: self.event_count,
            initial_state: self.initial_state,
            terminal_states: self.terminal_states@,
            transitions: self.transitions@,
            max_table_cells: self.max_table_cells,
            cas_policy: self.cas_policy,
        }
    }
}

/// Whether `values` lists `value`.
fn contains_code(values: &Vec<u64>, value: u64) -> (r: bool)
    ensures
        r == values@.contains(value),
{
    let mut i: usize = 0;
    while i < values.len()
        invariant
            i <= values@.len(),
            forall|j: int| 0 <= j < i ==> values@[j] != value,
        decreases values@.len() - i,
    {
        if values[i] == value {
            return true;
        }
        i = i + 1;
    }
    false
}

/// The retry policy a new builder starts with: spinning for at most
/// [`FAST_STATE_MACHINE_DEFAULT_CAS_ATTEMPTS`] attempts.
pub fn fast_state_machine_default_cas_policy() -> FastCasPolicy {
    FastCasPolicy::spin(FAST_STATE_MACHINE_DEFAULT_CAS_ATTEMPTS)
}

impl FastStateMachineBuilder {
    /// Creates an empty builder with the default CAS policy, no counts, no
    /// markers, no transitions and no table limit.
    pub fn new() -> (b: Self)
        ensures
            b@.state_count is None,
            b@.event_count is None,
            b@.initial_state is None,
            b@.terminal_states == Seq::<u64>::empty(),
            b@.transitions == Seq::<(u64, u64, u64)>::empty(),
            b@.max_table_cells is None,
    {
        FastStateMachineBuilder {
            state_count: None,
            event_count: None,
            initial_state: None,
            terminal_states: Vec::new(),
            transitions: Vec::new(),
            max_table_cells: None,
            cas_policy: fast_state_machine_default_cas_policy(),
        }
    }

    /// Sets the number of state codes: states are `0..count`.
    pub fn state_count(self, count: u64) -> (b: Self)
        ensures
            b@ == (FastDefinition { state_count: Some(count), ..self@ }),
    {
        FastStateMachineBuilder { state_count: Some(count), ..self }
    }

    /// Sets the number of event codes: events are `0..count`.
    pub fn event_count(self, count: u64) -> (b: Self)
        ensures
            b@ == (FastDefinition { event_count: Some(count), ..self@ }),
    {
        FastStateMachineBuilder { event_count: Some(count), ..self }
    }

    /// Sets the unique initial state, replacing an earlier one.
    pub fn initial_state(self, state: u64) -> (b: Self)
        ensures
            b@ == (FastDefinition { initial_state: Some(state), ..self@ }),
    {
        FastStateMachineBuilder { initial_state: Some(state), ..self }
    }

    /// Registers one terminal state.
    pub fn terminal_state(self, state: u64) -> (b: Self)
        ensures
            b@ == (FastDefinition { terminal_states: self@.terminal_states.push(state), ..self@ }),
    {
        let mut b = self;
        b.terminal_states.push(state);
        b
    }

    /// Registers several terminal states, in order.
    pub fn terminal_states(self, states: &[u64]) -> (b: Self)
        ensures
            b@ == (FastDefinition { terminal_states: self@.terminal_states + states@, ..self@ }),
    {
        let mut b = self;
        let mut i: usize = 0;
        while i < states.len()
            invariant
                i <= states@.len(),
                b@ == (FastDefinition { terminal_states: self@.terminal_states + states@.take(i as int), ..self@ }),
            decreases states@.len() - i,
        {
            b.terminal_states.push(states[i]);
            proof {
                assert(self@.terminal_states + states@.take(i + 1) =~= (self@.terminal_states + states@.take(
                    i as int,
                )).push(states@[i as int]));
            }
            i = i + 1;
        }
        proof {
            assert(states@.take(states@.len() as int) =~= states@);
        }
        b
    }

    /// Registers the transition `source --event--> target`.
    pub fn transition(self, source: u64, event: u64, target: u64) -> (b: Self)
        ensures
            b@ == (FastDefinition { transitions: self@.transitions.push((source, event, target)), ..self@ }),
    {
        let mut b = self;
        b.transitions.push((source, event, target));
        b
    }

    /// Limits the table to at most `cells` cells.
    pub fn max_table_cells(self, cells: u64) -> (b: Self)
        ensures
            b@ == (FastDefinition { max_table_cells: Some(cells), ..self@ }),
    {
        FastStateMachineBuilder { max_table_cells: Some(cells), ..self }
    }

    /// Sets the compare-and-swap retry policy of the built machine.
    pub fn cas_policy(self, cas_policy: FastCasPolicy) -> (b: Self)
        ensures
            b@ == (FastDefinition { cas_policy, ..self@ }),
    {
        FastStateMachineBuilder { cas_policy, ..self }
    }
}

impl Default for FastStateMachineBuilder {
    /// Creates the same empty builder as [`FastStateMachineBuilder::new`].
    fn default() -> (b: Self)
        ensures
            b@.state_count is None,
            b@.event_count is None,
            b@.initial_state is None,
            b@.terminal_states == Seq::<u64>::empty(),
            b@.transitions == Seq::<(u64, u64, u64)>::empty(),
            b@.max_table_cells is None,
    {
        FastStateMachineBuilder::new()
    }
}

impl FastStateMachineBuilder {
    /// Checks that every terminal state is below `state_count`.
    fn validate_terminal_states(&self, state_count: u64) -> (r: Result<(), FastStateMachineBuildError>)
        ensures
            r == (match first_terminal_out_of_range(self@.terminal_states, state_count) {
                Some(state) => Err(FastStateMachineBuildError::TerminalStateOutOfRange { state, state_count }),
                None => Ok(()),
            }),
    {
        let ghost terminals = self@.terminal_states;
        let mut i: usize = 0;
        while i < self.terminal_states.len()
            invariant
                terminals == self.terminal_states@,
                i <= terminals.len(),
                first_terminal_out_of_range(terminals.take(i as int), state_count) is None,
            decreases terminals.len() - i,
        {
            let state = self.terminal_states[i];
            proof {
                assert(terminals.take(i + 1).drop_last() =~= terminals.take(i as int));
            }
            if state >= state_count {
                proof {
                    lemma_first_out_of_range_prefix(terminals, state_count, i + 1);
                }
                return Err(FastStateMachineBuildError::TerminalStateOutOfRange { state, state_count });
            }
            i = i + 1;
        }
        proof {
            assert(terminals.take(terminals.len() as int) =~= terminals);
        }
        Ok(())
    }

    /// Finds the target of an earlier definition of `(source, event)` among
    /// the first `upto` definitions.
    fn find_target(&self, upto: usize, source: u64, event: u64) -> (r: Option<u64>)
        requires
            upto <= self@.transitions.len(),
        ensures
            r matches Some(target) ==> exists|j: int|
                0 <= j < upto && #[trigger] self@.transitions[j] == (source, event, target),
            r is None ==> forall|j: int|
                0 <= j < upto ==> definition_key(#[trigger] self@.transitions[j]) != (source, event),
    {
        let mut j: usize = 0;
        while j < upto
            invariant
                upto <= self@.transitions.len(),
                j <= upto,
                forall|k: int| 0 <= k < j ==> definition_key(#[trigger] self@.transitions[k]) != (source, event),
            decreases upto - j,
        {
            let (s, e, t) = self.transitions[j];
            if s == source && e == event {
                assert(self@.transitions[j as int] == (source, event, t));
                return Some(t);
            }
            j = j + 1;
        }
        None
    }

    /// Checks the transition definitions in configuration order.
    fn validate_transitions(&self, state_count: u64, event_count: u64) -> (r: Result<(), FastStateMachineBuildError>)
        ensures
            r == (match fast_transitions_error(self@.transitions, state_count, event_count, self@.terminal_states) {
                Some(error) => Err(error),
                None => Ok(()),
            }),
    {
        let ghost defs = self@.transitions;
        let ghost terminals = self@.terminal_states;
        let mut i: usize = 0;
        while i < self.transitions.len()
            invariant
                defs == self@.transitions,
                terminals == self@.terminal_states,
                i <= defs.len(),
                fast_transitions_error(defs.take(i as int), state_count, event_count, terminals) is None,
                forall|j: int|
                    0 <= j < i ==> transition_table(defs.take(i as int)).contains_key(definition_key(#[trigger] defs[j]))
                        && transition_table(defs.take(i as int))[definition_key(defs[j])] == defs[j].2,
                forall|key: (u64, u64)|
                    #[trigger] transition_table(defs.take(i as int)).contains_key(key) ==> exists|j: int|
                        0 <= j < i && definition_key(defs[j]) == key,
            decreases defs.len() - i,
        {
            let (source, event, target) = self.transitions[i];
            let ghost table = transition_table(defs.take(i as int));
            proof {
                assert(defs.take(i + 1).drop_last() =~= defs.take(i as int));
                assert(defs.take(i + 1).last() == defs[i as int]);
                lemma_transition_table_take_succ(defs, i as int);
            }
            if source >= state_count {
                proof { lemma_fast_error_prefix(defs, state_count, event_count, terminals, i + 1); }
                return Err(FastStateMachineBuildError::TransitionSourceOutOfRange { source_state: source, state_count });
            }
            if event >= event_count {
                proof { lemma_fast_error_prefix(defs, state_count, event_count, terminals, i + 1); }
                return Err(FastStateMachineBuildError::TransitionEventOutOfRange { event, event_count });
            }
            if target >= state_count {
                proof { lemma_fast_error_prefix(defs, state_count, event_count, terminals, i + 1); }
                return Err(FastStateMachineBuildError::TransitionTargetOutOfRange { target, state_count });
            }
            if contains_code(&self.terminal_states, source) {
                proof { lemma_fast_error_prefix(defs, state_count, event_count, terminals, i + 1); }
                return Err(FastStateMachineBuildError::TerminalStateHasOutgoingTransition { state: source, event, target });
            }
            match self.find_target(i, source, event) {
                Some(existing_target) => {
                    proof {
                        let j = choose|j: int| 0 <= j < i && #[trigger] defs[j] == (source, event, existing_target);
                        assert(definition_key(defs[j]) == (source, event));
                        assert(table[(source, event)] == existing_target);
                    }
                    if existing_target != target {
                        proof { lemma_fast_error_prefix(defs, state_count, event_count, terminals, i + 1); }
                        return Err(FastStateMachineBuildError::DuplicateTransition {
                            source_state: source,
                            event,
                            existing_target,
                            new_target: target,
                        });
                    }
                },
                None => {
                    proof {
                        if table.contains_key((source, event)) {
                            let j = choose|j: int| 0 <= j < i && definition_key(defs[j]) == (source, event);
                            assert(definition_key(defs[j]) != (source, event));
                        }
                    }
                },
            }
            proof {
                let next = transition_table(defs.take(i + 1));
                assert forall|j: int| 0 <= j < i + 1 implies next.contains_key(definition_key(#[trigger] defs[j]))
                    && next[definition_key(defs[j])] == defs[j].2 by {
                    if j < i && definition_key(defs[j]) == (source, event) {
                        assert(table[(source, event)] == defs[j].2);
                    }
                }
                assert forall|key: (u64, u64)| #[trigger] next.contains_key(key) implies exists|j: int|
                    0 <= j < i + 1 && definition_key(defs[j]) == key by {
                    if key != (source, event) {
                        assert(table.contains_key(key));
                        let j = choose|j: int| 0 <= j < i && definition_key(defs[j]) == key;
                        assert(0 <= j < i + 1 && definition_key(defs[j]) == key);
                    } else {
                        assert(definition_key(defs[i as int]) == key);
                    }
                }
            }
            i = i + 1;
        }
        proof {
            assert(defs.take(defs.len() as int) =~= defs);
        }
        Ok(())
    }
}

/// Allocates the storage of a dense table: `cells` unset transition cells
/// and `states` cleared terminal flags, or `None` when the allocator refuses
/// the space (which the allocator decides; nothing is claimed of when).
pub fn allocate_transition_table(cells: usize, states: usize) -> (r: Option<(Vec<u64>, Vec<bool>)>)
    ensures
        r matches Some((transitions, flags)) ==> transitions@ == Seq::new(cells as nat, |j: int| UNSET_TRANSITION)
            && flags@ == Seq::new(states as nat, |j: int| false),
{
    let mut transitions: Vec<u64> = Vec::new();
    if transitions.try_reserve(cells).is_err() {
        return None;
    }
    let mut flags: Vec<bool> = Vec::new();
    if flags.try_reserve(states).is_err() {
        return None;
    }
    let mut k: usize = 0;
    while k < cells
        invariant
            k <= cells,
            transitions@ == Seq::new(k as nat, |j: int| UNSET_TRANSITION),
        decreases cells - k,
    {
        transitions.push(UNSET_TRANSITION);
        k = k + 1;
        proof {
            assert(transitions@ =~= Seq::new(k as nat, |j: int| UNSET_TRANSITION));
        }
    }
    let mut k: usize = 0;
    while k < states
        invariant
            k <= states,
            flags@ == Seq::new(k as nat, |j: int| false),
        decreases states - k,
    {
        flags.push(false);
        k = k + 1;
        proof {
            assert(flags@ =~= Seq::new(k as nat, |j: int| false));
        }
    }
    Some((transitions, flags))
}

/// A valid definition builds its own table: the built machine's model is
/// the definition's table, and the only way the build can fail is the
/// allocator refusing the table's storage, whatever the table's size.
pub proof fn lemma_valid_definition_builds_its_table(
    builder: FastStateMachineBuilder,
    r: Result<FastStateMachine, FastStateMachineBuildError>,
)
    requires
        call_ensures(FastStateMachineBuilder::build, (builder,), r),
        fast_definition_error(builder@) is None,
    ensures
        r matches Ok(machine) ==> machine@ == fast_table_of(builder@) && machine@.valid(),
        r is Err ==> exists|storage: Option<(Vec<u64>, Vec<bool>)>|
            #[trigger] call_ensures(
                allocate_transition_table,
                (
                    (builder@.state_count.unwrap() * builder@.event_count.unwrap()) as usize,
                    builder@.state_count.unwrap() as usize,
                ),
                storage,
            ) && storage is None,
{
}

impl FastStateMachineBuilder {
    /// Builds an immutable fast state machine after validating the
    /// configuration.
    ///
    /// The checks run in the order of [`fast_definition_error`]; every
    /// check happens before the table is allocated. A valid definition
    /// builds the machine of [`fast_table_of`], unless the table cannot be
    /// allocated, which is reported as
    /// [`FastStateMachineBuildError::TransitionTableCapacityExceeded`].
    pub fn build(self) -> (r: Result<FastStateMachine, FastStateMachineBuildError>)
        ensures
            match fast_definition_error(self@) {
                Some(error) => r == Err::<FastStateMachine, FastStateMachineBuildError>(error),
                None => match r {
                    Ok(machine) => machine@ == fast_table_of(self@) && machine@.valid(),
                    Err(error) => error == (FastStateMachineBuildError::TransitionTableCapacityExceeded {
                        state_count: self@.state_count.unwrap(),
                        event_count: self@.event_count.unwrap(),
                    }) && exists|storage: Option<(Vec<u64>, Vec<bool>)>|
                        #[trigger] call_ensures(
                            allocate_transition_table,
                            (
                                (self@.state_count.unwrap() * self@.event_count.unwrap()) as usize,
                                self@.state_count.unwrap() as usize,
                            ),
                            storage,
                        ) && storage is None,
                },
            },
    {
        let state_count = match self.state_count {
            Some(count) => count,
            None => return Err(FastStateMachineBuildError::StateCountNotConfigured),
        };
        let event_count = match self.event_count {
            Some(count) => count,
            None => return Err(FastStateMachineBuildError::EventCountNotConfigured),
        };
        if state_count == 0 {
            return Err(FastStateMachineBuildError::InvalidStateCount { count: state_count });
        }
        if event_count == 0 {
            return Err(FastStateMachineBuildError::InvalidEventCount { count: event_count });
        }
        let initial_state = match self.initial_state {
            Some(state) => state,
            None => return Err(FastStateMachineBuildError::InitialStateNotConfigured),
        };
        if initial_state >= state_count {
            return Err(FastStateMachineBuildError::InitialStateOutOfRange { state: initial_state, state_count });
        }
        match self.validate_terminal_states(state_count) {
            Err(error) => return Err(error),
            Ok(()) => {},
        }
        match self.validate_transitions(state_count, event_count) {
            Err(error) => return Err(error),
            Ok(()) => {},
        }
        let cells = match state_count.checked_mul(event_count) {
            Some(cells) => cells,
            None => return Err(FastStateMachineBuildError::TransitionTableOverflow { state_count, event_count }),
        };
        match self.max_table_cells {
            Some(limit) => {
                if cells > limit {
                    return Err(FastStateMachineBuildError::TransitionTableLimitExceeded {
                        state_count,
                        event_count,
                        cells,
                        limit,
                    });
                }
            },
            None => {},
        }
        if cells > usize::MAX as u64 {
            return Err(FastStateMachineBuildError::TransitionTableCapacityExceeded { state_count, event_count });
        }
        proof {
            assert(state_count <= cells) by (nonlinear_arith)
                requires cells == state_count * event_count, event_count >= 1, state_count >= 0;
        }
        let cell_count = cells as usize;
        let state_slots = state_count as usize;
        let allocate = allocate_transition_table;
        let (mut transitions, mut terminal_flags) = match allocate(cell_count, state_slots) {
            Some(storage) => storage,
            None => return Err(FastStateMachineBuildError::TransitionTableCapacityExceeded { state_count, event_count }),
        };
        let ghost terminals = self@.terminal_states;
        proof {
            lemma_terminals_in_range(terminals, state_count);
        }
        let mut i: usize = 0;
        while i < self.terminal_states.len()
            invariant
                terminals == self@.terminal_states,
                i <= terminals.len(),
                state_count <= usize::MAX,
                terminal_flags@.len() == state_count,
                forall|j: int| 0 <= j < terminals.len() ==> #[trigger] terminals[j] < state_count,
                forall|x: int|
                    0 <= x < state_count ==> (#[trigger] terminal_flags@[x] <==> exists|j: int|
                        0 <= j < i && #[trigger] terminals[j] == x as u64),
            decreases terminals.len() - i,
        {
            let state = self.terminal_states[i];
            let ghost old_flags = terminal_flags@;
            terminal_flags.set(state as usize, true);
            proof {
                assert forall|x: int| 0 <= x < state_count implies (#[trigger] terminal_flags@[x]
                    <==> exists|j: int| 0 <= j < i + 1 && #[trigger] terminals[j] == x as u64) by {
                    if x == state as int {
                        assert(terminals[i as int] == x as u64);
                    } else {
                        assert(terminal_flags@[x] == old_flags[x]);
                        if old_flags[x] {
                            let j = choose|j: int| 0 <= j < i && #[trigger] terminals[j] == x as u64;
                            assert(0 <= j < i + 1 && terminals[j] == x as u64);
                        }
                        if exists|j: int| 0 <= j < i + 1 && #[trigger] terminals[j] == x as u64 {
                            let j = choose|j: int| 0 <= j < i + 1 && #[trigger] terminals[j] == x as u64;
                            assert(j != i);
                            assert(old_flags[x]);
                        }
                    }
                }
            }
            i = i + 1;
        }
        let ghost defs = self@.transitions;
        proof {
            lemma_valid_definitions(defs, state_count, event_count, terminals);
            assert(defs.take(0) =~= Seq::<(u64, u64, u64)>::empty());
            assert forall|s: int, e: int| #![trigger cell_index(event_count as int, s, e)]
                0 <= s < state_count && 0 <= e < event_count implies transitions@[cell_index(
                    event_count as int,
                    s,
                    e,
                )] == UNSET_TRANSITION by {
                lemma_cell_index(state_count as int, event_count as int, s, e);
            }
        }
        let mut transition_count: usize = 0;
        let mut i: usize = 0;
        while i < self.transitions.len()
            invariant
                defs == self@.transitions,
                terminals == self@.terminal_states,
                i <= defs.len(),
                cells == state_count * event_count,
                transitions@.len() == cells,
                cells <= usize::MAX,
                0 < state_count,
                0 < event_count,
                transition_count <= i,
                forall|j: int|
                    0 <= j < defs.len() ==> (#[trigger] defs[j]).0 < state_count && defs[j].1 < event_count
                        && defs[j].2 < state_count && !terminals.contains(defs[j].0),
                forall|j: int|
                    0 <= j < transitions@.len() ==> #[trigger] transitions@[j] == UNSET_TRANSITION
                        || transitions@[j] < state_count,
                transition_table(defs.take(i as int)).dom().finite(),
                transition_count == transition_table(defs.take(i as int)).dom().len(),
                forall|key: (u64, u64)| #[trigger]
                    transition_table(defs.take(i as int)).contains_key(key) ==> transition_table(
                        defs.take(i as int),
                    )[key] < state_count && key.0 < state_count && key.1 < event_count,
                forall|s: int, e: int| #![trigger cell_index(event_count as int, s, e)]
                    0 <= s < state_count && 0 <= e < event_count ==> transitions@[cell_index(
                        event_count as int,
                        s,
                        e,
                    )] == (if transition_table(defs.take(i as int)).contains_key((s as u64, e as u64)) {
                        transition_table(defs.take(i as int))[(s as u64, e as u64)]
                    } else {
                        UNSET_TRANSITION
                    }),
            decreases defs.len() - i,
        {
            let (source, event, target) = self.transitions[i];
            let ghost table = transition_table(defs.take(i as int));
            proof {
                lemma_transition_table_take_succ(defs, i as int);
                lemma_cell_index(state_count as int, event_count as int, source as int, event as int);
                assert(source * event_count <= source * event_count + event);
            }
            let index = (source * event_count + event) as usize;
            assert(index as int == cell_index(event_count as int, source as int, event as int));
            let was_unset = transitions[index] == UNSET_TRANSITION;
            if was_unset {
                transition_count = transition_count + 1;
            }
            let ghost old_cells = transitions@;
            transitions.set(index, target);
            proof {
                let next = transition_table(defs.take(i + 1));
                assert(defs[i as int] == (source, event, target));
                assert(definition_key(defs[i as int]) == (source, event));
                assert(next == table.insert((source, event), target));
                assert(old_cells[cell_index(event_count as int, source as int, event as int)] == (if table.contains_key((source, event)) {
                    table[(source, event)]
                } else {
                    UNSET_TRANSITION
                }));
                if was_unset {
                    assert(!table.contains_key((source, event)));
                    assert(next.dom() =~= table.dom().insert((source, event)));
                } else {
                    assert(table.contains_key((source, event)));
                    assert(next.dom() =~= table.dom());
                }
                assert forall|s: int, e: int| #![trigger cell_index(event_count as int, s, e)]
                    0 <= s < state_count && 0 <= e < event_count implies transitions@[cell_index(
                        event_count as int,
                        s,
                        e,
                    )] == (if next.contains_key((s as u64, e as u64)) {
                        next[(s as u64, e as u64)]
                    } else {
                        UNSET_TRANSITION
                    }) by {
                    lemma_cell_index(state_count as int, event_count as int, s, e);
                    assert(old_cells[cell_index(event_count as int, s, e)] == (if table.contains_key((s as u64, e as u64)) {
                        table[(s as u64, e as u64)]
                    } else {
                        UNSET_TRANSITION
                    }));
                    if s != source as int || e != event as int {
                        assert((s as u64, e as u64) != (source, event));
                        assert(cell_index(event_count as int, s, e) != index as int);
                    }
                }
                assert forall|key: (u64, u64)| #[trigger] next.contains_key(key) implies next[key] < state_count
                    && key.0 < state_count && key.1 < event_count by {
                    if key != (source, event) {
                        assert(table.contains_key(key));
                    }
                }
            }
            i = i + 1;
        }
        proof {
            assert(defs.take(defs.len() as int) =~= defs);
            lemma_transition_table_domain(defs);
            let table = transition_table(defs);
            let model = table_model(state_count, event_count, initial_state, terminal_flags@, transitions@, self.cas_policy);
            assert(model.targets =~= table) by {
                assert forall|key: (u64, u64)| #[trigger] model.targets.contains_key(key) <==> table.contains_key(key) by {
                    if key.0 < state_count && key.1 < event_count {
                        assert(transitions@[cell_index(event_count as int, key.0 as int, key.1 as int)] == (if table.contains_key(key) {
                            table[key]
                        } else {
                            UNSET_TRANSITION
                        }));
                    }
                }
                assert forall|key: (u64, u64)| #[trigger] model.targets.contains_key(key) implies model.targets[key] == table[key] by {
                    assert(transitions@[cell_index(event_count as int, key.0 as int, key.1 as int)] == (if table.contains_key(key) {
                        table[key]
                    } else {
                        UNSET_TRANSITION
                    }));
                }
            }
            assert(model.terminal_states =~= terminals.to_set());
            assert forall|s: int, e: int| #![trigger cell_index(event_count as int, s, e)]
                0 <= s < state_count && 0 <= e < event_count && terminal_flags@[s] implies transitions@[cell_index(
                    event_count as int,
                    s,
                    e,
                )] == UNSET_TRANSITION by {
                assert(transitions@[cell_index(event_count as int, s, e)] == (if table.contains_key((s as u64, e as u64)) {
                    table[(s as u64, e as u64)]
                } else {
                    UNSET_TRANSITION
                }));
                if table.contains_key((s as u64, e as u64)) {
                    let j = choose|j: int| 0 <= j < defs.len() && definition_key(defs[j]) == (s as u64, e as u64);
                    assert(!terminals.contains(defs[j].0));
                    let t = choose|t: int| 0 <= t < terminals.len() && #[trigger] terminals[t] == s as u64;
                    assert(terminals.contains(s as u64));
                }
            }
        }
        Ok(FastStateMachine::from_parts(
            state_count,
            event_count,
            initial_state,
            terminal_flags,
            transitions,
            transition_count,
            self.cas_policy,
        ))
    }
}

/// Terminal states that pass validation are all in range.
proof fn lemma_terminals_in_range(terminals: Seq<u64>, state_count: u64)
    requires
        first_terminal_out_of_range(terminals, state_count) is None,
    ensures
        forall|j: int| 0 <= j < terminals.len() ==> #[trigger] terminals[j] < state_count,
    decreases terminals.len(),
{
    if terminals.len() > 0 {
        lemma_terminals_in_range(terminals.drop_last(), state_count);
        assert forall|j: int| 0 <= j < terminals.len() implies #[trigger] terminals[j] < state_count by {
            if j < terminals.len() - 1 {
                assert(terminals.drop_last()[j] == terminals[j]);
            }
        }
    }
}

/// Definitions that pass validation are all in range and leave no terminal
/// state.
proof fn lemma_valid_definitions(
    definitions: Seq<(u64, u64, u64)>,
    state_count: u64,
    event_count: u64,
    terminals: Seq<u64>,
)
    requires
        fast_transitions_error(definitions, state_count, event_count, terminals) is None,
    ensures
        forall|j: int|
            0 <= j < definitions.len() ==> (#[trigger] definitions[j]).0 < state_count && definitions[j].1
                < event_count && definitions[j].2 < state_count && !terminals.contains(definitions[j].0),
    decreases definitions.len(),
{
    if definitions.len() > 0 {
        lemma_valid_definitions(definitions.drop_last(), state_count, event_count, terminals);
        assert forall|j: int| 0 <= j < definitions.len() implies (#[trigger] definitions[j]).0 < state_count
            && definitions[j].1 < event_count && definitions[j].2 < state_count && !terminals.contains(
            definitions[j].0,
        ) by {
            if j < definitions.len() - 1 {
                assert(definitions.drop_last()[j] == definitions[j]);
            }
        }
    }
}

/// An error in a prefix of the terminal states is the first error of the
/// whole list.
proof fn lemma_first_out_of_range_prefix(terminals: Seq<u64>, state_count: u64, n: int)
    requires
        0 <= n <= terminals.len(),
        first_terminal_out_of_range(terminals.take(n), state_count) is Some,
    ensures
        first_terminal_out_of_range(terminals, state_count) == first_terminal_out_of_range(
            terminals.take(n),
            state_count,
        ),
    decreases terminals.len() - n,
{
    if n < terminals.len() {
        assert(terminals.take(n + 1).drop_last() =~= terminals.take(n));
        lemma_first_out_of_range_prefix(terminals, state_count, n + 1);
    } else {
        assert(terminals.take(n) =~= terminals);
    }
}

/// An error in a prefix of the definitions is the first error of the whole
/// list.
proof fn lemma_fast_error_prefix(
    definitions: Seq<(u64, u64, u64)>,
    state_count: u64,
    event_count: u64,
    terminals: Seq<u64>,
    n: int,
)
    requires
        0 <= n <= definitions.len(),
        fast_transitions_error(definitions.take(n), state_count, event_count, terminals) is Some,
    ensures
        fast_transitions_error(definitions, state_count, event_count, terminals)
            == fast_transitions_error(definitions.take(n), state_count, event_count, terminals),
    decreases definitions.len() - n,
{
    if n < definitions.len() {
        assert(definitions.take(n + 1).drop_last() =~= definitions.take(n));
        lemma_fast_error_prefix(definitions, state_count, event_count, terminals, n + 1);
    } else {
        assert(definitions.take(n) =~= definitions);
    }
}

/// Definitions that pass validation map each definition's pair to that
/// definition's own target: repeated pairs always repeat the same target.
proof fn lemma_valid_definitions_agree(
    definitions: Seq<(u64, u64, u64)>,
    state_count: u64,
    event_count: u64,
    terminals: Seq<u64>,
)
    requires
        fast_transitions_error(definitions, state_count, event_count, terminals) is None,
    ensures
        forall|j: int|
            0 <= j < definitions.len() ==> #[trigger] transition_table(definitions).contains_key(
                definition_key(definitions[j]),
            ) && transition_table(definitions)[definition_key(definitions[j])] == definitions[j].2,
    decreases definitions.len(),
{
    if definitions.len() > 0 {
        let prefix = definitions.drop_last();
        let last = definitions.last();
        lemma_valid_definitions_agree(prefix, state_count, event_count, terminals);
        assert(fast_transition_check(transition_table(prefix), last, state_count, event_count, terminals) is None);
        assert(transition_table(definitions) == transition_table(prefix).insert(definition_key(last), last.2));
        assert forall|j: int| 0 <= j < definitions.len() implies #[trigger] transition_table(definitions).contains_key(
            definition_key(definitions[j]),
        ) && transition_table(definitions)[definition_key(definitions[j])] == definitions[j].2 by {
            if j < definitions.len() - 1 {
                assert(prefix[j] == definitions[j]);
                assert(transition_table(prefix).contains_key(definition_key(prefix[j])));
                assert(transition_table(prefix)[definition_key(prefix[j])] == prefix[j].2);
            } else {
                assert(definitions[j] == last);
            }
        }
    }
}

/// Registering a transition again, with the same target, changes neither
/// the outcome of building nor, for rules that build, the resulting table.
pub proof fn lemma_repeated_transition_is_harmless(definition: FastDefinition, j: int)
    requires
        0 <= j < definition.transitions.len(),
    ensures
        fast_definition_error(
            FastDefinition { transitions: definition.transitions.push(definition.transitions[j]), ..definition },
        ) == fast_definition_error(definition),
        fast_definition_error(definition) is None ==> transition_table(
            definition.transitions.push(definition.transitions[j]),
        ) == transition_table(definition.transitions),
{
    let defs = definition.transitions;
    let again = defs.push(defs[j]);
    assert(again.drop_last() =~= defs);
    assert(again.last() == defs[j]);
    if definition.state_count is Some && definition.event_count is Some {
        let state_count = definition.state_count.unwrap();
        let event_count = definition.event_count.unwrap();
        let terminals = definition.terminal_states;
        if fast_transitions_error(defs, state_count, event_count, terminals) is None {
            lemma_valid_definitions_agree(defs, state_count, event_count, terminals);
            lemma_valid_definitions(defs, state_count, event_count, terminals);
            let t = defs[j];
            assert(transition_table(defs).contains_key(definition_key(defs[j])));
            assert(transition_table(defs)[definition_key(defs[j])] == t.2);
            assert(t.0 < state_count && t.1 < event_count && t.2 < state_count && !terminals.contains(t.0));
            assert(fast_transition_check(transition_table(defs), t, state_count, event_count, terminals) is None);
            assert(fast_transitions_error(again, state_count, event_count, terminals) is None);
            assert(transition_table(again) =~= transition_table(defs));
        }
    }
}

} // verus!
