//! Integer-coded state machine over a dense, row-major transition table.
use qubit_fast_cas::FastCasPolicy;
use qubit_fast_cas::FastCasState;
use vstd::prelude::*;

use super::fast_state_machine_error::fast_state_machine_error_from_fast_cas_error;
use super::FastStateMachineBuilder;
use super::FastStateMachineError;
use super::FastStateMachineResult;
use crate::cas::fast_cas_transition;
use crate::diagnostics::analyze_graph;
use crate::diagnostics::backward_step;
use crate::diagnostics::forward_step;
use crate::diagnostics::index_set;
use crate::diagnostics::lemma_nodes_where_below;
use crate::diagnostics::nodes_where;
use crate::diagnostics::reachable;
use crate::diagnostics::reverse;
use crate::GraphDiagnostics;
use crate::Transition;

verus! {

/// Sentinel stored in table cells without a configured transition.
pub const UNSET_TRANSITION: u64 = 0xffff_ffff_ffff_ffff;

/// Position of the `(source, event)` cell in a row-major table whose rows
/// hold `event_count` cells.
pub open spec fn cell_index(event_count: int, source: int, event: int) -> int {
    source * event_count + event
}

/// Distinct in-range `(source, event)` pairs occupy distinct cells below
/// `state_count * event_count`.
pub proof fn lemma_cell_index(state_count: int, event_count: int, source: int, event: int)
    requires
        0 <= source < state_count,
        0 <= event < event_count,
    ensures
        0 <= cell_index(event_count, source, event) < state_count * event_count,
        forall|s2: int, e2: int|
            0 <= s2 < state_count && 0 <= e2 < event_count && #[trigger] cell_index(
                event_count,
                s2,
                e2,
            ) == cell_index(event_count, source, event) ==> s2 == source && e2 == event,
{
    assert(0 <= source * event_count + event < state_count * event_count) by (nonlinear_arith)
        requires
            0 <= source < state_count,
            0 <= event < event_count,
    ;
    assert forall|s2: int, e2: int|
        0 <= s2 < state_count && 0 <= e2 < event_count && #[trigger] cell_index(event_count, s2, e2)
            == cell_index(event_count, source, event) implies s2 == source && e2 == event by {
        assert(s2 == source && e2 == event) by (nonlinear_arith)
            requires
                0 <= s2,
                0 <= source,
                0 <= e2 < event_count,
                0 <= event < event_count,
                s2 * event_count + e2 == source * event_count + event,
        ;
    }
}

/// A table of `state_count * event_count` cells that fits in memory has no
/// more rows than `usize` can count.
proof fn lemma_state_count_fits(state_count: u64, event_count: u64)
    requires
        0 < event_count,
        state_count * event_count <= usize::MAX,
    ensures
        state_count <= usize::MAX,
{
    assert(state_count <= state_count * event_count) by (nonlinear_arith)
        requires
            0 < event_count,
    ;
}

/// The mathematical model of a fast state machine.
pub struct FastTable {
    /// Number of valid state codes: states are `0..state_count`.
    pub state_count: u64,
    /// Number of valid event codes: events are `0..event_count`.
    pub event_count: u64,
    /// The unique initial state.
    pub initial_state: u64,
    /// The terminal states.
    pub terminal_states: Set<u64>,
    /// The configured target of each `(source, event)` pair.
    pub targets: Map<(u64, u64), u64>,
    /// The compare-and-swap retry policy.
    pub cas_policy: FastCasPolicy,
}

impl FastTable {
    /// Every validated table: positive code spaces, in-range markers and
    /// transitions, and no transition leaving a terminal state.
    pub open spec fn valid(self) -> bool {
        &&& 0 < self.state_count
        &&& 0 < self.event_count
        &&& self.initial_state < self.state_count
        &&& forall|s: u64| #[trigger] self.terminal_states.contains(s) ==> s < self.state_count
        &&& self.targets.dom().finite()
        &&& forall|key: (u64, u64)| #[trigger]
            self.targets.contains_key(key) ==> {
                &&& key.0 < self.state_count
                &&& key.1 < self.event_count
                &&& self.targets[key] < self.state_count
                &&& !self.terminal_states.contains(key.0)
            }
    }

    /// The configured target of `(source, event)`, if any.
    pub open spec fn target(self, source: u64, event: u64) -> Option<u64> {
        if self.targets.contains_key((source, event)) {
            Some(self.targets[(source, event)])
        } else {
            None
        }
    }

    /// The outcome of applying `event` to a cell that holds `state`: the
    /// target, or the error that rejects the event.
    pub open spec fn next_state(self, state: u64, event: u64) -> Result<u64, FastStateMachineError> {
        if state >= self.state_count {
            Err(FastStateMachineError::UnknownState { state })
        } else {
            match self.target(state, event) {
                Some(target) => Ok(target),
                None => Err(FastStateMachineError::UnknownTransition { source_state: state, event }),
            }
        }
    }

    /// The edges of the transition graph, as a set of `(source, target)` pairs.
    pub open spec fn edge(self, source: int, target: int) -> bool {
        exists|event: u64|
            #[trigger] self.targets.contains_key((source as u64, event)) && 0 <= source <= u64::MAX
                && self.targets[(source as u64, event)] as int == target
    }

    /// The terminal states as a set of integers.
    pub open spec fn terminal_set(self) -> Set<int> {
        Set::new(|v: int| 0 <= v < self.state_count && self.terminal_states.contains(v as u64))
    }
}

/// `try_trigger` reports exactly whether a run of `trigger` on the same
/// machine, cell and event committed: every commit counts, a
/// self-transition that leaves the state unchanged included, and a report
/// of a commit means some state has a target under the event.
pub proof fn lemma_try_trigger_reports_commits(machine: FastStateMachine, state: FastCasState, event: u64, committed: bool)
    requires
        call_ensures(FastStateMachine::try_trigger, (&machine, &state, event), committed),
    ensures
        exists|result: FastStateMachineResult|
            #[trigger] call_ensures(FastStateMachine::trigger, (&machine, &state, event), result) && (committed
                <==> result is Ok),
        committed ==> exists|previous: u64, next: u64|
            machine@.next_state(previous, event) == Ok::<u64, FastStateMachineError>(next),
{
}

/// A created cell starts at the machine's initial state: it is a cell that
/// `CasCell::new` makes for that state, whatever the other states are.
pub proof fn lemma_created_cell_holds_initial_state(machine: FastStateMachine, cell: FastCasState)
    requires
        call_ensures(FastStateMachine::create_state, (&machine,), cell),
    ensures
        call_ensures(FastCasState::new, (machine@.initial_state,), cell),
{
}

/// A terminal state of a valid table rejects every event as an unknown
/// transition: terminal states have no outgoing transitions.
pub proof fn lemma_terminal_state_rejects_every_event(table: FastTable, state: u64, event: u64)
    requires
        table.valid(),
        table.terminal_states.contains(state),
    ensures
        table.next_state(state, event) == Err::<u64, FastStateMachineError>(
            FastStateMachineError::UnknownTransition { source_state: state, event },
        ),
{
    if table.targets.contains_key((state, event)) {
        assert(!table.terminal_states.contains((state, event).0));
    }
}

/// A compact, high-throughput state machine with integer state and event codes.
///
/// States are `0..state_count` and events `0..event_count`; a transition is
/// found with one table lookup at `source * event_count + event`.
#[derive(Debug)]
pub struct FastStateMachine {
    /// Number of valid state codes.
    pub(crate) state_count: u64,
    /// Number of valid event codes.
    pub(crate) event_count: u64,
    /// The unique initial state.
    pub(crate) initial_state: u64,
    /// Terminal flag of each state code.
    pub(crate) terminal_flags: Vec<bool>,
    /// Row-major transition targets, [`UNSET_TRANSITION`] for empty cells.
    pub(crate) transitions: Vec<u64>,
    /// Number of configured `(source, event)` pairs.
    pub(crate) transition_count: usize,
    /// Retry policy of the compare-and-swap engine.
    pub(crate) cas_policy: FastCasPolicy,
}

/// The model of a machine given by its parts: the code counts, the initial
/// state, the terminal flag of each state and the row-major table cells.
pub open spec fn table_model(
    state_count: u64,
    event_count: u64,
    initial_state: u64,
    terminal_flags: Seq<bool>,
    cells: Seq<u64>,
    cas_policy: FastCasPolicy,
) -> FastTable {
    FastTable {
        state_count,
        event_count,
        initial_state,
        terminal_states: Set::new(|s: u64| s < state_count && terminal_flags[s as int]),
        targets: Map::new(
            |key: (u64, u64)|
                key.0 < state_count && key.1 < event_count && cells[cell_index(
                    event_count as int,
                    key.0 as int,
                    key.1 as int,
                )] != UNSET_TRANSITION,
            |key: (u64, u64)| cells[cell_index(event_count as int, key.0 as int, key.1 as int)],
        ),
        cas_policy,
    }
}

/// The parts form a dense table: positive counts, a table that fits in
/// memory, in-range cells and markers, and empty rows for terminal states.
pub open spec fn parts_well_formed(
    state_count: u64,
    event_count: u64,
    initial_state: u64,
    terminal_flags: Seq<bool>,
    cells: Seq<u64>,
) -> bool {
    &&& 0 < state_count
    &&& 0 < event_count
    &&& state_count * event_count <= usize::MAX
    &&& initial_state < state_count
    &&& terminal_flags.len() == state_count
    &&& cells.len() == state_count * event_count
    &&& forall|k: int|
        0 <= k < cells.len() ==> #[trigger] cells[k] == UNSET_TRANSITION || cells[k] < state_count
    &&& forall|s: int, e: int| #![trigger cell_index(event_count as int, s, e)]
        0 <= s < state_count && 0 <= e < event_count && terminal_flags[s] ==> cells[cell_index(
            event_count as int,
            s,
            e,
        )] == UNSET_TRANSITION
}

impl View for FastStateMachine {
    type V = FastTable;

    closed spec fn view(&self) -> FastTable {
        table_model(
            self.state_count,
            self.event_count,
            self.initial_state,
            self.terminal_flags@,
            self.transitions@,
            self.cas_policy,
        )
    }
}

impl Clone for FastStateMachine {
    /// Copies the rules; the copy has the same model.
    fn clone(&self) -> (r: Self)
        ensures
            r@ == self@,
    {
        proof {
            use_type_invariant(self);
        }
        let terminal_flags = self.terminal_flags.clone();
        let transitions = self.transitions.clone();
        proof {
            assert(terminal_flags@ =~= self.terminal_flags@);
            assert(transitions@ =~= self.transitions@);
        }
        FastStateMachine {
            state_count: self.state_count,
            event_count: self.event_count,
            initial_state: self.initial_state,
            terminal_flags,
            transitions,
            transition_count: self.transition_count,
            cas_policy: self.cas_policy,
        }
    }
}

impl FastStateMachine {
    /// The table is dense, in range, and agrees with its counters.
    #[verifier::type_invariant]
    closed spec fn well_formed(self) -> bool {
        &&& parts_well_formed(
            self.state_count,
            self.event_count,
            self.initial_state,
            self.terminal_flags@,
            self.transitions@,
        )
        &&& self.transition_count == self@.targets.dom().len()
        &&& self@.targets.dom().finite()
    }

    /// Assembles a machine from validated parts.
    pub(crate) fn from_parts(
        state_count: u64,
        event_count: u64,
        initial_state: u64,
        terminal_flags: Vec<bool>,
        transitions: Vec<u64>,
        transition_count: usize,
        cas_policy: FastCasPolicy,
    ) -> (m: Self)
        requires
            parts_well_formed(state_count, event_count, initial_state, terminal_flags@, transitions@),
            table_model(state_count, event_count, initial_state, terminal_flags@, transitions@, cas_policy).targets.dom().finite(),
            transition_count == table_model(state_count, event_count, initial_state, terminal_flags@, transitions@, cas_policy).targets.dom().len(),
        ensures
            m@ == table_model(state_count, event_count, initial_state, terminal_flags@, transitions@, cas_policy),
            m@.valid(),
    {
        let m = FastStateMachine {
            state_count,
            event_count,
            initial_state,
            terminal_flags,
            transitions,
            transition_count,
            cas_policy,
        };
        proof {
            m.lemma_valid();
        }
        m
    }

    /// A well-formed machine has a valid model.
    proof fn lemma_valid(self)
        requires
            parts_well_formed(
                self.state_count,
                self.event_count,
                self.initial_state,
                self.terminal_flags@,
                self.transitions@,
            ),
            self@.targets.dom().finite(),
        ensures
            self@.valid(),
    {
        let table = self@;
        assert forall|key: (u64, u64)| #[trigger] table.targets.contains_key(key) implies {
            &&& key.0 < table.state_count
            &&& key.1 < table.event_count
            &&& table.targets[key] < table.state_count
            &&& !table.terminal_states.contains(key.0)
        } by {
            lemma_cell_index(self.state_count as int, self.event_count as int, key.0 as int, key.1 as int);
            if self.terminal_flags@[key.0 as int] {
                assert(self.transitions@[cell_index(self.event_count as int, key.0 as int, key.1 as int)] == UNSET_TRANSITION);
            }
        }
    }
}

impl FastStateMachine {
    /// Creates a builder used to configure counts, markers, transitions and
    /// the CAS policy.
    pub fn builder() -> (b: FastStateMachineBuilder)
        ensures
            b@.state_count is None,
            b@.event_count is None,
            b@.initial_state is None,
            b@.terminal_states == Seq::<u64>::empty(),
            b@.transitions == Seq::<(u64, u64, u64)>::empty(),
            b@.max_table_cells is None,
    {
        FastStateMachineBuilder::new()
    }

    /// Returns the number of state codes.
    pub fn state_count(&self) -> (r: u64)
        ensures
            r == self@.state_count,
    {
        self.state_count
    }

    /// Returns the number of event codes.
    pub fn event_count(&self) -> (r: u64)
        ensures
            r == self@.event_count,
    {
        self.event_count
    }

    /// Returns the unique initial state.
    pub fn initial_state(&self) -> (r: u64)
        ensures
            r == self@.initial_state,
    {
        self.initial_state
    }

    /// Returns the number of configured `(source, event)` pairs.
    pub fn transition_count(&self) -> (r: usize)
        ensures
            r == self@.targets.dom().len(),
    {
        proof {
            use_type_invariant(self);
        }
        self.transition_count
    }

    /// Returns the compare-and-swap retry policy of this machine.
    pub fn cas_policy(&self) -> (r: FastCasPolicy)
        ensures
            r == self@.cas_policy,
    {
        self.cas_policy
    }

    /// Tests whether `state` is a valid state code.
    pub fn contains_state(&self, state: u64) -> (r: bool)
        ensures
            r == (state < self@.state_count),
    {
        state < self.state_count
    }

    /// Tests whether `state` is the initial state.
    pub fn is_initial_state(&self, state: u64) -> (r: bool)
        ensures
            r == (state == self@.initial_state),
    {
        state == self.initial_state
    }

    /// Tests whether `state` is a terminal state.
    pub fn is_terminal_state(&self, state: u64) -> (r: bool)
        ensures
            r == self@.terminal_states.contains(state),
    {
        proof {
            use_type_invariant(self);
            lemma_state_count_fits(self.state_count, self.event_count);
        }
        state < self.state_count && self.terminal_flags[state as usize]
    }

    /// Returns the terminal states in increasing order.
    pub fn terminal_states(&self) -> (r: Vec<u64>)
        ensures
            forall|i: int, j: int| 0 <= i < j < r@.len() ==> r@[i] < r@[j],
            forall|s: u64| #[trigger] r@.contains(s) <==> self@.terminal_states.contains(s),
    {
        proof {
            use_type_invariant(self);
            lemma_state_count_fits(self.state_count, self.event_count);
        }
        let mut r: Vec<u64> = Vec::new();
        let mut s: u64 = 0;
        while s < self.state_count
            invariant
                s <= self.state_count,
                self.state_count <= usize::MAX,
                self.terminal_flags@.len() == self.state_count,
                forall|i: int, j: int| 0 <= i < j < r@.len() ==> r@[i] < r@[j],
                forall|i: int| 0 <= i < r@.len() ==> r@[i] < s,
                forall|x: u64| #[trigger] r@.contains(x) <==> (x < s && self.terminal_flags@[x as int]),
            decreases self.state_count - s,
        {
            if self.terminal_flags[s as usize] {
                let ghost prev = r@;
                r.push(s);
                proof {
                    assert forall|x: u64| #[trigger] r@.contains(x) <==> (x < s + 1 && self.terminal_flags@[x as int]) by {
                        if x == s {
                            assert(r@[r@.len() - 1] == s);
                        } else if r@.contains(x) {
                            let k = choose|k: int| 0 <= k < r@.len() && r@[k] == x;
                            assert(k < prev.len());
                            assert(prev[k] == x);
                            assert(prev.contains(x));
                        } else if x < s && self.terminal_flags@[x as int] {
                            assert(prev.contains(x));
                            let k = choose|k: int| 0 <= k < prev.len() && prev[k] == x;
                            assert(r@[k] == x);
                        }
                    }
                }
            }
            s = s + 1;
        }
        r
    }

    /// Returns the configured transitions, ordered by source, then event.
    pub fn transitions(&self) -> (r: Vec<Transition<u64, u64>>)
        ensures
            forall|i: int| #![trigger r@[i]]
                0 <= i < r@.len() ==> self@.target(r@[i]@.0, r@[i]@.1) == Some(r@[i]@.2),
            forall|key: (u64, u64)| #[trigger]
                self@.targets.contains_key(key) ==> exists|i: int|
                    0 <= i < r@.len() && r@[i]@ == (key.0, key.1, self@.targets[key]),
            forall|i: int, j: int|
                0 <= i < j < r@.len() ==> (r@[i]@.0 < r@[j]@.0 || (r@[i]@.0 == r@[j]@.0 && r@[i]@.1 < r@[j]@.1)),
    {
        proof {
            use_type_invariant(self);
        }
        let ec = self.event_count;
        let mut r: Vec<Transition<u64, u64>> = Vec::new();
        let mut source: u64 = 0;
        while source < self.state_count
            invariant
                source <= self.state_count,
                ec == self.event_count,
                parts_well_formed(self.state_count, self.event_count, self.initial_state, self.terminal_flags@, self.transitions@),
                forall|i: int| #![trigger r@[i]]
                    0 <= i < r@.len() ==> self@.target(r@[i]@.0, r@[i]@.1) == Some(r@[i]@.2) && r@[i]@.0 < source,
                forall|key: (u64, u64)| #[trigger]
                    self@.targets.contains_key(key) && key.0 < source ==> exists|i: int|
                        0 <= i < r@.len() && r@[i]@ == (key.0, key.1, self@.targets[key]),
                forall|i: int, j: int|
                    0 <= i < j < r@.len() ==> (r@[i]@.0 < r@[j]@.0 || (r@[i]@.0 == r@[j]@.0 && r@[i]@.1 < r@[j]@.1)),
            decreases self.state_count - source,
        {
            let mut event: u64 = 0;
            let ghost row_start = r@.len();
            while event < ec
                invariant
                    source < self.state_count,
                    event <= ec,
                    ec == self.event_count,
                    row_start <= r@.len(),
                    parts_well_formed(self.state_count, self.event_count, self.initial_state, self.terminal_flags@, self.transitions@),
                    forall|i: int| #![trigger r@[i]]
                        0 <= i < r@.len() ==> self@.target(r@[i]@.0, r@[i]@.1) == Some(r@[i]@.2) && (r@[i]@.0 < source
                            || (r@[i]@.0 == source && r@[i]@.1 < event)),
                    forall|i: int| #![trigger r@[i]] 0 <= i < row_start ==> r@[i]@.0 < source,
                    forall|key: (u64, u64)| #[trigger]
                        self@.targets.contains_key(key) && (key.0 < source || (key.0 == source && key.1 < event))
                            ==> exists|i: int| 0 <= i < r@.len() && r@[i]@ == (key.0, key.1, self@.targets[key]),
                    forall|i: int, j: int|
                        0 <= i < j < r@.len() ==> (r@[i]@.0 < r@[j]@.0 || (r@[i]@.0 == r@[j]@.0 && r@[i]@.1 < r@[j]@.1)),
                decreases ec - event,
            {
                proof {
                    lemma_cell_index(self.state_count as int, ec as int, source as int, event as int);
                    assert(source * ec <= source * ec + event);
                }
                let index = (source * ec + event) as usize;
                let target = self.transitions[index];
                if target != UNSET_TRANSITION {
                    let ghost prev = r@;
                    r.push(Transition::new(source, event, target));
                    proof {
                        assert(self@.targets.contains_key((source, event)));
                        assert forall|key: (u64, u64)| #[trigger]
                            self@.targets.contains_key(key) && (key.0 < source || (key.0 == source && key.1 < event + 1))
                                implies exists|i: int| 0 <= i < r@.len() && r@[i]@ == (key.0, key.1, self@.targets[key]) by {
                            if key == (source, event) {
                                assert(r@[r@.len() - 1]@ == (key.0, key.1, self@.targets[key]));
                            } else {
                                let i = choose|i: int| 0 <= i < prev.len() && prev[i]@ == (key.0, key.1, self@.targets[key]);
                                assert(r@[i] == prev[i]);
                            }
                        }
                    }
                } else {
                    proof {
                        assert(!self@.targets.contains_key((source, event)));
                    }
                }
                event = event + 1;
            }
            source = source + 1;
        }
        r
    }

    /// Looks up the configured target of `(source, event)`.
    pub fn transition_target(&self, source: u64, event: u64) -> (r: Option<u64>)
        ensures
            r == self@.target(source, event),
    {
        proof {
            use_type_invariant(self);
        }
        if source >= self.state_count || event >= self.event_count {
            return None;
        }
        proof {
            lemma_cell_index(self.state_count as int, self.event_count as int, source as int, event as int);
            assert(source * self.event_count <= source * self.event_count + event);
        }
        let target = self.transitions[(source * self.event_count + event) as usize];
        if target == UNSET_TRANSITION {
            None
        } else {
            Some(target)
        }
    }

    /// The decision of one compare-and-swap attempt on an observed state:
    /// the target twice (new state and reported output), or the rejection.
    pub(crate) fn cas_step(&self, current: u64, event: u64) -> (r: Result<(u64, u64), FastStateMachineError>)
        ensures
            r == (match self@.next_state(current, event) {
                Ok(target) => Ok((target, target)),
                Err(error) => Err(error),
            }),
    {
        if current >= self.state_count {
            return Err(FastStateMachineError::UnknownState { state: current });
        }
        match self.transition_target(current, event) {
            Some(target) => Ok((target, target)),
            None => Err(FastStateMachineError::UnknownTransition { source_state: current, event }),
        }
    }

    /// Applies `event` to `state` through the compare-and-swap engine.
    fn change_state(&self, state: &FastCasState, event: u64) -> (r: Result<(u64, u64), FastStateMachineError>)
        ensures
            r matches Ok((previous, next)) ==> self@.next_state(previous, event) == Ok::<u64, FastStateMachineError>(next),
            r matches Err(error) ==> error is CasConflict || exists|observed: u64|
                self@.next_state(observed, event) == Err::<u64, FastStateMachineError>(error),
    {
        match fast_cas_transition(self, state, event) {
            Ok(change) => Ok(change),
            Err(failure) => Err(fast_state_machine_error_from_fast_cas_error(failure)),
        }
    }

    /// Creates an independent state cell holding the initial state.
    pub fn create_state(&self) -> (r: FastCasState)
        ensures
            call_ensures(FastCasState::new, (self@.initial_state,), r),
    {
        let new_cell = FastCasState::new;
        new_cell(self.initial_state)
    }

    /// Applies `event` to the state held by `state`.
    ///
    /// The event is resolved against the state the cell holds when the
    /// update commits: a success installs and returns the target of some
    /// state under `event`; a rejection reports why that state has no
    /// target; `CasConflict` reports that every allowed attempt lost its
    /// race.
    pub fn trigger(&self, state: &FastCasState, event: u64) -> (r: FastStateMachineResult)
        ensures
            r matches Ok(next) ==> exists|previous: u64|
                self@.next_state(previous, event) == Ok::<u64, FastStateMachineError>(next),
            r matches Err(error) ==> error is CasConflict || exists|observed: u64|
                self@.next_state(observed, event) == Err::<u64, FastStateMachineError>(error),
    {
        match self.change_state(state, event) {
            Ok((_previous, next)) => Ok(next),
            Err(error) => Err(error),
        }
    }

    /// Applies `event` like [`Self::trigger`] and, after a committed update,
    /// calls `on_success(previous, next)` once.
    pub fn trigger_with<F>(&self, state: &FastCasState, event: u64, on_success: F) -> (r: FastStateMachineResult)
        where
            F: FnOnce(u64, u64),
        requires
            forall|previous: u64, next: u64| call_requires(on_success, (previous, next)),
        ensures
            r matches Ok(next) ==> exists|previous: u64|
                self@.next_state(previous, event) == Ok::<u64, FastStateMachineError>(next)
                    && call_ensures(on_success, (previous, next), ()),
            r matches Err(error) ==> error is CasConflict || exists|observed: u64|
                self@.next_state(observed, event) == Err::<u64, FastStateMachineError>(error),
    {
        match self.change_state(state, event) {
            Ok((previous, next)) => {
                on_success(previous, next);
                Ok(next)
            },
            Err(error) => Err(error),
        }
    }

    /// Applies `event` and reports only whether an update committed.
    pub fn try_trigger(&self, state: &FastCasState, event: u64) -> (r: bool)
        ensures
            r ==> exists|previous: u64, next: u64|
                self@.next_state(previous, event) == Ok::<u64, FastStateMachineError>(next),
            exists|result: FastStateMachineResult|
                #[trigger] call_ensures(FastStateMachine::trigger, (self, state, event), result) && r == result is Ok,
    {
        let trigger = FastStateMachine::trigger;
        match trigger(self, state, event) {
            Ok(_) => true,
            Err(_) => false,
        }
    }

    /// Applies `event` with a success callback and reports only whether an
    /// update committed; the callback runs only when it did.
    pub fn try_trigger_with<F>(&self, state: &FastCasState, event: u64, on_success: F) -> (r: bool)
        where
            F: FnOnce(u64, u64),
        requires
            forall|previous: u64, next: u64| call_requires(on_success, (previous, next)),
        ensures
            r ==> exists|previous: u64, next: u64|
                self@.next_state(previous, event) == Ok::<u64, FastStateMachineError>(next)
                    && call_ensures(on_success, (previous, next), ()),
            exists|result: FastStateMachineResult|
                #[trigger] call_ensures(FastStateMachine::trigger_with::<F>, (self, state, event, on_success), result)
                    && r == result is Ok,
    {
        let trigger_with = FastStateMachine::trigger_with::<F>;
        match trigger_with(self, state, event, on_success) {
            Ok(_) => true,
            Err(_) => false,
        }
    }
}

/// Converts node indices to state codes.
fn codes_of(nodes: Vec<usize>) -> (r: Vec<u64>)
    requires
        forall|i: int| 0 <= i < nodes@.len() ==> #[trigger] nodes@[i] <= u64::MAX,
    ensures
        r@ == nodes@.map_values(|v: usize| v as u64),
{
    let mut r: Vec<u64> = Vec::new();
    let mut i: usize = 0;
    while i < nodes.len()
        invariant
            i <= nodes@.len(),
            forall|k: int| 0 <= k < nodes@.len() ==> #[trigger] nodes@[k] <= u64::MAX,
            r@ == nodes@.take(i as int).map_values(|v: usize| v as u64),
        decreases nodes@.len() - i,
    {
        r.push(nodes[i] as u64);
        proof {
            assert(nodes@.take(i + 1).map_values(|v: usize| v as u64) =~= nodes@.take(i as int).map_values(
                |v: usize| v as u64,
            ).push(nodes@[i as int] as u64));
        }
        i = i + 1;
    }
    proof {
        assert(nodes@.take(nodes@.len() as int) =~= nodes@);
    }
    r
}

impl FastStateMachine {
    /// Analyzes reachability: the states no path reaches from the initial
    /// state, and the states from which no path reaches a terminal state,
    /// each in increasing order.
    pub fn diagnose_graph(&self) -> (r: GraphDiagnostics<u64>)
        ensures
            r@.0 == nodes_where(
                self@.state_count as nat,
                |v: int| !reachable(|u: int, w: int| self@.edge(u, w), set![self@.initial_state as int], v),
            ).map_values(|v: usize| v as u64),
            r@.1 == nodes_where(
                self@.state_count as nat,
                |v: int| !reachable(reverse(|u: int, w: int| self@.edge(u, w)), self@.terminal_set(), v),
            ).map_values(|v: usize| v as u64),
    {
        proof {
            use_type_invariant(self);
            lemma_state_count_fits(self.state_count, self.event_count);
            self.lemma_valid();
        }
        let ghost table = self@;
        let transitions = self.transitions();
        let mut edges: Vec<(usize, usize)> = Vec::new();
        let mut i: usize = 0;
        while i < transitions.len()
            invariant
                table == self@,
                table.valid(),
                self.state_count <= usize::MAX,
                i <= transitions@.len(),
                edges@.len() == i,
                forall|k: int| #![trigger transitions@[k]]
                    0 <= k < transitions@.len() ==> table.target(transitions@[k]@.0, transitions@[k]@.1) == Some(
                        transitions@[k]@.2,
                    ),
                forall|k: int| #![trigger edges@[k]]
                    0 <= k < i ==> edges@[k].0 as int == transitions@[k]@.0 as int && edges@[k].1 as int
                        == transitions@[k]@.2 as int && edges@[k].0 < self.state_count && edges@[k].1 < self.state_count,
            decreases transitions@.len() - i,
        {
            let t = transitions[i];
            let source = t.source();
            let target = t.target();
            proof {
                assert(table.targets.contains_key((source, t@.1)));
            }
            edges.push((source as usize, target as usize));
            i = i + 1;
        }
        let terminal_codes = self.terminal_states();
        let mut terminals: Vec<usize> = Vec::new();
        let mut i: usize = 0;
        while i < terminal_codes.len()
            invariant
                table == self@,
                table.valid(),
                self.state_count <= usize::MAX,
                i <= terminal_codes@.len(),
                terminals@.len() == i,
                forall|s: u64| #[trigger] terminal_codes@.contains(s) <==> table.terminal_states.contains(s),
                forall|k: int| #![trigger terminals@[k]]
                    0 <= k < i ==> terminals@[k] as int == terminal_codes@[k] as int && terminals@[k] < self.state_count,
            decreases terminal_codes@.len() - i,
        {
            let code = terminal_codes[i];
            proof {
                assert(terminal_codes@.contains(code));
            }
            terminals.push(code as usize);
            i = i + 1;
        }
        let report = analyze_graph(self.state_count as usize, self.initial_state as usize, &terminals, &edges);
        proof {
            let step = |u: int, w: int| table.edge(u, w);
            assert(forward_step(edges@) =~= step) by {
                assert forall|u: int, w: int| #[trigger] forward_step(edges@)(u, w) == step(u, w) by {
                    if forward_step(edges@)(u, w) {
                        let j = choose|j: int| 0 <= j < edges@.len() && edges@[j].0 as int == u && edges@[j].1 as int == w;
                        assert(edges@[j].0 as int == transitions@[j]@.0 as int);
                        assert(table.targets.contains_key((u as u64, transitions@[j]@.1)));
                    }
                    if step(u, w) {
                        let event = choose|event: u64| #[trigger] table.targets.contains_key((u as u64, event)) && 0 <= u <= u64::MAX
                            && table.targets[(u as u64, event)] as int == w;
                        let k = choose|k: int| 0 <= k < transitions@.len() && transitions@[k]@ == (
                            (u as u64),
                            event,
                            table.targets[(u as u64, event)],
                        );
                        assert(edges@[k].0 as int == u && edges@[k].1 as int == w);
                    }
                }
            }
            assert(backward_step(edges@) =~= reverse(step)) by {
                assert forall|u: int, w: int| #[trigger] backward_step(edges@)(u, w) == reverse(step)(u, w) by {
                    assert(backward_step(edges@)(u, w) == forward_step(edges@)(w, u));
                }
            }
            assert(index_set(terminals@) =~= table.terminal_set()) by {
                assert forall|v: int| #[trigger] index_set(terminals@).contains(v) == table.terminal_set().contains(v) by {
                    if index_set(terminals@).contains(v) {
                        let j = choose|j: int| 0 <= j < terminals@.len() && terminals@[j] as int == v;
                        assert(terminal_codes@.contains(terminal_codes@[j]));
                    }
                    if table.terminal_set().contains(v) {
                        assert(terminal_codes@.contains(v as u64));
                        let j = choose|j: int| 0 <= j < terminal_codes@.len() && terminal_codes@[j] == v as u64;
                        assert(terminals@[j] as int == v);
                    }
                }
            }
        }
        let (unreachable, without_path) = report.into_parts();
        proof {
            lemma_nodes_where_below(self.state_count as nat, |v: int| !reachable(forward_step(edges@), set![self.initial_state as int], v));
            lemma_nodes_where_below(self.state_count as nat, |v: int| !reachable(backward_step(edges@), index_set(terminals@), v));
        }
        GraphDiagnostics::new(codes_of(unreachable), codes_of(without_path))
    }
}

} // verus!
