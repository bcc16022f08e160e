//! Bounded conformance harnesses: a byte string is decoded into a rule set,
//! each backend builds it, and the built machine is probed against the
//! rules.
use qubit_atomic::AtomicRef;
use qubit_fast_cas::FastCasState;
use vstd::prelude::*;

use crate::cas::load_state;
use crate::fast::fast_transitions_error;
use crate::standard::standard_transitions_error;
use crate::FastStateMachine;
use crate::FastTable;
use crate::StandardTable;
use crate::DenseCode;
use crate::fast::codebook;
use crate::fast::returns_code;
use crate::fast::value_code;
use vstd::cell::invcell::InvCell;
use vstd::predicate::Predicate;
use crate::FastStateMachineBuildError;
use crate::FastStateMachineError;
use crate::StateMachineError;
use crate::TypedFastStateMachine;
use crate::TypedFastStateMachineError;
use crate::standard::values::same_value;
use crate::table::transition_table;
use crate::standard::values::lemma_distinct_in_order;
use crate::StateMachine;
use crate::StateMachineBuildError;

verus! {

/// How far an input got through a conformance harness.
#[derive(Debug, Clone, Copy, PartialEq, Eq)]
pub enum BuilderOutcome {
    /// The input is outside the accepted length range.
    Skipped,
    /// The builder rejected the rules, as the reference model expects.
    Rejected,
    /// The rules built and every probe agreed with the reference model.
    Built {
        /// The number of `(state, event)` cells of the built table.
        checked_pairs: usize,
    },
    /// A runtime probe through the compare-and-swap engine disagreed with
    /// the reference model.
    Diverged,
}

/// Inputs of 2 to 512 bytes are decoded; others are skipped.
pub open spec fn input_in_range(data: Seq<u8>) -> bool {
    2 <= data.len() <= 512
}

/// The number of state codes an input declares: 1 to 16.
pub open spec fn input_state_count(data: Seq<u8>) -> u64 {
    (data[0] % 16 + 1) as u64
}

/// The number of event codes an input declares: 1 to 8.
pub open spec fn input_event_count(data: Seq<u8>) -> u64 {
    (data[1] % 8 + 1) as u64
}

/// The transitions an input declares: one per full byte triple after the
/// two count bytes, each code reduced into a range two wider than its
/// domain so that out-of-range codes occur.
pub open spec fn input_transitions(data: Seq<u8>) -> Seq<(u64, u64, u64)> {
    Seq::new(
        ((data.len() - 2) / 3) as nat,
        |k: int|
            (
                (data[2 + 3 * k] as int % (input_state_count(data) + 2)) as u64,
                (data[3 + 3 * k] as int % (input_event_count(data) + 2)) as u64,
                (data[4 + 3 * k] as int % (input_state_count(data) + 2)) as u64,
            ),
    )
}

/// The state codes `0..count`.
pub open spec fn code_range(count: u64) -> Seq<u64> {
    Seq::new(count as nat, |i: int| i as u64)
}

/// Decodes the counts and transitions of an in-range input.
fn decode_input(data: &[u8]) -> (r: (u64, u64, Vec<(u64, u64, u64)>))
    requires
        input_in_range(data@),
    ensures
        r.0 == input_state_count(data@),
        r.1 == input_event_count(data@),
        r.2@ == input_transitions(data@),
{
    let state_count = (data[0] % 16 + 1) as u64;
    let event_count = (data[1] % 8 + 1) as u64;
    let count = (data.len() - 2) / 3;
    let ghost decoded = input_transitions(data@);
    let mut transitions: Vec<(u64, u64, u64)> = Vec::new();
    let mut k: usize = 0;
    while k < count
        invariant
            input_in_range(data@),
            count == (data@.len() - 2) / 3,
            decoded == input_transitions(data@),
            state_count == input_state_count(data@),
            event_count == input_event_count(data@),
            k <= count,
            transitions@ == decoded.take(k as int),
        decreases count - k,
    {
        let base = 2 + 3 * k;
        let triple = (
            data[base] as u64 % (state_count + 2),
            data[base + 1] as u64 % (event_count + 2),
            data[base + 2] as u64 % (state_count + 2),
        );
        proof {
            assert(decoded[k as int] == triple);
            assert(decoded.take(k + 1) =~= decoded.take(k as int).push(triple));
        }
        transitions.push(triple);
        k = k + 1;
    }
    proof {
        assert(decoded.take(count as int) =~= decoded);
    }
    (state_count, event_count, transitions)
}

/// Whether a probe's outcome matches the reference model: a committed
/// target equal to the expected one, or a rejection where none is expected.
pub fn probe_agrees<E>(actual: Result<u64, E>, expected: Option<u64>) -> (r: bool)
    ensures
        r == (match (actual, expected) {
            (Ok(next), Some(target)) => next == target,
            (Err(_), None) => true,
            _ => false,
        }),
{
    match (actual, expected) {
        (Ok(next), Some(target)) => next == target,
        (Err(_), None) => true,
        _ => false,
    }
}

/// The target the reference model gives each probe: event `k` applied to
/// the initial state 0, for the events `0..event_count + 2`.
pub open spec fn probe_targets(data: Seq<u8>) -> Seq<Option<u64>> {
    Seq::new(
        (input_event_count(data) + 2) as nat,
        |k: int|
            if transition_table(input_transitions(data)).contains_key((0u64, k as u64)) {
                Some(transition_table(input_transitions(data))[(0u64, k as u64)])
            } else {
                None
            },
    )
}

/// A result that a fast machine with these targets and this many states
/// may give for `event` by its trigger contract: a target of some state
/// under `event`, a rejection of some observed state, or a conflict.
pub open spec fn fast_admits(
    targets: Map<(u64, u64), u64>,
    state_count: u64,
    event: u64,
    result: Result<u64, FastStateMachineError>,
) -> bool {
    match result {
        Ok(next) => exists|previous: u64|
            previous < state_count && #[trigger] targets.contains_key((previous, event)) && targets[(previous, event)]
                == next,
        Err(FastStateMachineError::UnknownState { state }) => state >= state_count,
        Err(FastStateMachineError::UnknownTransition { source_state, event: e }) => e == event && source_state
            < state_count && !targets.contains_key((source_state, event)),
        Err(FastStateMachineError::CasConflict { .. }) => true,
    }
}

/// A result that a generic machine over the states `0..state_count` with
/// these targets may give for `event` by its trigger contract: a target of
/// some state under `event`, a rejection of some observed state, or a
/// failed compare-and-swap run.
pub open spec fn standard_admits(
    targets: Map<(u64, u64), u64>,
    state_count: u64,
    event: u64,
    result: Result<u64, StateMachineError<u64, u64>>,
) -> bool {
    match result {
        Ok(next) => exists|previous: u64|
            previous < state_count && #[trigger] targets.contains_key((previous, event)) && targets[(previous, event)]
                == next,
        Err(StateMachineError::UnknownState { state }) => state >= state_count,
        Err(StateMachineError::UnknownTransition { source_state, event: e }) => e == event && source_state
            < state_count && !targets.contains_key((source_state, event)),
        Err(StateMachineError::CasFailure { .. }) => true,
    }
}

/// A result that the fast machine built from `data` may give for `event`.
pub open spec fn fast_probe_admitted(data: Seq<u8>, event: u64, result: Result<u64, FastStateMachineError>) -> bool {
    fast_admits(transition_table(input_transitions(data)), input_state_count(data), event, result)
}

/// A result that the generic machine built from `data` may give for
/// `event`.
pub open spec fn standard_probe_admitted(
    data: Seq<u8>,
    event: u64,
    result: Result<u64, StateMachineError<u64, u64>>,
) -> bool {
    standard_admits(transition_table(input_transitions(data)), input_state_count(data), event, result)
}

/// Every probe agrees with its expected target, position by position.
pub open spec fn probes_agree<E>(expected: Seq<Option<u64>>, actual: Seq<Result<u64, E>>) -> bool {
    &&& expected.len() == actual.len()
    &&& forall|k: int|
        0 <= k < expected.len() ==> match (#[trigger] actual[k], expected[k]) {
            (Ok(next), Some(target)) => next == target,
            (Err(_), None) => true,
            _ => false,
        }
}

/// The verdict on a built machine's probes: `Built` when every probe agrees
/// and the untouched state still holds the initial state 0, else
/// `Diverged`.
pub open spec fn probe_outcome<E>(
    expected: Seq<Option<u64>>,
    actual: Seq<Result<u64, E>>,
    untouched: u64,
    checked_pairs: usize,
) -> BuilderOutcome {
    if probes_agree(expected, actual) && untouched == 0 {
        BuilderOutcome::Built { checked_pairs }
    } else {
        BuilderOutcome::Diverged
    }
}

/// Judges the probes of a built machine: the outcome of each probe against
/// its expected target, and the value an untouched state still holds.
pub fn probe_verdict<E>(
    expected: &Vec<Option<u64>>,
    actual: Vec<Result<u64, E>>,
    untouched: u64,
    checked_pairs: usize,
) -> (r: BuilderOutcome)
    ensures
        r == probe_outcome(expected@, actual@, untouched, checked_pairs),
{
    if expected.len() != actual.len() || untouched != 0 {
        return BuilderOutcome::Diverged;
    }
    let ghost probes = actual@;
    let mut remaining = actual;
    let mut k: usize = expected.len();
    while k > 0
        invariant
            k <= expected@.len(),
            expected@.len() == probes.len(),
            remaining@ == probes.take(k as int),
            probes == actual@,
            untouched == 0,
            forall|j: int|
                k <= j < expected@.len() ==> match (#[trigger] probes[j], expected@[j]) {
                    (Ok(next), Some(target)) => next == target,
                    (Err(_), None) => true,
                    _ => false,
                },
        decreases k,
    {
        let probe = remaining.pop().unwrap();
        k = k - 1;
        proof {
            assert(probes.take(k as int) =~= probes.take(k + 1).drop_last());
        }
        proof {
            assert(probes[k as int] == probe);
        }
        if !probe_agrees(probe, expected[k]) {
            proof {
                assert(!match (probes[k as int], expected@[k as int]) {
                    (Ok(next), Some(target)) => next == target,
                    (Err(_), None) => true,
                    _ => false,
                });
                assert(!probes_agree(expected@, probes));
            }
            return BuilderOutcome::Diverged;
        }
    }
    BuilderOutcome::Built { checked_pairs }
}

/// Builds the decoded rules with the fast backend and checks them against
/// the reference model: the first invalid definition rejects the rules;
/// otherwise every lookup matches the model (proved) and every event
/// applied to a fresh state at the initial state commits exactly the
/// model's target (probed at run time).
pub fn run_fast_builder(data: &[u8]) -> (r: BuilderOutcome)
    ensures
        !input_in_range(data@) ==> r == BuilderOutcome::Skipped,
        input_in_range(data@) ==> if fast_transitions_error(
            input_transitions(data@),
            input_state_count(data@),
            input_event_count(data@),
            Seq::empty(),
        ) is Some {
            r == BuilderOutcome::Rejected
        } else {
            exists|actual: Seq<Result<u64, FastStateMachineError>>, untouched: u64|
                #![trigger probe_outcome(
                    probe_targets(data@),
                    actual,
                    untouched,
                    (input_state_count(data@) * input_event_count(data@)) as usize,
                )]
                actual.len() == input_event_count(data@) + 2
                    && (forall|k: int| 0 <= k < actual.len() ==> fast_probe_admitted(data@, k as u64, #[trigger] actual[k]))
                    && r == probe_outcome(
                    probe_targets(data@),
                    actual,
                    untouched,
                    (input_state_count(data@) * input_event_count(data@)) as usize,
                )
        },
{
    if data.len() < 2 || data.len() > 512 {
        return BuilderOutcome::Skipped;
    }
    let (state_count, event_count, transitions) = decode_input(data);
    let mut builder = FastStateMachine::builder().state_count(state_count).event_count(event_count).initial_state(0);
    let ghost start = builder@;
    proof {
        assert(transitions@.take(0) =~= Seq::<(u64, u64, u64)>::empty());
    }
    let mut i: usize = 0;
    while i < transitions.len()
        invariant
            i <= transitions@.len(),
            builder@ == (crate::FastDefinition { transitions: transitions@.take(i as int), ..start }),
            start.transitions == Seq::<(u64, u64, u64)>::empty(),
        decreases transitions@.len() - i,
    {
        let (source, event, target) = transitions[i];
        builder = builder.transition(source, event, target);
        proof {
            assert(transitions@.take(i + 1) =~= transitions@.take(i as int).push((source, event, target)));
        }
        i = i + 1;
    }
    proof {
        assert(transitions@.take(transitions@.len() as int) =~= transitions@);
        assert(state_count * event_count <= 128) by (nonlinear_arith)
            requires
                1 <= state_count <= 16,
                1 <= event_count <= 8,
        ;
    }
    proof {
        lemma_fast_transitions_error_kind(transitions@, state_count, event_count, Seq::empty());
    }
    let machine = match builder.build() {
        Ok(machine) => machine,
        Err(FastStateMachineBuildError::TransitionTableCapacityExceeded { .. }) => {
            proof {
                let conflicts = Seq::new(
                    (event_count + 2) as nat,
                    |k: int| Err::<u64, FastStateMachineError>(FastStateMachineError::CasConflict { attempts: 1 }),
                );
                assert(forall|k: int| 0 <= k < conflicts.len() ==> fast_probe_admitted(data@, k as u64, #[trigger] conflicts[k]));
                assert(probe_outcome(probe_targets(data@), conflicts, 1, (state_count * event_count) as usize)
                    == BuilderOutcome::Diverged);
            }
            return BuilderOutcome::Diverged;
        },
        Err(_) => return BuilderOutcome::Rejected,
    };
    let state = machine.create_state();
    let mut expected: Vec<Option<u64>> = Vec::new();
    let mut actual: Vec<Result<u64, FastStateMachineError>> = Vec::new();
    let mut event: u64 = 0;
    while event < event_count + 2
        invariant
            event <= event_count + 2,
            event_count <= 8,
            input_in_range(data@),
            event_count == input_event_count(data@),
            machine@.targets == transition_table(input_transitions(data@)),
            expected@ == probe_targets(data@).take(event as int),
            actual@.len() == event,
            machine@.state_count == input_state_count(data@),
            forall|k: int| 0 <= k < actual@.len() ==> fast_probe_admitted(data@, k as u64, #[trigger] actual@[k]),
        decreases event_count + 2 - event,
    {
        let probe = machine.create_state();
        expected.push(machine.transition_target(0, event));
        let result = machine.trigger(&probe, event);
        proof {
            match result {
                Ok(next) => {
                    let previous = choose|previous: u64|
                        machine@.next_state(previous, event) == Ok::<u64, FastStateMachineError>(next);
                    assert(machine@.targets.contains_key((previous, event)));
                },
                Err(error) => {
                    if !(error is CasConflict) {
                        let observed = choose|observed: u64|
                            machine@.next_state(observed, event) == Err::<u64, FastStateMachineError>(error);
                        assert(fast_probe_admitted(data@, event, result));
                    }
                },
            }
        }
        actual.push(result);
        proof {
            assert(probe_targets(data@).take(event + 1) =~= probe_targets(data@).take(event as int).push(
                probe_targets(data@)[event as int],
            ));
        }
        event = event + 1;
    }
    proof {
        assert(probe_targets(data@).take(event as int) =~= probe_targets(data@));
    }
    let untouched = state.load();
    let ghost probes = actual@;
    let r = probe_verdict(&expected, actual, untouched, (state_count * event_count) as usize);
    proof {
        assert(probes.len() == input_event_count(data@) + 2);
        assert(r == probe_outcome(probe_targets(data@), probes, untouched, (state_count * event_count) as usize));
    }
    r
}

/// Builds the decoded rules with the generic backend, registering the
/// states `0..state_count`, and checks them against the reference model
/// as [`run_fast_builder`] does. Event codes have no range here, so only
/// unregistered states and conflicting targets reject the rules.
pub fn run_standard_builder(data: &[u8]) -> (r: BuilderOutcome)
    ensures
        !input_in_range(data@) ==> r == BuilderOutcome::Skipped,
        input_in_range(data@) ==> if standard_transitions_error(
            input_transitions(data@),
            code_range(input_state_count(data@)),
            Seq::<u64>::empty(),
        ) is Some {
            r == BuilderOutcome::Rejected
        } else {
            exists|actual: Seq<Result<u64, StateMachineError<u64, u64>>>, untouched: u64|
                #![trigger probe_outcome(
                    probe_targets(data@),
                    actual,
                    untouched,
                    (input_state_count(data@) * input_event_count(data@)) as usize,
                )]
                actual.len() == input_event_count(data@) + 2
                    && (forall|k: int| 0 <= k < actual.len() ==> standard_probe_admitted(data@, k as u64, #[trigger] actual[k]))
                    && r == probe_outcome(
                    probe_targets(data@),
                    actual,
                    untouched,
                    (input_state_count(data@) * input_event_count(data@)) as usize,
                )
        },
{
    if data.len() < 2 || data.len() > 512 {
        return BuilderOutcome::Skipped;
    }
    let (state_count, event_count, transitions) = decode_input(data);
    let mut states: Vec<u64> = Vec::new();
    let mut s: u64 = 0;
    while s < state_count
        invariant
            s <= state_count,
            states@ == code_range(s),
        decreases state_count - s,
    {
        states.push(s);
        proof {
            assert(code_range((s + 1) as u64) =~= code_range(s).push(s));
        }
        s = s + 1;
    }
    let mut builder = StateMachine::<u64, u64>::builder().add_states(states.as_slice()).initial_state(0);
    let ghost start = builder@;
    proof {
        assert(start.states =~= code_range(state_count));
        assert(code_range(state_count)[0] == 0u64);
        assert(transitions@.take(0) =~= Seq::<(u64, u64, u64)>::empty());
    }
    let mut i: usize = 0;
    while i < transitions.len()
        invariant
            i <= transitions@.len(),
            builder@ == (crate::StandardDefinition { transitions: transitions@.take(i as int), ..start }),
            start.transitions == Seq::<(u64, u64, u64)>::empty(),
        decreases transitions@.len() - i,
    {
        let (source, event, target) = transitions[i];
        builder = builder.transition(source, event, target);
        proof {
            assert(transitions@.take(i + 1) =~= transitions@.take(i as int).push((source, event, target)));
        }
        i = i + 1;
    }
    proof {
        assert(transitions@.take(transitions@.len() as int) =~= transitions@);
        broadcast use vstd::laws_eq::group_laws_eq;
        assert(state_count * event_count <= 128) by (nonlinear_arith)
            requires
                1 <= state_count <= 16,
                1 <= event_count <= 8,
        ;
    }
    let machine = match builder.build() {
        Ok(machine) => machine,
        Err(_) => return BuilderOutcome::Rejected,
    };
    proof {
        lemma_distinct_in_order(code_range(state_count));
        assert forall|x: u64| #[trigger] machine@.states.contains(x) <==> x < input_state_count(data@) by {
            if x < state_count {
                assert(code_range(state_count)[x as int] == x);
            }
        }
    }
    let state = machine.create_state();
    let mut expected: Vec<Option<u64>> = Vec::new();
    let mut actual: Vec<Result<u64, StateMachineError<u64, u64>>> = Vec::new();
    let mut event: u64 = 0;
    while event < event_count + 2
        invariant
            event <= event_count + 2,
            event_count <= 8,
            input_in_range(data@),
            event_count == input_event_count(data@),
            machine@.targets == transition_table(input_transitions(data@)),
            expected@ == probe_targets(data@).take(event as int),
            actual@.len() == event,
            forall|x: u64| #[trigger] machine@.states.contains(x) <==> x < input_state_count(data@),
            forall|k: int| 0 <= k < actual@.len() ==> standard_probe_admitted(data@, k as u64, #[trigger] actual@[k]),
        decreases event_count + 2 - event,
    {
        let probe = machine.create_state();
        expected.push(machine.transition_target(0, event));
        let result = machine.trigger(&probe, event);
        proof {
            match result {
                Ok(next) => {
                    let previous = choose|previous: u64|
                        machine@.next_state(previous, event) == Ok::<u64, StateMachineError<u64, u64>>(next);
                    assert(machine@.states.contains(previous));
                    assert(machine@.targets.contains_key((previous, event)));
                },
                Err(error) => {
                    if !(error is CasFailure) {
                        let observed = choose|observed: u64|
                            machine@.next_state(observed, event) == Err::<u64, StateMachineError<u64, u64>>(error);
                        assert(machine@.states.contains(observed) <==> observed < input_state_count(data@));
                        assert(standard_probe_admitted(data@, event, result));
                    }
                },
            }
        }
        actual.push(result);
        proof {
            assert(probe_targets(data@).take(event + 1) =~= probe_targets(data@).take(event as int).push(
                probe_targets(data@)[event as int],
            ));
        }
        event = event + 1;
    }
    proof {
        assert(probe_targets(data@).take(event as int) =~= probe_targets(data@));
    }
    let untouched = load_state(&state);
    let ghost probes = actual@;
    let r = probe_verdict(&expected, actual, untouched, (state_count * event_count) as usize);
    proof {
        assert(probes.len() == input_event_count(data@) + 2);
        assert(r == probe_outcome(probe_targets(data@), probes, untouched, (state_count * event_count) as usize));
    }
    r
}

/// The transition checks never report a table-size error.
proof fn lemma_fast_transitions_error_kind(
    definitions: Seq<(u64, u64, u64)>,
    state_count: u64,
    event_count: u64,
    terminals: Seq<u64>,
)
    ensures
        !(fast_transitions_error(definitions, state_count, event_count, terminals) matches Some(
            FastStateMachineBuildError::TransitionTableCapacityExceeded { .. },
        )),
    decreases definitions.len(),
{
    if definitions.len() > 0 {
        lemma_fast_transitions_error_kind(definitions.drop_last(), state_count, event_count, terminals);
    }
}

/// The dense table a differential input declares: for each `(state,
/// event)` cell in row-major order, the target code reduced below the
/// state count, or no transition for the byte 255.
pub open spec fn differential_cell(byte: u8, state_count: u64) -> Option<u64> {
    if byte == 255 {
        None
    } else {
        Some((byte as int % state_count as int) as u64)
    }
}

/// The number of states a differential input declares: 1 to 4.
pub open spec fn differential_state_count(data: Seq<u8>) -> u64 {
    (data[0] % 4 + 1) as u64
}

/// The number of events a differential input declares: 1 to 3.
pub open spec fn differential_event_count(data: Seq<u8>) -> u64 {
    (data[1] % 3 + 1) as u64
}

/// Where a differential input's trace starts: after the two count bytes
/// and one byte per table cell.
pub open spec fn differential_trace_start(data: Seq<u8>) -> int {
    2 + differential_state_count(data) * differential_event_count(data)
}

/// The event that the trace byte at position `i` replays: the last code
/// is never configured.
pub open spec fn differential_event(data: Seq<u8>, i: int) -> u64 {
    (data[i] as int % (differential_event_count(data) + 1)) as u64
}

/// The table's target for `event` from `current`, if any.
pub open spec fn differential_expected(data: Seq<u8>, current: u64, event: u64) -> Option<u64> {
    if event < differential_event_count(data) {
        differential_cell(
            data[2 + current * differential_event_count(data) + event],
            differential_state_count(data),
        )
    } else {
        None
    }
}

/// The state the table has reached before the trace byte at position `i`:
/// the initial state 0 at the start, then each event's target where the
/// table has one.
pub open spec fn differential_current(data: Seq<u8>, i: int) -> u64
    decreases i,
{
    if i <= differential_trace_start(data) || i <= 0 {
        0
    } else {
        let previous = differential_current(data, i - 1);
        match differential_expected(data, previous, differential_event(data, i - 1)) {
            Some(target) => target,
            None => previous,
        }
    }
}

/// The target the table of a differential input configures for
/// `(source, event)`, if any.
pub open spec fn differential_entry(data: Seq<u8>, source: u64, event: u64) -> Option<u64> {
    if source < differential_state_count(data) && event < differential_event_count(data) {
        differential_cell(
            data[2 + source * differential_event_count(data) + event],
            differential_state_count(data),
        )
    } else {
        None
    }
}

/// The lookup table a differential input configures.
pub open spec fn differential_targets(data: Seq<u8>) -> Map<(u64, u64), u64> {
    Map::new(
        |key: (u64, u64)| differential_entry(data, key.0, key.1) is Some,
        |key: (u64, u64)| differential_entry(data, key.0, key.1)->0,
    )
}

/// A result of the fast machine `table` for `event` that its trigger
/// contract admits.
pub open spec fn fast_trigger_admits(table: FastTable, event: u64, result: Result<u64, FastStateMachineError>) -> bool {
    match result {
        Ok(next) => exists|previous: u64| table.next_state(previous, event) == Ok::<u64, FastStateMachineError>(next),
        Err(error) => error is CasConflict || exists|observed: u64|
            table.next_state(observed, event) == Err::<u64, FastStateMachineError>(error),
    }
}

/// A result of the generic machine `table` for `event` that its trigger
/// contract admits.
pub open spec fn standard_trigger_admits(
    table: StandardTable<u64, u64>,
    event: u64,
    result: Result<u64, StateMachineError<u64, u64>>,
) -> bool {
    match result {
        Ok(next) => exists|previous: u64|
            table.next_state(previous, event) == Ok::<u64, StateMachineError<u64, u64>>(next),
        Err(error) => error is CasFailure || exists|observed: u64|
            table.next_state(observed, event) == Err::<u64, StateMachineError<u64, u64>>(error),
    }
}

/// What replaying the byte at position `i` may produce on machines built
/// from the input's table, by the trigger contracts: the fast and generic
/// results. The typed results, the callback pairs and the cells' states
/// rest on users' codes and shared cells, of which nothing is admitted or
/// excluded.
pub open spec fn step_admitted(data: Seq<u8>, i: int, observed: StepObservation) -> bool {
    &&& fast_admits(differential_targets(data), differential_state_count(data), differential_event(data, i), observed.fast)
    &&& standard_admits(
        differential_targets(data),
        differential_state_count(data),
        differential_event(data, i),
        observed.standard,
    )
}

/// Every observed step is one the machines built from the input's table may
/// produce: `observed[k]` for the byte at `start + k`.
pub open spec fn trace_admitted(data: Seq<u8>, observed: Seq<StepObservation>) -> bool {
    &&& observed.len() == data.len() - differential_trace_start(data)
    &&& forall|k: int|
        0 <= k < observed.len() ==> step_admitted(data, differential_trace_start(data) + k, #[trigger] observed[k])
}

/// A step that every backend rejected for an unknown state: admitted for
/// every input, and agreeing with none.
pub open spec fn rejected_step(data: Seq<u8>) -> StepObservation {
    StepObservation {
        fast: Err(FastStateMachineError::UnknownState { state: differential_state_count(data) }),
        standard: Err(StateMachineError::UnknownState { state: differential_state_count(data) }),
        typed: Err(None),
        fast_seen: None,
        standard_seen: None,
        typed_seen: None,
        fast_now: 0,
        standard_now: 0,
        typed_now: None,
    }
}

/// Every step of the trace, observed in order, agrees with the table:
/// `observed[k]` is what replaying the byte at `start + k` produced.
pub open spec fn trace_agrees(data: Seq<u8>, observed: Seq<StepObservation>) -> bool {
    &&& observed.len() == data.len() - differential_trace_start(data)
    &&& forall|k: int|
        0 <= k < observed.len() ==> {
            let i = differential_trace_start(data) + k;
            step_verdict(
                differential_expected(data, differential_current(data, i), differential_event(data, i)),
                differential_current(data, i),
                differential_event(data, i),
                #[trigger] observed[k],
            )
        }
}

/// What one replayed event produced on the three backends: each trigger's
/// result (the typed one as state codes: the new state's code, or the
/// source state's code of an unknown transition, `None` for other
/// rejections), the `(previous, next)` pair each success callback received
/// (codes for the typed backend), and each cell's state afterwards.
pub struct StepObservation {
    /// The dense backend's result.
    pub fast: Result<u64, FastStateMachineError>,
    /// The generic backend's result.
    pub standard: Result<u64, StateMachineError<u64, u64>>,
    /// The typed backend's result, as codes.
    pub typed: Result<u64, Option<u64>>,
    /// The dense backend's callback pair, if it ran.
    pub fast_seen: Option<(u64, u64)>,
    /// The generic backend's callback pair, if it ran.
    pub standard_seen: Option<(u64, u64)>,
    /// The typed backend's callback pair as codes, if it ran.
    pub typed_seen: Option<(u64, u64)>,
    /// The dense cell's state afterwards.
    pub fast_now: u64,
    /// The generic cell's state afterwards.
    pub standard_now: u64,
    /// The typed cell's state afterwards, as a code.
    pub typed_now: Option<u64>,
}

/// Whether one replayed step agrees with the table: with `expected` the
/// table's target for `event` from `current`, every backend commits it and
/// the dense callback sees `(current, target)`, or, where there is none,
/// every backend reports an unknown transition from `current` and no
/// callback runs; the three callbacks saw the same pair, and the three cells
/// hold the state the table reaches.
pub open spec fn step_verdict(expected: Option<u64>, current: u64, event: u64, observed: StepObservation) -> bool {
    let next = match expected {
        Some(target) => target,
        None => current,
    };
    &&& match expected {
        Some(target) => {
            &&& observed.fast == Ok::<u64, FastStateMachineError>(target)
            &&& observed.standard == Ok::<u64, StateMachineError<u64, u64>>(target)
            &&& observed.typed == Ok::<u64, Option<u64>>(target)
            &&& observed.fast_seen == Some((current, target))
        },
        None => {
            &&& observed.fast == Err::<u64, FastStateMachineError>(
                FastStateMachineError::UnknownTransition { source_state: current, event },
            )
            &&& observed.standard == Err::<u64, StateMachineError<u64, u64>>(
                StateMachineError::UnknownTransition { source_state: current, event },
            )
            &&& observed.typed == Err::<u64, Option<u64>>(Some(current))
            &&& observed.fast_seen is None
        },
    }
    &&& observed.fast_seen == observed.standard_seen
    &&& observed.typed_seen == observed.standard_seen
    &&& observed.fast_now == next
    &&& observed.standard_now == next
    &&& observed.typed_now == Some(next)
}

/// Judges one replayed step against the table.
pub fn step_agrees(expected: Option<u64>, current: u64, event: u64, observed: &StepObservation) -> (r: bool)
    ensures
        r == step_verdict(expected, current, event, *observed),
{
    let next = match expected {
        Some(target) => target,
        None => current,
    };
    let results_agree = match expected {
        Some(target) => {
            let fast_ok = match observed.fast {
                Ok(value) => value == target,
                Err(_) => false,
            };
            let standard_ok = match observed.standard {
                Ok(value) => value == target,
                Err(_) => false,
            };
            let typed_ok = match observed.typed {
                Ok(value) => value == target,
                Err(_) => false,
            };
            let seen_ok = match observed.fast_seen {
                Some((previous, committed)) => previous == current && committed == target,
                None => false,
            };
            fast_ok && standard_ok && typed_ok && seen_ok
        },
        None => {
            let fast_ok = match observed.fast {
                Err(FastStateMachineError::UnknownTransition { source_state, event: e }) => source_state == current
                    && e == event,
                _ => false,
            };
            let standard_ok = match observed.standard {
                Err(StateMachineError::UnknownTransition { source_state, event: e }) => source_state == current
                    && e == event,
                _ => false,
            };
            let typed_ok = match observed.typed {
                Err(Some(code)) => code == current,
                _ => false,
            };
            fast_ok && standard_ok && typed_ok && observed.fast_seen.is_none()
        },
    };
    let callbacks_agree = same_pair(observed.fast_seen, observed.standard_seen) && same_pair(
        observed.typed_seen,
        observed.standard_seen,
    );
    let typed_now_ok = match observed.typed_now {
        Some(code) => code == next,
        None => false,
    };
    results_agree && callbacks_agree && observed.fast_now == next && observed.standard_now == next && typed_now_ok
}

/// Whether two optional callback pairs are equal.
fn same_pair(a: Option<(u64, u64)>, b: Option<(u64, u64)>) -> (r: bool)
    ensures
        r == (a == b),
{
    match (a, b) {
        (Some((a0, a1)), Some((b0, b1))) => a0 == b0 && a1 == b1,
        (None, None) => true,
        _ => false,
    }
}

/// The code a state reports, if there is a state.
fn state_code<S: DenseCode>(state: Option<S>) -> (r: Option<u64>)
    ensures
        state is None ==> r is None,
        state matches Some(s) ==> r matches Some(c) && returns_code(s, c),
{
    match state {
        Some(s) => Some(value_code(s)),
        None => None,
    }
}

/// The codes a callback pair reports, if the callback ran.
fn pair_codes<S: DenseCode>(pair: Option<(S, S)>) -> (r: Option<(u64, u64)>)
    ensures
        pair is None ==> r is None,
        pair matches Some((a, b)) ==> r matches Some((x, y)) && returns_code(a, x) && returns_code(b, y),
{
    match pair {
        Some((a, b)) => Some((value_code(a), value_code(b))),
        None => None,
    }
}

/// A typed result as codes: the new state's code, the source state's code
/// of an unknown transition, or nothing for other rejections.
fn typed_codes<S: DenseCode, E: DenseCode>(result: Result<S, TypedFastStateMachineError<S, E>>) -> (r: Result<u64, Option<u64>>)
    ensures
        match result {
            Ok(state) => r matches Ok(c) && returns_code(state, c),
            Err(TypedFastStateMachineError::UnknownTransition { source_state, .. }) => r matches Err(Some(c))
                && returns_code(source_state, c),
            Err(_) => r == Err::<u64, Option<u64>>(None),
        },
{
    match result {
        Ok(state) => Ok(value_code(state)),
        Err(TypedFastStateMachineError::UnknownTransition { source_state, .. }) => Err(Some(value_code(source_state))),
        Err(_) => Err(None),
    }
}

/// Runs one table through the fast, generic and typed backends and replays
/// the trailing trace on each with success callbacks; every step is judged
/// by [`step_agrees`]: each event commits the table's target or is rejected
/// as an unknown transition by all three, the callbacks see the same
/// `(previous, next)` pair, and the three state cells follow the table.
/// The fast and generic machines are built from exactly the input's table
/// (the generic build always succeeds); for a nonempty trace the result is
/// whether the steps actually observed, each one the trigger contracts of
/// those machines admit, all agree.
///
/// The first byte picks 1 to 4 states, the second 1 to 3 events; the next
/// `states * events` bytes are the table, and each later byte is an event
/// code below `events + 1` (the last code is never configured). Inputs
/// outside 2 to 512 bytes, or too short for their table, pass without
/// checks. The typed backend uses the codebooks of `S` and `E`, which must
/// hold at least 4 values each; otherwise the run fails.
pub fn run_differential<S: DenseCode, E: DenseCode>(data: &[u8]) -> (r: bool)
    requires
        vstd::laws_eq::obeys_concrete_eq::<S>(),
        vstd::laws_eq::obeys_concrete_eq::<E>(),
    ensures
        !input_in_range(data@) ==> r,
        input_in_range(data@) && data@.len() < 2 + (data@[0] % 4 + 1) * (data@[1] % 3 + 1) ==> r,
        input_in_range(data@) && data@.len() >= 2 + (data@[0] % 4 + 1) * (data@[1] % 3 + 1) && (codebook::<S>().len()
            < 4 || codebook::<E>().len() < 4) ==> !r,
        input_in_range(data@) && data@.len() >= 2 + (data@[0] % 4 + 1) * (data@[1] % 3 + 1) && r ==> exists|
            observed: Seq<StepObservation>,
        | #[trigger] trace_agrees(data@, observed),
        input_in_range(data@) && data@.len() > differential_trace_start(data@) ==> exists|
            observed: Seq<StepObservation>,
        | #[trigger] trace_admitted(data@, observed) && (r <==> trace_agrees(data@, observed)),
{
    if data.len() < 2 || data.len() > 512 {
        return true;
    }
    let state_count = (data[0] % 4 + 1) as u64;
    let event_count = (data[1] % 3 + 1) as u64;
    proof {
        assert(state_count * event_count <= 12) by (nonlinear_arith)
            requires
                1 <= state_count <= 4,
                1 <= event_count <= 3,
        ;
    }
    let cells = (state_count * event_count) as usize;
    if data.len() < 2 + cells {
        return true;
    }
    proof {
        assert(differential_trace_start(data@) == 2 + cells);
    }
    replay_differential::<S, E>(data, state_count, event_count, cells)
}

/// A fast result that its machine's trigger contract admits is admitted
/// for any targets and state count that the machine has.
proof fn lemma_fast_admitted(
    table: FastTable,
    targets: Map<(u64, u64), u64>,
    state_count: u64,
    event: u64,
    result: Result<u64, FastStateMachineError>,
)
    requires
        table.targets == targets,
        table.state_count == state_count,
        fast_trigger_admits(table, event, result),
    ensures
        fast_admits(targets, state_count, event, result),
{
    match result {
        Ok(next) => {
            let previous = choose|previous: u64| table.next_state(previous, event) == Ok::<u64, FastStateMachineError>(next);
            assert(targets.contains_key((previous, event)));
        },
        Err(error) => {
            if !(error is CasConflict) {
                let observed = choose|observed: u64|
                    table.next_state(observed, event) == Err::<u64, FastStateMachineError>(error);
            }
        },
    }
}

/// A generic result that its machine's trigger contract admits is admitted
/// for any targets it has, when its states are `0..state_count`.
proof fn lemma_standard_admitted(
    table: StandardTable<u64, u64>,
    targets: Map<(u64, u64), u64>,
    state_count: u64,
    event: u64,
    result: Result<u64, StateMachineError<u64, u64>>,
)
    requires
        table.targets == targets,
        forall|x: u64| #[trigger] table.states.contains(x) <==> x < state_count,
        standard_trigger_admits(table, event, result),
    ensures
        standard_admits(targets, state_count, event, result),
{
    match result {
        Ok(next) => {
            let previous = choose|previous: u64|
                table.next_state(previous, event) == Ok::<u64, StateMachineError<u64, u64>>(next);
            assert(table.states.contains(previous));
            assert(targets.contains_key((previous, event)));
        },
        Err(error) => {
            if !(error is CasFailure) {
                let observed = choose|observed: u64|
                    table.next_state(observed, event) == Err::<u64, StateMachineError<u64, u64>>(error);
                assert(table.states.contains(observed) <==> observed < state_count);
            }
        },
    }
}

/// The rejected step admitted at every position from `start` on, with the
/// steps already observed in front: a trace that is admitted and, when it
/// holds a rejected step, agrees with no table.
proof fn lemma_rejected_trace(data: Seq<u8>, observed: Seq<StepObservation>)
    requires
        differential_trace_start(data) + observed.len() < data.len(),
        forall|k: int|
            0 <= k < observed.len() ==> step_admitted(data, differential_trace_start(data) + k, #[trigger] observed[k]),
    ensures
        ({
            let trace = observed + Seq::new(
                (data.len() - differential_trace_start(data) - observed.len()) as nat,
                |k: int| rejected_step(data),
            );
            trace_admitted(data, trace) && !trace_agrees(data, trace)
        }),
{
    let start = differential_trace_start(data);
    let trace = observed + Seq::new((data.len() - start - observed.len()) as nat, |k: int| rejected_step(data));
    assert forall|k: int| 0 <= k < trace.len() implies step_admitted(data, start + k, #[trigger] trace[k]) by {
        if k >= observed.len() {
            assert(trace[k] == rejected_step(data));
        } else {
            assert(trace[k] == observed[k]);
        }
    }
    let k = observed.len() as int;
    assert(trace[k] == rejected_step(data));
    assert(!step_verdict(
        differential_expected(data, differential_current(data, start + k), differential_event(data, start + k)),
        differential_current(data, start + k),
        differential_event(data, start + k),
        trace[k],
    ));
}

/// Builds and replays a differential input whose table fits in it.
fn replay_differential<S: DenseCode, E: DenseCode>(data: &[u8], state_count: u64, event_count: u64, cells: usize) -> (r: bool)
    requires
        vstd::laws_eq::obeys_concrete_eq::<S>(),
        vstd::laws_eq::obeys_concrete_eq::<E>(),
        1 <= state_count <= 4,
        1 <= event_count <= 3,
        cells == state_count * event_count,
        cells <= 12,
        2 + cells <= data@.len() <= 512,
        state_count == differential_state_count(data@),
        event_count == differential_event_count(data@),
    ensures
        r ==> codebook::<S>().len() >= 4 && codebook::<E>().len() >= 4,
        r ==> exists|observed: Seq<StepObservation>| #[trigger] trace_agrees(data@, observed),
        data@.len() > 2 + cells ==> exists|observed: Seq<StepObservation>|
            #[trigger] trace_admitted(data@, observed) && (r <==> trace_agrees(data@, observed)),
{
    proof {
        assert(differential_trace_start(data@) == 2 + cells);
    }
    let states: &[S] = S::VALUES;
    let events: &[E] = E::VALUES;
    if states.len() < 4 || events.len() < 4 {
        proof {
            if data@.len() > 2 + cells {
                lemma_rejected_trace(data@, Seq::empty());
                assert(Seq::<StepObservation>::empty() + Seq::new(
                    (data@.len() - (2 + cells)) as nat,
                    |k: int| rejected_step(data@),
                ) =~= Seq::new((data@.len() - (2 + cells)) as nat, |k: int| rejected_step(data@)));
            }
        }
        return false;
    }
    let mut table: Vec<Option<u64>> = Vec::new();
    let mut k: usize = 0;
    while k < cells
        invariant
            k <= cells,
            cells <= 12,
            cells == state_count * event_count,
            2 + cells <= data@.len(),
            1 <= state_count <= 4,
            table@.len() == k,
            forall|j: int| 0 <= j < k ==> #[trigger] table@[j] == differential_cell(data@[2 + j], state_count),
        decreases cells - k,
    {
        let byte = data[2 + k];
        let cell = if byte == 255 {
            None
        } else {
            Some(byte as u64 % state_count)
        };
        table.push(cell);
        k = k + 1;
    }
    let mut codes: Vec<u64> = Vec::new();
    let mut s: u64 = 0;
    while s < state_count
        invariant
            s <= state_count,
            codes@ == code_range(s),
        decreases state_count - s,
    {
        codes.push(s);
        proof {
            assert(code_range((s + 1) as u64) =~= code_range(s).push(s));
        }
        s = s + 1;
    }
    let mut fast = FastStateMachine::builder().state_count(state_count).event_count(event_count).initial_state(0);
    let mut standard = StateMachine::<u64, u64>::builder().add_states(codes.as_slice()).initial_state(0);
    let mut typed = TypedFastStateMachine::<S, E>::builder().initial_state(states[0]);
    let ghost fast_start = fast@;
    let ghost standard_start = standard@;
    let ghost mut defs: Seq<(u64, u64, u64)> = Seq::empty();
    let mut source: u64 = 0;
    while source < state_count
        invariant
            vstd::laws_eq::obeys_concrete_eq::<S>(),
            vstd::laws_eq::obeys_concrete_eq::<E>(),
            source <= state_count,
            1 <= state_count <= 4,
            1 <= event_count <= 3,
            state_count == differential_state_count(data@),
            event_count == differential_event_count(data@),
            cells == state_count * event_count,
            2 + cells <= data@.len(),
            table@.len() == cells,
            forall|j: int| 0 <= j < cells ==> #[trigger] table@[j] == differential_cell(data@[2 + j], state_count),
            states@.len() >= 4,
            events@.len() >= 4,
            fast@ == (crate::FastDefinition { transitions: defs, ..fast_start }),
            standard@ == (crate::StandardDefinition { transitions: defs, ..standard_start }),
            fast_start.transitions == Seq::<(u64, u64, u64)>::empty(),
            standard_start.transitions == Seq::<(u64, u64, u64)>::empty(),
            fast_transitions_error(defs, state_count, event_count, Seq::empty()) is None,
            forall|j: int|
                0 <= j < defs.len() ==> (#[trigger] defs[j]).0 < state_count && defs[j].1 < event_count && defs[j].2
                    < state_count,
            forall|a: u64, b: u64| #[trigger]
                transition_table(defs).contains_key((a, b)) <==> (a < source && differential_entry(data@, a, b) is Some),
            forall|a: u64, b: u64| #[trigger]
                transition_table(defs).contains_key((a, b)) ==> transition_table(defs)[(a, b)] == differential_entry(
                    data@,
                    a,
                    b,
                )->0,
        decreases state_count - source,
    {
        let mut event: u64 = 0;
        while event < event_count
            invariant
                vstd::laws_eq::obeys_concrete_eq::<S>(),
                vstd::laws_eq::obeys_concrete_eq::<E>(),
                source < state_count,
                event <= event_count,
                1 <= state_count <= 4,
                1 <= event_count <= 3,
                state_count == differential_state_count(data@),
                event_count == differential_event_count(data@),
                cells == state_count * event_count,
                2 + cells <= data@.len(),
                table@.len() == cells,
                forall|j: int| 0 <= j < cells ==> #[trigger] table@[j] == differential_cell(data@[2 + j], state_count),
                states@.len() >= 4,
                events@.len() >= 4,
                fast@ == (crate::FastDefinition { transitions: defs, ..fast_start }),
                standard@ == (crate::StandardDefinition { transitions: defs, ..standard_start }),
                fast_transitions_error(defs, state_count, event_count, Seq::empty()) is None,
                forall|j: int|
                    0 <= j < defs.len() ==> (#[trigger] defs[j]).0 < state_count && defs[j].1 < event_count
                        && defs[j].2 < state_count,
                forall|a: u64, b: u64| #[trigger]
                    transition_table(defs).contains_key((a, b)) <==> ((a < source || (a == source && b < event))
                        && differential_entry(data@, a, b) is Some),
                forall|a: u64, b: u64| #[trigger]
                    transition_table(defs).contains_key((a, b)) ==> transition_table(defs)[(a, b)]
                        == differential_entry(data@, a, b)->0,
            decreases event_count - event,
        {
            proof {
                assert(source * event_count + event < state_count * event_count) by (nonlinear_arith)
                    requires
                        source < state_count,
                        event < event_count,
                ;
            }
            let cell = table[(source * event_count + event) as usize];
            proof {
                assert(cell == differential_entry(data@, source, event));
            }
            if let Some(target) = cell {
                fast = fast.transition(source, event, target);
                standard = standard.transition(source, event, target);
                typed = typed.transition(states[source as usize], events[event as usize], states[target as usize]);
                proof {
                    let next = defs.push((source, event, target));
                    assert(next.drop_last() =~= defs);
                    assert(!transition_table(defs).contains_key((source, event)));
                    assert(transition_table(next) == transition_table(defs).insert((source, event), target));
                    defs = next;
                }
            }
            event = event + 1;
        }
        source = source + 1;
    }
    proof {
        broadcast use vstd::laws_eq::group_laws_eq;
        assert(transition_table(defs) =~= differential_targets(data@));
        lemma_fast_and_standard_agree(defs, state_count, event_count);
        lemma_distinct_in_order(code_range(state_count));
        assert(standard@.states =~= code_range(state_count));
        assert(code_range(state_count)[0] == 0u64);
    }
    let fast = match fast.build() {
        Ok(machine) => machine,
        Err(_) => {
            proof {
                if data@.len() > 2 + cells {
                    lemma_rejected_trace(data@, Seq::empty());
                    assert(Seq::<StepObservation>::empty() + Seq::new(
                        (data@.len() - (2 + cells)) as nat,
                        |k: int| rejected_step(data@),
                    ) =~= Seq::new((data@.len() - (2 + cells)) as nat, |k: int| rejected_step(data@)));
                }
            }
            return false;
        },
    };
    let standard = match standard.build() {
        Ok(machine) => machine,
        Err(_) => return false,
    };
    if fast.transition_count() != standard.transition_count() {
        return false;
    }
    let typed = match typed.build() {
        Ok(machine) => machine,
        Err(_) => {
            proof {
                if data@.len() > 2 + cells {
                    lemma_rejected_trace(data@, Seq::empty());
                    assert(Seq::<StepObservation>::empty() + Seq::new(
                        (data@.len() - (2 + cells)) as nat,
                        |k: int| rejected_step(data@),
                    ) =~= Seq::new((data@.len() - (2 + cells)) as nat, |k: int| rejected_step(data@)));
                }
            }
            return false;
        },
    };
    if typed.transition_count() != fast.transition_count() {
        proof {
            if data@.len() > 2 + cells {
                lemma_rejected_trace(data@, Seq::empty());
                assert(Seq::<StepObservation>::empty() + Seq::new(
                    (data@.len() - (2 + cells)) as nat,
                    |k: int| rejected_step(data@),
                ) =~= Seq::new((data@.len() - (2 + cells)) as nat, |k: int| rejected_step(data@)));
            }
        }
        return false;
    }
    proof {
        assert forall|x: u64| #[trigger] standard@.states.contains(x) <==> x < state_count by {
            if x < state_count {
                assert(code_range(state_count)[x as int] == x);
            }
        }
    }
    let typed_state = typed.create_state();
    let fast_state = fast.create_state();
    let standard_state = standard.create_state();
    let mut current: u64 = 0;
    let mut i: usize = 2 + cells;
    let ghost mut observed_steps: Seq<StepObservation> = Seq::empty();
    while i < data.len()
        invariant
            vstd::laws_eq::obeys_concrete_eq::<S>(),
            2 + cells <= i <= data@.len(),
            1 <= state_count <= 4,
            1 <= event_count <= 3,
            state_count == differential_state_count(data@),
            event_count == differential_event_count(data@),
            2 + cells == differential_trace_start(data@),
            cells == state_count * event_count,
            table@.len() == cells,
            forall|j: int| 0 <= j < cells ==> #[trigger] table@[j] == differential_cell(data@[2 + j], state_count),
            current < state_count,
            current == differential_current(data@, i as int),
            states@.len() >= 4,
            events@.len() >= 4,
            codebook::<S>().len() >= 4,
            codebook::<E>().len() >= 4,
            fast@.targets == differential_targets(data@),
            fast@.state_count == state_count,
            standard@.targets == differential_targets(data@),
            forall|x: u64| #[trigger] standard@.states.contains(x) <==> x < state_count,
            observed_steps.len() == i - (2 + cells),
            forall|k: int|
                0 <= k < observed_steps.len() ==> step_admitted(
                    data@,
                    differential_trace_start(data@) + k,
                    #[trigger] observed_steps[k],
                ),
            forall|k: int|
                0 <= k < observed_steps.len() ==> {
                    let p = differential_trace_start(data@) + k;
                    step_verdict(
                        differential_expected(data@, differential_current(data@, p), differential_event(data@, p)),
                        differential_current(data@, p),
                        differential_event(data@, p),
                        #[trigger] observed_steps[k],
                    )
                },
        decreases data@.len() - i,
    {
        let event = data[i] as u64 % (event_count + 1);
        let expected = if event < event_count {
            proof {
                assert(current * event_count + event < state_count * event_count) by (nonlinear_arith)
                    requires
                        current < state_count,
                        event < event_count,
                ;
            }
            table[(current * event_count + event) as usize]
        } else {
            None
        };
        proof {
            assert(event == differential_event(data@, i as int));
            if event < event_count {
                assert(table@[current * event_count + event] == differential_cell(
                    data@[2 + (current * event_count + event)],
                    state_count,
                ));
            }
            assert(expected == differential_expected(data@, current, event));
        }
        let observed = replay_step(&fast, &standard, &typed, &fast_state, &standard_state, &typed_state, event, events[event as usize]);
        proof {
            lemma_fast_admitted(fast@, differential_targets(data@), state_count, event, observed.fast);
            lemma_standard_admitted(standard@, differential_targets(data@), state_count, event, observed.standard);
            assert(step_admitted(data@, i as int, observed));
        }
        if !step_agrees(expected, current, event, &observed) {
            proof {
                let prefix = observed_steps.push(observed);
                if i + 1 < data@.len() {
                    lemma_rejected_trace(data@, prefix);
                } else {
                    assert(trace_admitted(data@, prefix));
                    assert(!trace_agrees(data@, prefix)) by {
                        assert(prefix[observed_steps.len() as int] == observed);
                    }
                }
            }
            return false;
        }
        proof {
            observed_steps = observed_steps.push(observed);
        }
        if let Some(target) = expected {
            current = target;
        }
        i = i + 1;
    }
    proof {
        assert(trace_agrees(data@, observed_steps));
        assert(trace_admitted(data@, observed_steps));
    }
    true
}

/// The cell invariant that admits every value.
pub struct AnyValue;

impl<T> Predicate<T> for AnyValue {
    open spec fn predicate(&self, value: T) -> bool {
        true
    }
}

/// Applies one event to the three backends, recording each result, each
/// success callback's pair and each cell's state afterwards.
fn replay_step<S: DenseCode, E: DenseCode>(
    fast: &FastStateMachine,
    standard: &StateMachine<u64, u64>,
    typed: &TypedFastStateMachine<S, E>,
    fast_state: &FastCasState,
    standard_state: &AtomicRef<u64>,
    typed_state: &crate::TypedFastState<S>,
    event: u64,
    typed_event: E,
) -> (r: StepObservation)
    ensures
        fast_trigger_admits(fast@, event, r.fast),
        standard_trigger_admits(standard@, event, r.standard),
{
    let typed_seen: InvCell<Option<(S, S)>, AnyValue> = InvCell::new(
        None,
        Ghost(AnyValue),
    );
    let fast_seen: InvCell<Option<(u64, u64)>, AnyValue> = InvCell::new(
        None,
        Ghost(AnyValue),
    );
    let standard_seen: InvCell<Option<(u64, u64)>, AnyValue> = InvCell::new(
        None,
        Ghost(AnyValue),
    );
    let typed_cell = &typed_seen;
    let fast_cell = &fast_seen;
    let standard_cell = &standard_seen;
    let typed_result = typed.trigger_with(typed_state, typed_event, move |previous: S, next: S| {
        typed_cell.set(Some((previous, next)));
    });
    let fast_result = fast.trigger_with(fast_state, event, move |previous: u64, next: u64| {
        fast_cell.set(Some((previous, next)));
    });
    let standard_result = standard.trigger_with(standard_state, event, move |previous: u64, next: u64| {
        standard_cell.set(Some((previous, next)));
    });
    StepObservation {
        fast: fast_result,
        standard: standard_result,
        typed: typed_codes(typed_result),
        fast_seen: fast_seen.get(),
        standard_seen: standard_seen.get(),
        typed_seen: pair_codes(typed_seen.get()),
        fast_now: fast_state.load(),
        standard_now: load_state(standard_state),
        typed_now: state_code(typed_state.load()),
    }
}

/// The fast and the generic builders agree on rules whose codes are all in
/// range and that mark no terminal state: both reject exactly the rules
/// that map some `(source, event)` pair to two targets, report that same
/// first conflict, and otherwise build the same table.
pub proof fn lemma_fast_and_standard_agree(definitions: Seq<(u64, u64, u64)>, state_count: u64, event_count: u64)
    requires
        forall|j: int|
            0 <= j < definitions.len() ==> (#[trigger] definitions[j]).0 < state_count && definitions[j].1
                < event_count && definitions[j].2 < state_count,
    ensures
        match fast_transitions_error(definitions, state_count, event_count, Seq::empty()) {
            None => standard_transitions_error(definitions, code_range(state_count), Seq::<u64>::empty()) is None,
            Some(FastStateMachineBuildError::DuplicateTransition { source_state, event, existing_target, new_target }) =>
                standard_transitions_error(definitions, code_range(state_count), Seq::<u64>::empty()) == Some(
                StateMachineBuildError::DuplicateTransition { source_state, event, existing_target, new_target },
            ),
            Some(_) => false,
        },
    decreases definitions.len(),
{
    if definitions.len() > 0 {
        let prefix = definitions.drop_last();
        let last = definitions.last();
        assert forall|j: int| 0 <= j < prefix.len() implies (#[trigger] prefix[j]).0 < state_count && prefix[j].1
            < event_count && prefix[j].2 < state_count by {
            assert(prefix[j] == definitions[j]);
        }
        lemma_fast_and_standard_agree(prefix, state_count, event_count);
        assert(last == definitions[definitions.len() - 1]);
        assert(code_range(state_count)[last.0 as int] == last.0);
        assert(code_range(state_count)[last.2 as int] == last.2);
    }
}

} // verus!
