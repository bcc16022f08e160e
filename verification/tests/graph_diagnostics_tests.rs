//! Reachability reports of both backends.
use qubit_state_machine::FastStateMachine;
use qubit_state_machine::StateMachine;

#[test]
fn fast_graph_diagnostics_report_unreachable_and_nonterminal_states() {
    let machine = FastStateMachine::builder()
        .state_count(5)
        .event_count(2)
        .initial_state(0)
        .terminal_state(2)
        .transition(0, 0, 1)
        .transition(1, 0, 2)
        .transition(0, 1, 3)
        .transition(3, 0, 3)
        .build()
        .expect("valid graph");
    let report = machine.diagnose_graph();
    assert_eq!(report.unreachable_states(), &[4]);
    assert_eq!(report.states_without_terminal_path(), &[3, 4]);
}

#[test]
fn standard_graph_diagnostics_report_unreachable_and_nonterminal_states() {
    let machine = StateMachine::builder()
        .add_states(&[0_u8, 1, 2, 3, 4])
        .initial_state(0)
        .terminal_state(2)
        .transition(0, 0, 1)
        .transition(1, 0, 2)
        .transition(0, 1, 3)
        .transition(3, 0, 3)
        .build()
        .expect("valid graph");
    let report = machine.diagnose_graph();
    let mut unreachable = report.unreachable_states().to_vec();
    unreachable.sort_unstable();
    let mut without_path = report.states_without_terminal_path().to_vec();
    without_path.sort_unstable();
    assert_eq!(unreachable, vec![4]);
    assert_eq!(without_path, vec![3, 4]);
}

#[test]
fn test_standard_diagnostics_follow_registration_order() {
    let machine = StateMachine::builder()
        .add_states(&[9_u8, 7, 5, 3])
        .initial_state(9)
        .terminal_state(5)
        .transition(9, 0, 5)
        .transition(3, 0, 7)
        .build()
        .expect("valid graph");
    let report = machine.diagnose_graph();
    assert_eq!(report.unreachable_states(), &[7, 3]);
    assert_eq!(report.states_without_terminal_path(), &[7, 3]);
}

#[test]
fn test_fast_diagnostics_of_fully_connected_graph_are_empty() {
    let machine = FastStateMachine::builder()
        .state_count(3)
        .event_count(1)
        .initial_state(0)
        .terminal_state(2)
        .transition(0, 0, 1)
        .transition(1, 0, 2)
        .build()
        .expect("valid graph");
    let report = machine.diagnose_graph();
    assert!(report.unreachable_states().is_empty());
    assert!(report.states_without_terminal_path().is_empty());
}

#[test]
fn test_diagnostics_without_terminal_states_report_every_state() {
    let machine = FastStateMachine::builder()
        .state_count(2)
        .event_count(1)
        .initial_state(0)
        .transition(0, 0, 1)
        .build()
        .expect("valid graph");
    let report = machine.diagnose_graph();
    assert!(report.unreachable_states().is_empty());
    assert_eq!(report.states_without_terminal_path(), &[0, 1]);
}
