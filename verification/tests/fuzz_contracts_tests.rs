//! The conformance harnesses reach their checks and classify inputs.
use qubit_state_machine::run_differential;
use qubit_state_machine::run_fast_builder;
use qubit_state_machine::run_standard_builder;
use qubit_state_machine::BuilderOutcome;
use qubit_state_machine::DenseCode;

/// Fixed typed state domain; generated traces only visit their declared subset.
#[derive(Debug, Clone, Copy, PartialEq, Eq)]
enum DiffState {
    S0,
    S1,
    S2,
    S3,
}

impl DenseCode for DiffState {
    const VALUES: &'static [Self] = &[Self::S0, Self::S1, Self::S2, Self::S3];
    fn code(self) -> u64 {
        self as u64
    }
}

/// Fixed typed event domain, including an always-undefined sentinel event.
#[derive(Debug, Clone, Copy, PartialEq, Eq)]
enum DiffEvent {
    E0,
    E1,
    E2,
    Invalid,
}

impl DenseCode for DiffEvent {
    const VALUES: &'static [Self] = &[Self::E0, Self::E1, Self::E2, Self::Invalid];
    fn code(self) -> u64 {
        self as u64
    }
}

#[test]
fn test_fast_builder_seed_reaches_checks() {
    assert_eq!(run_fast_builder(&[0, 0]), BuilderOutcome::Built { checked_pairs: 1 });
}

#[test]
fn test_standard_builder_seed_reaches_checks() {
    assert_eq!(run_standard_builder(&[0, 0]), BuilderOutcome::Built { checked_pairs: 1 });
}

#[test]
fn test_builder_reference_acceptance_and_error_branches() {
    let cases: &[(&[u8], bool)] = &[
        (&[0, 0], true),
        (&[1, 0, 0, 0, 1], true),
        (&[1, 0, 0, 0, 1, 0, 0, 1], true),
        (&[1, 0, 0, 0, 1, 0, 0, 0], false),
        (&[1, 0, 2, 0, 0], false),
        (&[1, 0, 0, 0, 2], false),
    ];
    for &(input, accepted) in cases {
        assert_eq!(matches!(run_fast_builder(input), BuilderOutcome::Built { .. }), accepted);
        assert_eq!(matches!(run_standard_builder(input), BuilderOutcome::Built { .. }), accepted);
    }
    assert_eq!(run_fast_builder(&[1, 0, 0, 1, 1]), BuilderOutcome::Rejected);
    assert!(matches!(run_standard_builder(&[1, 0, 0, 1, 1]), BuilderOutcome::Built { .. }));
    for input in [&[][..], &[0][..], &[0; 513][..]] {
        assert_eq!(run_fast_builder(input), BuilderOutcome::Skipped);
        assert_eq!(run_standard_builder(input), BuilderOutcome::Skipped);
    }
}

#[test]
fn test_differential_all_two_by_two_tables_and_short_traces() {
    for encoding in 0..81 {
        let mut code = encoding;
        let mut input = vec![1, 1];
        for _ in 0..4 {
            input.push(match code % 3 {
                0 => u8::MAX,
                1 => 0,
                _ => 1,
            });
            code /= 3;
        }
        for length in 0..=4 {
            for sequence in 0..3_usize.pow(length) {
                let mut sequence_code = sequence;
                let mut trace = input.clone();
                for _ in 0..length {
                    trace.push((sequence_code % 3) as u8);
                    sequence_code /= 3;
                }
                assert!(run_differential::<DiffState, DiffEvent>(&trace));
            }
        }
    }
    for invalid in [&[][..], &[0][..], &[0, 0][..], &[0; 513][..]] {
        assert!(run_differential::<DiffState, DiffEvent>(invalid));
    }
}
