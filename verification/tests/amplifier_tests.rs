use intcode::amplifier::{
    max_feedback_signal, max_thruster_signal, permutations_from, AmplifierPhaseSequence,
};
use intcode::tape::Tape;

#[test]
fn it_produces_thruster_signal_43210_from_seq_43210_with_sample_input() {
    let amp_seq = AmplifierPhaseSequence::new(vec![4, 3, 2, 1, 0]);
    let tape = Tape::new(vec![
        3, 15, 3, 16, 1002, 16, 10, 16, 1, 16, 15, 15, 4, 15, 99, 0, 0,
    ]);

    assert_eq!(43210, amp_seq.test_sequence(tape).unwrap());
}

#[test]
fn it_produces_thruster_signal_54321_from_seq_01234_with_sample_input() {
    let amp_seq = AmplifierPhaseSequence::new(vec![0, 1, 2, 3, 4]);
    let tape = Tape::new(vec![
        3, 23, 3, 24, 1002, 24, 10, 24, 1002, 23, -1, 23, 101, 5, 23, 23, 1, 24, 23, 23, 4, 23,
        99, 0, 0,
    ]);

    assert_eq!(54321, amp_seq.test_sequence(tape).unwrap());
}

#[test]
fn it_produces_thruster_signal_65210_from_seq_10432_with_sample_input() {
    let amp_seq = AmplifierPhaseSequence::new(vec![1, 0, 4, 3, 2]);
    let tape = Tape::new(vec![
        3, 31, 3, 32, 1002, 32, 10, 32, 1001, 31, -2, 31, 1007, 31, 0, 33, 1002, 33, 7, 33, 1, 33,
        31, 31, 1, 32, 31, 31, 4, 31, 99, 0, 0, 0,
    ]);

    assert_eq!(65210, amp_seq.test_sequence(tape).unwrap());
}

#[test]
fn it_produces_thruster_signal_139629729_from_feedback_seq_98765_with_sample_input() {
    let amp_seq = AmplifierPhaseSequence::new(vec![9, 8, 7, 6, 5]);
    let tape = Tape::new(vec![
        3, 26, 1001, 26, -4, 26, 3, 27, 1002, 27, 2, 27, 1, 27, 26, 27, 4, 27, 1001, 28, -1, 28,
        1005, 28, 6, 99, 0, 0, 5,
    ]);

    assert_eq!(139_629_729, amp_seq.test_feedback_sequence(tape).unwrap());
}

#[test]
fn it_produces_thruster_signal_18216_from_feedback_seq_97856_with_sample_input() {
    let amp_seq = AmplifierPhaseSequence::new(vec![9, 7, 8, 5, 6]);
    let tape = Tape::new(vec![
        3, 52, 1001, 52, -5, 52, 3, 53, 1, 52, 56, 54, 1007, 54, 5, 55, 1005, 55, 26, 1001, 54,
        -5, 54, 1105, 1, 12, 1, 53, 54, 53, 1008, 54, 0, 55, 1001, 55, 1, 55, 2, 53, 55, 53, 4,
        53, 1001, 56, -1, 56, 1005, 56, 6, 99, 0, 0, 0, 0, 10,
    ]);

    assert_eq!(18216, amp_seq.test_feedback_sequence(tape).unwrap());
}

#[test]
fn lexical_stepping_visits_every_permutation() {
    let perms = permutations_from(vec![1, 2, 3]);
    assert_eq!(6, perms.len());
    assert_eq!(vec![1, 2, 3], perms[0]);
    assert_eq!(vec![3, 2, 1], perms[5]);
}

#[test]
fn search_finds_the_best_signal_over_all_phase_orders() {
    let tape = Tape::new(vec![
        3, 15, 3, 16, 1002, 16, 10, 16, 1, 16, 15, 15, 4, 15, 99, 0, 0,
    ]);
    assert_eq!(43210, max_thruster_signal(&tape).unwrap());
    let feedback_tape = Tape::new(vec![
        3, 26, 1001, 26, -4, 26, 3, 27, 1002, 27, 2, 27, 1, 27, 26, 27, 4, 27, 1001, 28, -1, 28,
        1005, 28, 6, 99, 0, 0, 5,
    ]);
    assert_eq!(139_629_729, max_feedback_signal(&feedback_tape).unwrap());
}
