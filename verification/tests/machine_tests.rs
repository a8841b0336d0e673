use intcode::machine::{IntcodeMachine, IntcodeMachineError, RunOutcome, State};
use intcode::opcode::{OpCode, ParamMode};
use intcode::tape::Tape;
use intcode::text::parse_multiple_utf8_num_repr_lns;

fn run_program(program: Vec<i64>, input: &[u8]) -> (RunOutcome, Vec<i64>) {
    let mut machine = IntcodeMachine::new(Tape::new(program), input.to_vec(), Vec::new());
    let outcome = machine.run();
    let values = parse_multiple_utf8_num_repr_lns(machine.output_bytes());
    (outcome, values)
}

fn run_to_halt(program: Vec<i64>) -> i64 {
    match run_program(program, b"").0 {
        RunOutcome::Halted(v) => v,
        other => panic!("expected a halt, got {:?}", other),
    }
}

#[test]
fn main_produces_expected_output_for_tiny_input_with_opcode1() {
    assert_eq!(2, run_to_halt(vec![1, 0, 0, 0, 99]));
}

#[test]
fn main_produces_expected_output_for_tiny_input_with_opcode2() {
    assert_eq!(2, run_to_halt(vec![2, 3, 0, 3, 99]));
}

#[test]
fn main_produces_expected_output_for_average_size_input() {
    assert_eq!(2, run_to_halt(vec![2, 4, 4, 5, 99, 0]));
}

#[test]
fn main_produces_expected_output_for_longer_input() {
    assert_eq!(30, run_to_halt(vec![1, 1, 1, 4, 99, 5, 6, 0, 99]));
}

#[test]
fn main_produces_expected_output_for_a_lengthy_input() {
    assert_eq!(
        3500,
        run_to_halt(vec![1, 9, 10, 3, 2, 3, 11, 0, 99, 30, 40, 50])
    );
}

#[test]
fn machine_works_on_negative_values() {
    assert_eq!(1101, run_to_halt(vec![1101, 100, -1, 4, 0]));
}

#[test]
fn produces_expected_output_for_tiny_input_with_opcode1() {
    assert_eq!(2, run_to_halt(vec![1, 0, 0, 0, 99]));
}

#[test]
fn produces_expected_output_for_tiny_input_with_opcode2() {
    assert_eq!(2, run_to_halt(vec![2, 3, 0, 3, 99]));
}

#[test]
fn produces_expected_output_for_average_size_input() {
    assert_eq!(2, run_to_halt(vec![2, 4, 4, 5, 99, 0]));
}

#[test]
fn produces_expected_output_for_longer_input() {
    assert_eq!(30, run_to_halt(vec![1, 1, 1, 4, 99, 5, 6, 0, 99]));
}

#[test]
fn produces_expected_output_for_a_lengthy_input() {
    assert_eq!(
        3500,
        run_to_halt(vec![1, 9, 10, 3, 2, 3, 11, 0, 99, 30, 40, 50])
    );
}

#[test]
fn example_1_outputs_itself() {
    let tape_input = vec![
        109, 1, 204, -1, 1001, 100, 1, 100, 1008, 100, 16, 101, 1006, 101, 0, 99,
    ];
    let (outcome, full_out) = run_program(tape_input.clone(), b"");
    match outcome {
        RunOutcome::Faulted(e) => panic!("unexpected fault {:?}", e),
        RunOutcome::Suspended(_) => panic!("unexpected suspension"),
        _ => (),
    }
    println!("out: {:?}", full_out);
}

#[test]
fn example_2_outputs_16_digit_number() {
    let (_, out) = run_program(vec![1102, 34_915_192, 34_915_192, 7, 4, 7, 99, 0], b"");
    assert_eq!(1_219_070_632_396_864, *out.last().unwrap());
    assert_eq!(16, out.last().unwrap().to_string().len());
}

#[test]
fn example_3_outputs_1125899906842624() {
    let (_, out) = run_program(vec![104, 1_125_899_906_842_624, 99], b"");
    assert_eq!(1_125_899_906_842_624, *out.last().unwrap());
}

#[test]
fn quine_program_reproduces_its_own_listing() {
    let program = vec![
        109, 1, 204, -1, 1001, 100, 1, 100, 1008, 100, 16, 101, 1006, 101, 0, 99,
    ];
    let (outcome, out) = run_program(program.clone(), b"");
    assert!(matches!(outcome, RunOutcome::Halted(_)));
    assert_eq!(program, out);
}

#[test]
fn less_than_eight_program_answers_one_below_and_zero_at_or_above() {
    let program = vec![3, 9, 7, 9, 10, 9, 4, 9, 99, -1, 8];
    let (outcome, out) = run_program(program.clone(), b"7\n");
    assert!(matches!(outcome, RunOutcome::Halted(_)));
    assert_eq!(vec![1], out);
    let (_, out8) = run_program(program.clone(), b"8\n");
    assert_eq!(vec![0], out8);
    let (_, out9) = run_program(program, b"9\n");
    assert_eq!(vec![0], out9);
}

#[test]
fn suspend_and_resume_replays_nothing_and_halts_with_expected_value() {
    let program = vec![3, 11, 4, 11, 3, 11, 4, 11, 99, 0, 0, 0];
    let mut machine = IntcodeMachine::new(Tape::new(program), b"42\n".to_vec(), Vec::new());
    let state: State = match machine.run() {
        RunOutcome::Suspended(state) => state,
        other => panic!("expected a suspension, got {:?}", other),
    };
    assert_eq!(
        vec![42],
        parse_multiple_utf8_num_repr_lns(machine.output_bytes())
    );
    let mut resumed = IntcodeMachine::load_state(state, b"7\n".to_vec(), Vec::new());
    match resumed.run() {
        RunOutcome::Halted(v) => assert_eq!(3, v),
        other => panic!("expected a halt, got {:?}", other),
    }
    // The first output is not re-produced; only the second value appears.
    assert_eq!(
        vec![7],
        parse_multiple_utf8_num_repr_lns(resumed.output_bytes())
    );
}

#[test]
fn suspends_with_no_input_at_all() {
    let (outcome, _) = run_program(vec![3, 0, 99], b"");
    assert!(matches!(outcome, RunOutcome::Suspended(_)));
}

#[test]
fn invalid_opcode_faults_distinctly() {
    let (outcome, _) = run_program(vec![77], b"");
    assert!(matches!(
        outcome,
        RunOutcome::Faulted(IntcodeMachineError::ExecutionFailure)
    ));
}

#[test]
fn negative_instruction_word_faults_distinctly() {
    let (outcome, _) = run_program(vec![-1], b"");
    assert!(matches!(
        outcome,
        RunOutcome::Faulted(IntcodeMachineError::ExecutionFailure)
    ));
}

#[test]
fn pointer_leaving_tape_faults_distinctly() {
    // JumpIfTrue on a nonzero immediate operand to a target beyond the tape.
    let (outcome, _) = run_program(vec![1105, 1, 100, 99], b"");
    assert!(matches!(
        outcome,
        RunOutcome::Faulted(IntcodeMachineError::TapeOutOfBoundsError)
    ));
}

#[test]
fn negative_resolved_address_faults_distinctly() {
    // Position-mode read through a negative literal.
    let (outcome, _) = run_program(vec![1, -5, 0, 0, 99], b"");
    assert!(matches!(
        outcome,
        RunOutcome::Faulted(IntcodeMachineError::TapeOutOfBoundsError)
    ));
}

#[test]
fn immediate_write_destination_faults_distinctly() {
    let (outcome, _) = run_program(vec![11101, 1, 2, 0, 99], b"");
    assert!(matches!(
        outcome,
        RunOutcome::Faulted(IntcodeMachineError::ImmediateWriteFault)
    ));
}

#[test]
fn malformed_input_line_faults_distinctly() {
    let (outcome, _) = run_program(vec![3, 1, 99], b"seven\n");
    assert!(matches!(
        outcome,
        RunOutcome::Faulted(IntcodeMachineError::InputParseFault)
    ));
}

#[test]
fn overflowing_addition_faults_distinctly() {
    let max = i64::MAX;
    let (outcome, _) = run_program(vec![1101, max, max, 0, 99], b"");
    assert!(matches!(
        outcome,
        RunOutcome::Faulted(IntcodeMachineError::ArithmeticOverflow)
    ));
}

#[test]
fn relative_base_addressing_reads_and_writes() {
    // Adjust the base to 7, then write 55 through a relative parameter
    // (203: input with relative mode), then output it.
    let program = vec![109, 7, 203, 1, 4, 8, 99, 0, 0];
    let (outcome, out) = run_program(program, b"55\n");
    assert!(matches!(outcome, RunOutcome::Halted(_)));
    assert_eq!(vec![55], out);
}

#[test]
fn grown_tape_returns_written_value_and_zero_elsewhere() {
    let mut tape = Tape::new(vec![1, 2, 3]);
    tape.write(1000, 7);
    assert_eq!(7, tape.read(1000));
    assert_eq!(0, tape.read(500));
    assert_eq!(2, tape.read(1));
    assert!(tape.len() >= 1001);
}

#[test]
fn state_snapshot_restores_tape_pointer_and_base() {
    let state = State::new_from_tape(Tape::new(vec![104, 5, 99]));
    let mut machine = IntcodeMachine::load_state(state, Vec::new(), Vec::new());
    match machine.run() {
        RunOutcome::Halted(v) => assert_eq!(104, v),
        other => panic!("expected a halt, got {:?}", other),
    }
    assert_eq!(
        vec![5],
        parse_multiple_utf8_num_repr_lns(machine.output_bytes())
    );
}

#[test]
fn prepare_tape_substitutes_noun_and_verb() {
    let prepared = intcode::machine::prepare_tape(vec![1, 0, 0, 0, 99], (12, 2));
    assert_eq!(vec![1, 12, 2, 0, 99], prepared);
}

#[test]
fn works_for_basic_addition() {
    match OpCode::from(1) {
        OpCode::Add(param_vec) => {
            assert_eq!(ParamMode::Position, param_vec[0]);
            assert_eq!(ParamMode::Position, param_vec[1]);
            assert_eq!(ParamMode::Position, param_vec[2]);
        }
        _ => panic!("expected Add"),
    }
}

#[test]
fn works_for_basic_addition_with_zero_prefix() {
    match OpCode::from(101) {
        OpCode::Add(param_vec) => {
            assert_eq!(ParamMode::Immediate, param_vec[0]);
            assert_eq!(ParamMode::Position, param_vec[1]);
            assert_eq!(ParamMode::Position, param_vec[2]);
        }
        _ => panic!("expected Add"),
    }
}

#[test]
fn work_for_addition_with_implicit_mode() {
    match OpCode::from(1101) {
        OpCode::Add(param_vec) => {
            assert_eq!(ParamMode::Immediate, param_vec[0]);
            assert_eq!(ParamMode::Immediate, param_vec[1]);
            assert_eq!(ParamMode::Position, param_vec[2]);
        }
        _ => panic!("expected Add"),
    }
}
