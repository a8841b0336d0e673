//! The execution engine: fetch, decode, execute. The machine owns a tape,
//! an instruction pointer and a relative base, reads one line of text per
//! input instruction, writes one line per output instruction, and either
//! halts with the value at address 0, faults fatally, or suspends into a
//! resumable snapshot when input runs dry.

use vstd::prelude::*;

use crate::opcode::{decodes_to, is_valid_instr, op_arity, spec_modes, OpCode, ParamMode};
use crate::tape::{
    spec_mode_read, spec_mode_write, tape_grow_spec, tape_read_spec, Tape, TapeError,
};
use crate::text::{
    dec_bytes, find_line_end, line_end, parse_line_range, push_decimal, spec_parse_line, NEWLINE,
};

verus! {

/// A fatal fault: each variant is surfaced distinctly and permanently ends
/// the run that raised it.
#[derive(Clone, Copy, Debug, PartialEq, Eq, Structural)]
pub enum IntcodeMachineError {
    /// The instruction pointer, or a resolved operand address, left the
    /// tape's address space.
    TapeOutOfBoundsError,
    /// The word at the instruction pointer does not decode to a known
    /// instruction.
    ExecutionFailure,
    /// An instruction tried to use immediate mode as a write destination.
    ImmediateWriteFault,
    /// An input line was available but was not a signed decimal integer
    /// that fits the machine's value range.
    InputParseFault,
    /// An addition, multiplication or relative-base adjustment left the
    /// machine's value range.
    ArithmeticOverflow,
}

/// The mathematical configuration of a machine: tape contents, instruction
/// pointer, relative base, and the input and output byte streams with the
/// input read position.
#[verifier::ext_equal]
pub struct MachineView {
    pub tape: Seq<i64>,
    pub head: nat,
    pub rel_base: int,
    pub input: Seq<u8>,
    pub in_pos: nat,
    pub output: Seq<u8>,
}

/// The mathematical content of a snapshot: tape, instruction pointer and
/// relative base — everything needed to resume, except the streams.
#[verifier::ext_equal]
pub struct CoreView {
    pub tape: Seq<i64>,
    pub head: nat,
    pub rel_base: int,
}

pub open spec fn core_view(m: MachineView) -> CoreView {
    CoreView { tape: m.tape, head: m.head, rel_base: m.rel_base }
}

pub open spec fn with_tape(m: MachineView, t: Seq<i64>) -> MachineView {
    MachineView { tape: t, ..m }
}

/// How the tape's address errors surface from the machine.
pub open spec fn fault_of_tape_error(e: TapeError) -> IntcodeMachineError {
    match e {
        TapeError::WriteInImmediateModeError => IntcodeMachineError::ImmediateWriteFault,
        _ => IntcodeMachineError::TapeOutOfBoundsError,
    }
}

/// What one instruction does to a configuration.
pub enum StepSpec {
    Cont(MachineView),
    Halted(i64, MachineView),
    Suspended(MachineView),
    Faulted(IntcodeMachineError, MachineView),
}

/// Moving the instruction pointer: every pointer update, fall-through or
/// jump, must land within the current tape bounds.
pub open spec fn spec_advance(m: MachineView, target: int) -> StepSpec {
    if 0 <= target < m.tape.len() {
        StepSpec::Cont(MachineView { head: target as nat, ..m })
    } else {
        StepSpec::Faulted(IntcodeMachineError::TapeOutOfBoundsError, m)
    }
}

/// Add (1), Multiply (2), LessThan (7) and Equals (8): two mode-resolved
/// reads, one combined value, one mode-resolved write, advance by 4. A
/// result outside the value range is a fault.
pub open spec fn spec_exec_binary(m: MachineView, ms: Seq<ParamMode>, op: int) -> StepSpec {
    let (t1, r1) = spec_mode_read(m.tape, m.head + 1, m.rel_base, ms[0]);
    match r1 {
        Err(e) => StepSpec::Faulted(fault_of_tape_error(e), with_tape(m, t1)),
        Ok(v1) => {
            let (t2, r2) = spec_mode_read(t1, m.head + 2, m.rel_base, ms[1]);
            match r2 {
                Err(e) => StepSpec::Faulted(fault_of_tape_error(e), with_tape(m, t2)),
                Ok(v2) => {
                    let res: int = if op == 1 {
                        v1 + v2
                    } else if op == 2 {
                        v1 * v2
                    } else if op == 7 {
                        if v1 < v2 {
                            1
                        } else {
                            0
                        }
                    } else {
                        if v1 == v2 {
                            1
                        } else {
                            0
                        }
                    };
                    if res < i64::MIN || res > i64::MAX {
                        StepSpec::Faulted(IntcodeMachineError::ArithmeticOverflow, with_tape(m, t2))
                    } else {
                        let (t3, r3) = spec_mode_write(
                            t2,
                            m.head + 3,
                            m.rel_base,
                            ms[2],
                            res as i64,
                        );
                        match r3 {
                            Err(e) => StepSpec::Faulted(fault_of_tape_error(e), with_tape(m, t3)),
                            Ok(u) => spec_advance(with_tape(m, t3), m.head + 4int),
                        }
                    }
                },
            }
        },
    }
}

/// JumpIfTrue (5) and JumpIfFalse (6): if the first operand satisfies the
/// predicate, the pointer is set to the second operand directly, else it
/// advances by 3.
pub open spec fn spec_exec_jump(m: MachineView, ms: Seq<ParamMode>, jump_if_nonzero: bool) -> StepSpec {
    let (t1, r1) = spec_mode_read(m.tape, m.head + 1, m.rel_base, ms[0]);
    match r1 {
        Err(e) => StepSpec::Faulted(fault_of_tape_error(e), with_tape(m, t1)),
        Ok(v) => {
            let (t2, r2) = spec_mode_read(t1, m.head + 2, m.rel_base, ms[1]);
            match r2 {
                Err(e) => StepSpec::Faulted(fault_of_tape_error(e), with_tape(m, t2)),
                Ok(target) => {
                    if (v != 0) == jump_if_nonzero {
                        spec_advance(with_tape(m, t2), target as int)
                    } else {
                        spec_advance(with_tape(m, t2), m.head + 3int)
                    }
                },
            }
        },
    }
}

/// AdjustRelativeBase (9): one mode-resolved read added to the relative
/// base, advance by 2.
pub open spec fn spec_exec_rbo(m: MachineView, ms: Seq<ParamMode>) -> StepSpec {
    let (t1, r1) = spec_mode_read(m.tape, m.head + 1, m.rel_base, ms[0]);
    match r1 {
        Err(e) => StepSpec::Faulted(fault_of_tape_error(e), with_tape(m, t1)),
        Ok(v) => {
            let nb = m.rel_base + v;
            if nb < i64::MIN || nb > i64::MAX {
                StepSpec::Faulted(IntcodeMachineError::ArithmeticOverflow, with_tape(m, t1))
            } else {
                spec_advance(MachineView { rel_base: nb, ..with_tape(m, t1) }, m.head + 2int)
            }
        },
    }
}

/// Output (4): one mode-resolved read appended to the output stream as one
/// decimal line, advance by 2.
pub open spec fn spec_exec_output(m: MachineView, ms: Seq<ParamMode>) -> StepSpec {
    let (t1, r1) = spec_mode_read(m.tape, m.head + 1, m.rel_base, ms[0]);
    match r1 {
        Err(e) => StepSpec::Faulted(fault_of_tape_error(e), with_tape(m, t1)),
        Ok(v) => {
            let m1 = MachineView {
                output: m.output + dec_bytes(v as int) + seq![NEWLINE],
                ..with_tape(m, t1)
            };
            spec_advance(m1, m.head + 2int)
        },
    }
}

/// Input (3): with no line available the machine suspends, unchanged, so
/// that resuming re-attempts the same instruction; otherwise one line is
/// consumed, parsed (a malformed line is a fatal fault), mode-written to
/// the single parameter, and the pointer advances by 2.
pub open spec fn spec_exec_input(m: MachineView, ms: Seq<ParamMode>) -> StepSpec {
    if m.in_pos >= m.input.len() {
        StepSpec::Suspended(m)
    } else {
        let e = line_end(m.input, m.in_pos as int);
        let new_pos: nat = if e < m.input.len() {
            (e + 1) as nat
        } else {
            e as nat
        };
        let m1 = MachineView { in_pos: new_pos, ..m };
        match spec_parse_line(m.input.subrange(m.in_pos as int, e)) {
            None => StepSpec::Faulted(IntcodeMachineError::InputParseFault, m1),
            Some(v) => {
                let (t1, r1) = spec_mode_write(m.tape, m.head + 1, m.rel_base, ms[0], v);
                match r1 {
                    Err(er) => StepSpec::Faulted(fault_of_tape_error(er), with_tape(m1, t1)),
                    Ok(u) => spec_advance(with_tape(m1, t1), m.head + 2int),
                }
            },
        }
    }
}

/// Halt (99): the run ends with the value at tape address 0.
pub open spec fn spec_exec_halt(m: MachineView) -> StepSpec {
    StepSpec::Halted(tape_read_spec(m.tape, 0), with_tape(m, tape_grow_spec(m.tape, 0)))
}

/// What a decoded word does to the configuration `m` (the tape has already
/// grown so the fetch address is valid).
pub open spec fn dispatch_spec(m: MachineView, w: int) -> StepSpec {
    if !is_valid_instr(w) {
        StepSpec::Faulted(IntcodeMachineError::ExecutionFailure, m)
    } else {
        let op = w % 100;
        let ms = spec_modes(w, op_arity(op));
        if op == 1 || op == 2 || op == 7 || op == 8 {
            spec_exec_binary(m, ms, op)
        } else if op == 5 {
            spec_exec_jump(m, ms, true)
        } else if op == 6 {
            spec_exec_jump(m, ms, false)
        } else if op == 9 {
            spec_exec_rbo(m, ms)
        } else if op == 3 {
            spec_exec_input(m, ms)
        } else if op == 4 {
            spec_exec_output(m, ms)
        } else {
            spec_exec_halt(m)
        }
    }
}

/// One whole machine step: fetch the word at the instruction pointer
/// (growing the tape if the pointer sits in the zero tail), decode, and
/// dispatch. A pointer in the last few representable addresses is a
/// pointer fault: the machine cannot address the cells such an instruction
/// would touch.
pub open spec fn step_spec(m: MachineView) -> StepSpec {
    if m.head > usize::MAX - 4 {
        StepSpec::Faulted(IntcodeMachineError::TapeOutOfBoundsError, m)
    } else {
        let w = tape_read_spec(m.tape, m.head);
        let m0 = with_tape(m, tape_grow_spec(m.tape, m.head));
        dispatch_spec(m0, w as int)
    }
}

/// A run after at most `fuel` steps: still pending, or finished one way.
pub enum RunSpec {
    Pending(MachineView),
    Halted(i64, MachineView),
    Suspended(MachineView),
    Faulted(IntcodeMachineError, MachineView),
}

pub open spec fn lift_step(ss: StepSpec) -> RunSpec {
    match ss {
        StepSpec::Cont(c) => RunSpec::Pending(c),
        StepSpec::Halted(v, m) => RunSpec::Halted(v, m),
        StepSpec::Suspended(m) => RunSpec::Suspended(m),
        StepSpec::Faulted(e, m) => RunSpec::Faulted(e, m),
    }
}

/// Iterating the step relation from `m` for up to `fuel` steps.
pub open spec fn run_from(m: MachineView, fuel: nat) -> RunSpec
    decreases fuel,
{
    if fuel == 0 {
        RunSpec::Pending(m)
    } else {
        match step_spec(m) {
            StepSpec::Cont(c) => run_from(c, (fuel - 1) as nat),
            other => lift_step(other),
        }
    }
}

/// A pending run extends by one step: whatever the step relation says of
/// the pending configuration is what one more unit of fuel yields.
pub proof fn lemma_run_from_step(init: MachineView, n: nat)
    ensures
        (match run_from(init, n) {
            RunSpec::Pending(c) => run_from(init, n + 1) == lift_step(step_spec(c)),
            _ => true,
        }),
    decreases n,
{
    match step_spec(init) {
        StepSpec::Cont(c0) => {
            assert(run_from(init, n + 1) == run_from(c0, n));
            if n == 0 {
                assert(run_from(c0, 0) == RunSpec::Pending(c0));
                assert(run_from(init, 0) == RunSpec::Pending(init));
            } else {
                assert(run_from(init, n) == run_from(c0, (n - 1) as nat));
                lemma_run_from_step(c0, (n - 1) as nat);
            }
        },
        _ => {
            if n > 0 {
                assert(run_from(init, n) == lift_step(step_spec(init)));
                assert(!(run_from(init, n) is Pending));
            }
        },
    }
}

/// A resumable snapshot of a suspended machine: a deep copy of the tape,
/// the instruction pointer and the relative base. Binding it to fresh
/// streams with `IntcodeMachine::load_state` continues the run as if it
/// had never paused.
#[derive(Debug)]
pub struct State {
    tape: Tape,
    relative_base: i64,
    head_position: usize,
}

impl View for State {
    type V = CoreView;

    closed spec fn view(&self) -> CoreView {
        CoreView {
            tape: self.tape@,
            head: self.head_position as nat,
            rel_base: self.relative_base as int,
        }
    }
}

impl Clone for State {
    /// A clone is an independent snapshot of the same configuration.
    fn clone(&self) -> (r: State)
        ensures
            r@ == self@,
    {
        State {
            tape: self.tape.clone(),
            relative_base: self.relative_base,
            head_position: self.head_position,
        }
    }
}

impl State {
    /// A fresh start: the given tape, with the instruction pointer and the
    /// relative base both at zero.
    pub fn new_from_tape(tape: Tape) -> (r: State)
        ensures
            r@ == (CoreView { tape: tape@, head: 0, rel_base: 0 }),
    {
        State { tape, relative_base: 0, head_position: 0 }
    }
}

impl Default for State {
    /// An empty snapshot: no tape cells, pointer and base at zero.
    fn default() -> (r: State)
        ensures
            r@ == (CoreView { tape: Seq::<i64>::empty(), head: 0, rel_base: 0 }),
    {
        let r = State { tape: Tape::new(Vec::new()), relative_base: 0, head_position: 0 };
        proof {
            assert(r@.tape =~= Seq::<i64>::empty());
        }
        r
    }
}

/// How one `run` call ends: a normal halt with the value at address 0, a
/// suspension carrying a resumable snapshot (not a fault: the caller may
/// supply more input and resume), a fatal fault, or — after a number of
/// steps no real program reaches — the exhaustion of the engine's step
/// budget.
#[derive(Debug)]
pub enum RunOutcome {
    Halted(i64),
    Suspended(State),
    Faulted(IntcodeMachineError),
    StepLimitReached,
}

/// What executing one instruction reported to the run loop.
enum StepExec {
    Continue,
    Halt(i64),
    Suspend,
    Fault(IntcodeMachineError),
}

/// The execution result `r` and machine state `m` are exactly what the
/// step relation `ss` prescribes.
spec fn matches_step(ss: StepSpec, r: StepExec, m: MachineView) -> bool {
    match ss {
        StepSpec::Cont(m2) => r is Continue && m == m2,
        StepSpec::Halted(v, m2) => r == StepExec::Halt(v) && m == m2,
        StepSpec::Suspended(m2) => r is Suspend && m == m2,
        StepSpec::Faulted(e, m2) => r == StepExec::Fault(e) && m == m2,
    }
}

fn tape_fault(e: TapeError) -> (r: IntcodeMachineError)
    ensures
        r == fault_of_tape_error(e),
{
    match e {
        TapeError::WriteInImmediateModeError => IntcodeMachineError::ImmediateWriteFault,
        _ => IntcodeMachineError::TapeOutOfBoundsError,
    }
}

/// The execution engine. It owns its tape; input and output are in-memory
/// line-oriented byte streams, so a caller chains machines by handing one
/// machine's output buffer to the next machine's constructor.
pub struct IntcodeMachine {
    tape: Tape,
    head_position: usize,
    relative_base: i64,
    input: Vec<u8>,
    input_cursor: usize,
    output: Vec<u8>,
}

impl View for IntcodeMachine {
    type V = MachineView;

    closed spec fn view(&self) -> MachineView {
        MachineView {
            tape: self.tape@,
            head: self.head_position as nat,
            rel_base: self.relative_base as int,
            input: self.input@,
            in_pos: self.input_cursor as nat,
            output: self.output@,
        }
    }
}

impl IntcodeMachine {
    /// A new machine over `tape`, reading lines from `input` and appending
    /// output lines to `output`.
    pub fn new(tape: Tape, input: Vec<u8>, output: Vec<u8>) -> (r: IntcodeMachine)
        ensures
            r@ == (MachineView {
                tape: tape@,
                head: 0,
                rel_base: 0,
                input: input@,
                in_pos: 0,
                output: output@,
            }),
    {
        IntcodeMachine {
            tape,
            head_position: 0,
            relative_base: 0,
            input,
            input_cursor: 0,
            output,
        }
    }

    /// Rebuilds a machine from a snapshot, bound to fresh streams, ready
    /// to continue exactly where the snapshot was taken.
    pub fn load_state(state: State, input: Vec<u8>, output: Vec<u8>) -> (r: IntcodeMachine)
        ensures
            r@ == (MachineView {
                tape: state@.tape,
                head: state@.head,
                rel_base: state@.rel_base,
                input: input@,
                in_pos: 0,
                output: output@,
            }),
    {
        IntcodeMachine {
            tape: state.tape,
            head_position: state.head_position,
            relative_base: state.relative_base,
            input,
            input_cursor: 0,
            output,
        }
    }

    /// Captures the machine's tape, instruction pointer and relative base
    /// as a resumable snapshot; meaningful right after a suspension.
    pub fn dump_state(&self) -> (r: State)
        ensures
            r@ == core_view(self@),
    {
        State {
            tape: self.tape.clone(),
            relative_base: self.relative_base,
            head_position: self.head_position,
        }
    }

    /// The bytes the machine has written so far: one decimal line per
    /// output instruction.
    pub fn output_bytes(&self) -> (r: &Vec<u8>)
        ensures
            r@ == self@.output,
    {
        &self.output
    }

    /// Validates and applies a pointer update: the new pointer must lie
    /// within the current tape bounds.
    fn update_head(&mut self, val: i128) -> (r: StepExec)
        ensures
            matches_step(spec_advance(old(self)@, val as int), r, final(self)@),
    {
        if val < 0 || val >= self.tape.len() as i128 {
            return StepExec::Fault(IntcodeMachineError::TapeOutOfBoundsError);
        }
        self.head_position = val as usize;
        StepExec::Continue
    }

    /// Add: the sum of the two mode-resolved operands is mode-written to
    /// the third parameter.
    fn execute_add(&mut self, param_modes: &Vec<ParamMode>) -> (r: StepExec)
        requires
            param_modes@.len() == 3,
            old(self)@.head <= usize::MAX - 4,
        ensures
            matches_step(spec_exec_binary(old(self)@, param_modes@, 1), r, final(self)@),
    {
        let v1 = match self.tape.mode_read(
            self.head_position + 1,
            self.relative_base,
            param_modes[0],
        ) {
            Err(e) => return StepExec::Fault(tape_fault(e)),
            Ok(v) => v,
        };
        let v2 = match self.tape.mode_read(
            self.head_position + 2,
            self.relative_base,
            param_modes[1],
        ) {
            Err(e) => return StepExec::Fault(tape_fault(e)),
            Ok(v) => v,
        };
        let res: i128 = v1 as i128 + v2 as i128;
        if res < i64::MIN as i128 || res > i64::MAX as i128 {
            return StepExec::Fault(IntcodeMachineError::ArithmeticOverflow);
        }
        match self.tape.mode_write(
            self.head_position + 3,
            self.relative_base,
            param_modes[2],
            res as i64,
        ) {
            Err(e) => StepExec::Fault(tape_fault(e)),
            Ok(u) => self.update_head(self.head_position as i128 + 4),
        }
    }

    /// Multiply: the product of the two mode-resolved operands is
    /// mode-written to the third parameter.
    fn execute_mul(&mut self, param_modes: &Vec<ParamMode>) -> (r: StepExec)
        requires
            param_modes@.len() == 3,
            old(self)@.head <= usize::MAX - 4,
        ensures
            matches_step(spec_exec_binary(old(self)@, param_modes@, 2), r, final(self)@),
    {
        let v1 = match self.tape.mode_read(
            self.head_position + 1,
            self.relative_base,
            param_modes[0],
        ) {
            Err(e) => return StepExec::Fault(tape_fault(e)),
            Ok(v) => v,
        };
        let v2 = match self.tape.mode_read(
            self.head_position + 2,
            self.relative_base,
            param_modes[1],
        ) {
            Err(e) => return StepExec::Fault(tape_fault(e)),
            Ok(v) => v,
        };
        proof {
            let a = v1 as int;
            let b = v2 as int;
            assert(-0x4000_0000_0000_0000_0000_0000_0000_0000 <= a * b
                <= 0x4000_0000_0000_0000_0000_0000_0000_0000) by (nonlinear_arith)
                requires
                    -0x8000_0000_0000_0000 <= a <= 0x7fff_ffff_ffff_ffff,
                    -0x8000_0000_0000_0000 <= b <= 0x7fff_ffff_ffff_ffff,
            ;
        }
        let res: i128 = v1 as i128 * v2 as i128;
        if res < i64::MIN as i128 || res > i64::MAX as i128 {
            return StepExec::Fault(IntcodeMachineError::ArithmeticOverflow);
        }
        match self.tape.mode_write(
            self.head_position + 3,
            self.relative_base,
            param_modes[2],
            res as i64,
        ) {
            Err(e) => StepExec::Fault(tape_fault(e)),
            Ok(u) => self.update_head(self.head_position as i128 + 4),
        }
    }

    /// LessThan: stores 1 if the first operand is less than the second,
    /// else 0.
    fn execute_less_than(&mut self, param_modes: &Vec<ParamMode>) -> (r: StepExec)
        requires
            param_modes@.len() == 3,
            old(self)@.head <= usize::MAX - 4,
        ensures
            matches_step(spec_exec_binary(old(self)@, param_modes@, 7), r, final(self)@),
    {
        let v1 = match self.tape.mode_read(
            self.head_position + 1,
            self.relative_base,
            param_modes[0],
        ) {
            Err(e) => return StepExec::Fault(tape_fault(e)),
            Ok(v) => v,
        };
        let v2 = match self.tape.mode_read(
            self.head_position + 2,
            self.relative_base,
            param_modes[1],
        ) {
            Err(e) => return StepExec::Fault(tape_fault(e)),
            Ok(v) => v,
        };
        let res: i64 = if v1 < v2 {
            1
        } else {
            0
        };
        match self.tape.mode_write(
            self.head_position + 3,
            self.relative_base,
            param_modes[2],
            res,
        ) {
            Err(e) => StepExec::Fault(tape_fault(e)),
            Ok(u) => self.update_head(self.head_position as i128 + 4),
        }
    }

    /// Equals: stores 1 if the two operands are equal, else 0.
    fn execute_equals(&mut self, param_modes: &Vec<ParamMode>) -> (r: StepExec)
        requires
            param_modes@.len() == 3,
            old(self)@.head <= usize::MAX - 4,
        ensures
            matches_step(spec_exec_binary(old(self)@, param_modes@, 8), r, final(self)@),
    {
        let v1 = match self.tape.mode_read(
            self.head_position + 1,
            self.relative_base,
            param_modes[0],
        ) {
            Err(e) => return StepExec::Fault(tape_fault(e)),
            Ok(v) => v,
        };
        let v2 = match self.tape.mode_read(
            self.head_position + 2,
            self.relative_base,
            param_modes[1],
        ) {
            Err(e) => return StepExec::Fault(tape_fault(e)),
            Ok(v) => v,
        };
        let res: i64 = if v1 == v2 {
            1
        } else {
            0
        };
        match self.tape.mode_write(
            self.head_position + 3,
            self.relative_base,
            param_modes[2],
            res,
        ) {
            Err(e) => StepExec::Fault(tape_fault(e)),
            Ok(u) => self.update_head(self.head_position as i128 + 4),
        }
    }

    /// JumpIfTrue: jumps to the second operand if the first is nonzero.
    fn execute_jump_true(&mut self, param_modes: &Vec<ParamMode>) -> (r: StepExec)
        requires
            param_modes@.len() == 2,
            old(self)@.head <= usize::MAX - 4,
        ensures
            matches_step(spec_exec_jump(old(self)@, param_modes@, true), r, final(self)@),
    {
        let v = match self.tape.mode_read(
            self.head_position + 1,
            self.relative_base,
            param_modes[0],
        ) {
            Err(e) => return StepExec::Fault(tape_fault(e)),
            Ok(v) => v,
        };
        let target = match self.tape.mode_read(
            self.head_position + 2,
            self.relative_base,
            param_modes[1],
        ) {
            Err(e) => return StepExec::Fault(tape_fault(e)),
            Ok(v) => v,
        };
        if v != 0 {
            self.update_head(target as i128)
        } else {
            self.update_head(self.head_position as i128 + 3)
        }
    }

    /// JumpIfFalse: jumps to the second operand if the first is zero.
    fn execute_jump_false(&mut self, param_modes: &Vec<ParamMode>) -> (r: StepExec)
        requires
            param_modes@.len() == 2,
            old(self)@.head <= usize::MAX - 4,
        ensures
            matches_step(spec_exec_jump(old(self)@, param_modes@, false), r, final(self)@),
    {
        let v = match self.tape.mode_read(
            self.head_position + 1,
            self.relative_base,
            param_modes[0],
        ) {
            Err(e) => return StepExec::Fault(tape_fault(e)),
            Ok(v) => v,
        };
        let target = match self.tape.mode_read(
            self.head_position + 2,
            self.relative_base,
            param_modes[1],
        ) {
            Err(e) => return StepExec::Fault(tape_fault(e)),
            Ok(v) => v,
        };
        if v == 0 {
            self.update_head(target as i128)
        } else {
            self.update_head(self.head_position as i128 + 3)
        }
    }

    /// AdjustRelativeBase: adds the operand to the relative base.
    fn execute_adjust_relative_base(&mut self, param_modes: &Vec<ParamMode>) -> (r: StepExec)
        requires
            param_modes@.len() == 1,
            old(self)@.head <= usize::MAX - 4,
        ensures
            matches_step(spec_exec_rbo(old(self)@, param_modes@), r, final(self)@),
    {
        let v = match self.tape.mode_read(
            self.head_position + 1,
            self.relative_base,
            param_modes[0],
        ) {
            Err(e) => return StepExec::Fault(tape_fault(e)),
            Ok(v) => v,
        };
        let nb: i128 = self.relative_base as i128 + v as i128;
        if nb < i64::MIN as i128 || nb > i64::MAX as i128 {
            return StepExec::Fault(IntcodeMachineError::ArithmeticOverflow);
        }
        self.relative_base = nb as i64;
        self.update_head(self.head_position as i128 + 2)
    }

    /// Output: appends the operand's decimal text, newline-terminated, to
    /// the output stream.
    fn execute_output(&mut self, param_modes: &Vec<ParamMode>) -> (r: StepExec)
        requires
            param_modes@.len() == 1,
            old(self)@.head <= usize::MAX - 4,
        ensures
            matches_step(spec_exec_output(old(self)@, param_modes@), r, final(self)@),
    {
        let v = match self.tape.mode_read(
            self.head_position + 1,
            self.relative_base,
            param_modes[0],
        ) {
            Err(e) => return StepExec::Fault(tape_fault(e)),
            Ok(v) => v,
        };
        push_decimal(&mut self.output, v);
        self.output.push(NEWLINE);
        proof {
            assert(self@.output =~= old(self)@.output + dec_bytes(v as int) + seq![NEWLINE]);
        }
        self.update_head(self.head_position as i128 + 2)
    }

    /// Input: suspends, unchanged, if no line is available; otherwise
    /// consumes one line, parses it (a malformed line is fatal), and
    /// mode-writes the value to the single parameter.
    fn execute_input(&mut self, param_modes: &Vec<ParamMode>) -> (r: StepExec)
        requires
            param_modes@.len() == 1,
            old(self)@.head <= usize::MAX - 4,
        ensures
            matches_step(spec_exec_input(old(self)@, param_modes@), r, final(self)@),
    {
        if self.input_cursor >= self.input.len() {
            return StepExec::Suspend;
        }
        let e = find_line_end(&self.input, self.input_cursor);
        let parsed = parse_line_range(&self.input, self.input_cursor, e);
        self.input_cursor = if e < self.input.len() {
            e + 1
        } else {
            e
        };
        match parsed {
            None => StepExec::Fault(IntcodeMachineError::InputParseFault),
            Some(v) => {
                match self.tape.mode_write(
                    self.head_position + 1,
                    self.relative_base,
                    param_modes[0],
                    v,
                ) {
                    Err(er) => StepExec::Fault(tape_fault(er)),
                    Ok(u) => self.update_head(self.head_position as i128 + 2),
                }
            },
        }
    }

    /// Dispatches one decoded instruction. The ghost `word` is the
    /// instruction word the opcode was decoded from.
    fn execute_op(&mut self, op: OpCode, word: Ghost<i64>) -> (r: StepExec)
        requires
            decodes_to(word@ as int, op),
            old(self)@.head <= usize::MAX - 4,
        ensures
            matches_step(dispatch_spec(old(self)@, word@ as int), r, final(self)@),
    {
        match op {
            OpCode::Add(param_modes) => self.execute_add(&param_modes),
            OpCode::Mul(param_modes) => self.execute_mul(&param_modes),
            OpCode::Jt(param_modes) => self.execute_jump_true(&param_modes),
            OpCode::Jf(param_modes) => self.execute_jump_false(&param_modes),
            OpCode::Lt(param_modes) => self.execute_less_than(&param_modes),
            OpCode::Eq(param_modes) => self.execute_equals(&param_modes),
            OpCode::Rbo(param_modes) => self.execute_adjust_relative_base(&param_modes),
            OpCode::In(param_modes) => self.execute_input(&param_modes),
            OpCode::Out(param_modes) => self.execute_output(&param_modes),
            OpCode::Halt => {
                let v = self.tape.read(0);
                StepExec::Halt(v)
            },
            OpCode::Er(_) => StepExec::Fault(IntcodeMachineError::ExecutionFailure),
        }
    }

    /// One fetch-decode-execute step.
    fn step(&mut self) -> (r: StepExec)
        ensures
            matches_step(step_spec(old(self)@), r, final(self)@),
    {
        if self.head_position > usize::MAX - 4 {
            return StepExec::Fault(IntcodeMachineError::TapeOutOfBoundsError);
        }
        let w = self.tape.read(self.head_position);
        let op = OpCode::from(w);
        self.execute_op(op, Ghost(w))
    }

    /// Drives the fetch-decode-execute loop until the program halts with
    /// the value at tape address 0, suspends awaiting input, or faults.
    /// The outcome and the machine's final state are exactly what some
    /// number of iterations of the step relation yields from the starting
    /// configuration.
    pub fn run(&mut self) -> (r: RunOutcome)
        ensures
            (match r {
                RunOutcome::Halted(v) => exists|n: nat|
                    #[trigger] run_from(old(self)@, n) == RunSpec::Halted(v, final(self)@),
                RunOutcome::Suspended(st) => st@ == core_view(final(self)@) && exists|n: nat|
                    #[trigger] run_from(old(self)@, n) == RunSpec::Suspended(final(self)@),
                RunOutcome::Faulted(e) => exists|n: nat|
                    #[trigger] run_from(old(self)@, n) == RunSpec::Faulted(e, final(self)@),
                RunOutcome::StepLimitReached => run_from(old(self)@, u64::MAX as nat)
                    == RunSpec::Pending(final(self)@),
            }),
    {
        let ghost init = old(self)@;
        let mut budget: u64 = u64::MAX;
        let ghost mut steps: nat = 0;
        proof {
            assert(run_from(init, 0) == RunSpec::Pending(init));
        }
        loop
            invariant
                init == old(self)@,
                run_from(init, steps) == RunSpec::Pending(self@),
                steps + budget == u64::MAX as nat,
            decreases budget,
        {
            if budget == 0 {
                return RunOutcome::StepLimitReached;
            }
            let sr = self.step();
            proof {
                lemma_run_from_step(init, steps);
                steps = steps + 1;
            }
            budget = budget - 1;
            match sr {
                StepExec::Continue => {},
                StepExec::Halt(v) => {
                    return RunOutcome::Halted(v);
                },
                StepExec::Suspend => {
                    let st = self.dump_state();
                    return RunOutcome::Suspended(st);
                },
                StepExec::Fault(e) => {
                    return RunOutcome::Faulted(e);
                },
            }
        }
    }
}


/// Suspension is non-destructive: whenever a step suspends, the suspended
/// configuration is exactly the configuration the step started from, so a
/// machine resumed from the snapshot re-attempts the same input
/// instruction with nothing consumed and nothing written.
pub proof fn lemma_suspension_is_untouched(m: MachineView)
    ensures
        (match step_spec(m) {
            StepSpec::Suspended(m2) => m2 == m,
            _ => true,
        }),
{
    if m.head <= usize::MAX - 4 {
        let w = tape_read_spec(m.tape, m.head);
        if m.head < m.tape.len() {
            assert(with_tape(m, tape_grow_spec(m.tape, m.head)) =~= m);
        } else {
            // Beyond the stored cells the fetched word is zero, which is
            // not a valid instruction; the step faults rather than
            // suspends.
            assert(w == 0);
            assert(!crate::opcode::is_valid_instr(0));
        }
    }
}

/// The day-2 style tape preparation: the program with its "noun" and
/// "verb" cells (addresses 1 and 2) replaced by the given pair.
pub fn prepare_tape(input_tape: Vec<i64>, subs: (i64, i64)) -> (r: Vec<i64>)
    requires
        input_tape@.len() >= 3,
    ensures
        r@ == input_tape@.update(1, subs.0).update(2, subs.1),
{
    let mut t = input_tape;
    t.set(1, subs.0);
    t.set(2, subs.1);
    t
}

} // verus!
