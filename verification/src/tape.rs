//! The machine's flat, growable memory: a zero-indexed sequence of signed
//! integers that is logically infinite — reads and writes beyond the
//! current length first zero-extend the tape so the address becomes valid.

use vstd::prelude::*;

use crate::opcode::ParamMode;

verus! {

/// What can go wrong when the tape resolves an address: a negative (or
/// unaddressable) resolved address on a read or a write, or an attempt to
/// use immediate mode as a write destination.
#[derive(Clone, Copy, Debug, PartialEq, Eq, Structural)]
pub enum TapeError {
    ReadOutOfRangeError,
    WriteOutOfRangeError,
    WriteInImmediateModeError,
}

/// What reading address `a` yields: the stored value within bounds, zero
/// in the logically infinite zero-filled tail.
pub open spec fn tape_read_spec(t: Seq<i64>, a: nat) -> i64 {
    if a < t.len() {
        t[a as int]
    } else {
        0
    }
}

/// The tape after growing, if needed, so that address `a` is valid.
pub open spec fn tape_grow_spec(t: Seq<i64>, a: nat) -> Seq<i64> {
    if a < t.len() {
        t
    } else {
        t + Seq::new((a + 1 - t.len()) as nat, |i: int| 0i64)
    }
}

/// The tape after writing `v` at address `a`, growing first if needed.
pub open spec fn tape_write_spec(t: Seq<i64>, a: nat, v: i64) -> Seq<i64> {
    tape_grow_spec(t, a).update(a as int, v)
}

/// Growing the tape changes no read: every address yields the same value
/// before and after.
pub proof fn lemma_grow_preserves_reads(t: Seq<i64>, a: nat)
    ensures
        tape_grow_spec(t, a).len() > a,
        tape_grow_spec(t, a).len() >= t.len(),
        forall|b: nat| tape_read_spec(tape_grow_spec(t, a), b) == tape_read_spec(t, b),
{
    let g = tape_grow_spec(t, a);
    assert forall|b: nat| tape_read_spec(g, b) == tape_read_spec(t, b) by {
        if b < t.len() {
            assert(g[b as int] == t[b as int]);
        } else if b < g.len() {
            assert(g[b as int] == 0);
        }
    }
}

/// Growable-tape law: after writing `v` at any address `a`, reading `a`
/// yields `v` back; every other address is unchanged — in particular, a
/// previously-unwritten address in the grown region still reads as zero.
pub proof fn lemma_tape_write_read(t: Seq<i64>, a: nat, v: i64)
    ensures
        tape_read_spec(tape_write_spec(t, a, v), a) == v,
        forall|b: nat|
            b != a ==> tape_read_spec(tape_write_spec(t, a, v), b) == tape_read_spec(t, b),
{
    lemma_grow_preserves_reads(t, a);
    let w = tape_write_spec(t, a, v);
    assert forall|b: nat|
        b != a implies tape_read_spec(w, b) == tape_read_spec(t, b) by {
        if b < w.len() {
            assert(w[b as int] == tape_grow_spec(t, a)[b as int]);
        }
    }
}

/// The result of a mode-resolved read: the tape as grown by the accesses,
/// and the value read, or the address error.
pub open spec fn spec_mode_read(t: Seq<i64>, pos: nat, rb: int, m: ParamMode) -> (
    Seq<i64>,
    Result<i64, TapeError>,
) {
    let lit = tape_read_spec(t, pos);
    let t1 = tape_grow_spec(t, pos);
    match m {
        ParamMode::Immediate => (t1, Ok(lit)),
        ParamMode::Position => {
            if lit < 0 || lit >= usize::MAX {
                (t1, Err(TapeError::ReadOutOfRangeError))
            } else {
                (tape_grow_spec(t1, lit as nat), Ok(tape_read_spec(t1, lit as nat)))
            }
        },
        ParamMode::Relative => {
            let a = lit + rb;
            if a < 0 || a >= usize::MAX {
                (t1, Err(TapeError::ReadOutOfRangeError))
            } else {
                (tape_grow_spec(t1, a as nat), Ok(tape_read_spec(t1, a as nat)))
            }
        },
    }
}

/// The result of a mode-resolved write: the tape afterwards, or the error.
/// Immediate mode is never a legal write destination and leaves the tape
/// untouched.
pub open spec fn spec_mode_write(t: Seq<i64>, pos: nat, rb: int, m: ParamMode, v: i64) -> (
    Seq<i64>,
    Result<(), TapeError>,
) {
    match m {
        ParamMode::Immediate => (t, Err(TapeError::WriteInImmediateModeError)),
        ParamMode::Position => {
            let lit = tape_read_spec(t, pos);
            let t1 = tape_grow_spec(t, pos);
            if lit < 0 || lit >= usize::MAX {
                (t1, Err(TapeError::WriteOutOfRangeError))
            } else {
                (tape_write_spec(t1, lit as nat, v), Ok(()))
            }
        },
        ParamMode::Relative => {
            let lit = tape_read_spec(t, pos);
            let t1 = tape_grow_spec(t, pos);
            let a = lit + rb;
            if a < 0 || a >= usize::MAX {
                (t1, Err(TapeError::WriteOutOfRangeError))
            } else {
                (tape_write_spec(t1, a as nat, v), Ok(()))
            }
        },
    }
}

/// The machine's memory, owned by one machine at a time; cloning forks an
/// independent copy.
#[derive(Debug)]
pub struct Tape {
    cells: Vec<i64>,
}

impl Clone for Tape {
    /// A clone holds exactly the same cells.
    fn clone(&self) -> (r: Tape)
        ensures
            r@ == self@,
    {
        let cells = self.cells.clone();
        proof {
            assert(cells@ =~= self.cells@);
        }
        Tape { cells }
    }
}

impl View for Tape {
    type V = Seq<i64>;

    closed spec fn view(&self) -> Seq<i64> {
        self.cells@
    }
}

impl Tape {
    /// Wraps a program listing as the machine's initial memory.
    pub fn new(input: Vec<i64>) -> (r: Tape)
        ensures
            r@ == input@,
    {
        Tape { cells: input }
    }

    /// Zero-extends the tape to at least `lower_bound` cells; a bound not
    /// above the current length leaves the tape unchanged.
    pub fn resize(&mut self, lower_bound: usize)
        ensures
            final(self)@ == (if lower_bound <= old(self)@.len() {
                old(self)@
            } else {
                old(self)@ + Seq::new((lower_bound - old(self)@.len()) as nat, |i: int| 0i64)
            }),
    {
        if self.cells.len() < lower_bound {
            self.cells.resize(lower_bound, 0);
            proof {
                assert(self.cells@ =~= old(self)@ + Seq::new(
                    (lower_bound - old(self)@.len()) as nat,
                    |i: int| 0i64,
                ));
            }
        }
    }

    pub fn len(&self) -> (r: usize)
        ensures
            r == self@.len(),
    {
        self.cells.len()
    }

    /// Stores `v` at address `position`, zero-extending first if the
    /// address lies beyond the current length. Always succeeds for any
    /// address the machine can represent.
    pub fn write(&mut self, position: usize, value: i64)
        requires
            position < usize::MAX,
        ensures
            final(self)@ == tape_write_spec(old(self)@, position as nat, value),
    {
        if self.cells.len() <= position {
            self.resize(position + 1);
        }
        proof {
            assert(self.cells@ =~= tape_grow_spec(old(self)@, position as nat));
        }
        self.cells.set(position, value);
    }

    /// Reads the value at address `position`, zero-extending first if the
    /// address lies beyond the current length; the freshly grown region
    /// reads as zero. Always succeeds for any address the machine can
    /// represent.
    pub fn read(&mut self, position: usize) -> (r: i64)
        requires
            position < usize::MAX,
        ensures
            r == tape_read_spec(old(self)@, position as nat),
            final(self)@ == tape_grow_spec(old(self)@, position as nat),
    {
        if self.cells.len() <= position {
            self.resize(position + 1);
        }
        proof {
            assert(self.cells@ =~= tape_grow_spec(old(self)@, position as nat));
        }
        self.cells[position]
    }

    /// Reads the literal at `position` and resolves it per `param_mode`:
    /// position mode dereferences it, relative mode dereferences it offset
    /// by `relative_base`, immediate mode returns it as is. A negative (or
    /// unaddressable) resolved address is the error.
    pub fn mode_read(&mut self, position: usize, relative_base: i64, param_mode: ParamMode) -> (r:
        Result<i64, TapeError>)
        requires
            position < usize::MAX,
        ensures
            (final(self)@, r) == spec_mode_read(
                old(self)@,
                position as nat,
                relative_base as int,
                param_mode,
            ),
    {
        let literal_value = self.read(position);
        match param_mode {
            ParamMode::Immediate => Ok(literal_value),
            ParamMode::Position => {
                if literal_value < 0 {
                    Err(TapeError::ReadOutOfRangeError)
                } else if literal_value as u128 >= usize::MAX as u128 {
                    Err(TapeError::ReadOutOfRangeError)
                } else {
                    Ok(self.read(literal_value as usize))
                }
            },
            ParamMode::Relative => {
                let a: i128 = literal_value as i128 + relative_base as i128;
                if a < 0 || a >= usize::MAX as i128 {
                    Err(TapeError::ReadOutOfRangeError)
                } else {
                    Ok(self.read(a as usize))
                }
            },
        }
    }

    /// Reads the literal at `position` and writes `value` at the address
    /// it resolves to per `param_mode`. Immediate mode is never a legal
    /// write destination; a negative (or unaddressable) resolved address
    /// is the other error.
    pub fn mode_write(
        &mut self,
        position: usize,
        relative_base: i64,
        param_mode: ParamMode,
        value: i64,
    ) -> (r: Result<(), TapeError>)
        requires
            position < usize::MAX,
        ensures
            (final(self)@, r) == spec_mode_write(
                old(self)@,
                position as nat,
                relative_base as int,
                param_mode,
                value,
            ),
    {
        match param_mode {
            ParamMode::Immediate => Err(TapeError::WriteInImmediateModeError),
            ParamMode::Position => {
                let literal_value = self.read(position);
                if literal_value < 0 {
                    Err(TapeError::WriteOutOfRangeError)
                } else if literal_value as u128 >= usize::MAX as u128 {
                    Err(TapeError::WriteOutOfRangeError)
                } else {
                    self.write(literal_value as usize, value);
                    Ok(())
                }
            },
            ParamMode::Relative => {
                let literal_value = self.read(position);
                let a: i128 = literal_value as i128 + relative_base as i128;
                if a < 0 || a >= usize::MAX as i128 {
                    Err(TapeError::WriteOutOfRangeError)
                } else {
                    self.write(a as usize, value);
                    Ok(())
                }
            },
        }
    }
}

} // verus!
