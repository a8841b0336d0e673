//! Instruction words: the two low decimal digits select the operation, the
//! remaining digits give one addressing mode per parameter, most
//! significant digit belonging to the last parameter; missing digits
//! default to position mode.

use vstd::prelude::*;

verus! {

/// How one instruction parameter is interpreted: as an address, as a
/// literal, or as an offset from the machine's relative base.
#[derive(Clone, Copy, Debug, PartialEq, Eq, Structural)]
pub enum ParamMode {
    Position,
    Immediate,
    Relative,
}

/// A decoded instruction: an operation together with the addressing mode
/// of each of its parameters, or `Er` carrying an instruction word that
/// does not decode.
#[derive(Clone, Debug)]
pub enum OpCode {
    Add(Vec<ParamMode>),
    Mul(Vec<ParamMode>),
    In(Vec<ParamMode>),
    Out(Vec<ParamMode>),
    Jt(Vec<ParamMode>),
    Jf(Vec<ParamMode>),
    Lt(Vec<ParamMode>),
    Eq(Vec<ParamMode>),
    Rbo(Vec<ParamMode>),
    Halt,
    Er(i64),
}

/// The operation numbers the machine knows.
pub open spec fn known_op(op: int) -> bool {
    op == 1 || op == 2 || op == 3 || op == 4 || op == 5 || op == 6 || op == 7 || op == 8 || op == 9
        || op == 99
}

/// How many parameters each operation takes.
pub open spec fn op_arity(op: int) -> nat {
    if op == 1 || op == 2 || op == 7 || op == 8 {
        3
    } else if op == 5 || op == 6 {
        2
    } else if op == 3 || op == 4 || op == 9 {
        1
    } else {
        0
    }
}

pub open spec fn pow10(n: nat) -> nat
    decreases n,
{
    if n == 0 {
        1
    } else {
        10 * pow10((n - 1) as nat)
    }
}

pub proof fn lemma_pow10_pos(n: nat)
    ensures
        pow10(n) >= 1,
    decreases n,
{
    if n > 0 {
        lemma_pow10_pos((n - 1) as nat);
    }
}

/// The decimal digit of instruction word `w` that gives the mode of
/// parameter `k` (counted from zero).
pub open spec fn mode_digit(w: int, k: int) -> int {
    (w / (100 * pow10(k as nat) as int)) % 10
}

/// The mode a digit denotes; meaningful for digits 0, 1 and 2 only.
pub open spec fn spec_mode(d: int) -> ParamMode {
    if d == 0 {
        ParamMode::Position
    } else if d == 1 {
        ParamMode::Immediate
    } else {
        ParamMode::Relative
    }
}

/// Every mode digit that the operation's arity asks for is 0, 1 or 2.
pub open spec fn modes_ok(w: int, n: nat) -> bool {
    forall|k: int| 0 <= k < n ==> 0 <= #[trigger] mode_digit(w, k) <= 2
}

/// A word decodes iff it is non-negative, its low two digits name a known
/// operation, and all the mode digits the operation needs are 0, 1 or 2.
pub open spec fn is_valid_instr(w: int) -> bool {
    w >= 0 && known_op(w % 100) && modes_ok(w, op_arity(w % 100))
}

/// The addressing modes of a word's first `n` parameters, in order.
pub open spec fn spec_modes(w: int, n: nat) -> Seq<ParamMode> {
    Seq::new(n, |k: int| spec_mode(mode_digit(w, k)))
}

/// What decoding relates an instruction word to.
pub open spec fn decodes_to(w: int, r: OpCode) -> bool {
    if is_valid_instr(w) {
        {
            let ms = spec_modes(w, op_arity(w % 100));
            match r {
                OpCode::Add(m) => w % 100 == 1 && m@ == ms,
                OpCode::Mul(m) => w % 100 == 2 && m@ == ms,
                OpCode::In(m) => w % 100 == 3 && m@ == ms,
                OpCode::Out(m) => w % 100 == 4 && m@ == ms,
                OpCode::Jt(m) => w % 100 == 5 && m@ == ms,
                OpCode::Jf(m) => w % 100 == 6 && m@ == ms,
                OpCode::Lt(m) => w % 100 == 7 && m@ == ms,
                OpCode::Eq(m) => w % 100 == 8 && m@ == ms,
                OpCode::Rbo(m) => w % 100 == 9 && m@ == ms,
                OpCode::Halt => w % 100 == 99,
                OpCode::Er(_) => false,
            }
        }
    } else {
        r == OpCode::Er(w as i64)
    }
}

impl OpCode {
    /// Decodes an instruction word. A negative word, an unknown operation
    /// number, or a mode digit other than 0, 1 or 2 yields `Er`.
    pub fn from(code: i64) -> (r: OpCode)
        ensures
            decodes_to(code as int, r),
    {
        if code < 0 {
            return OpCode::Er(code);
        }
        let op = code % 100;
        let arity: usize = if op == 1 || op == 2 || op == 7 || op == 8 {
            3
        } else if op == 5 || op == 6 {
            2
        } else if op == 3 || op == 4 || op == 9 {
            1
        } else if op == 99 {
            0
        } else {
            return OpCode::Er(code);
        };
        let mut modes: Vec<ParamMode> = Vec::new();
        let mut rest: i64 = code / 100;
        let mut k: usize = 0;
        proof {
            assert(pow10(0) == 1);
            assert(modes@ =~= spec_modes(code as int, 0));
        }
        while k < arity
            invariant
                k <= arity,
                arity == op_arity(code as int % 100),
                code >= 0,
                rest == (code as int) / (100 * pow10(k as nat) as int),
                modes@ == spec_modes(code as int, k as nat),
                modes_ok(code as int, k as nat),
            decreases arity - k,
        {
            let d: i64 = rest % 10;
            proof {
                lemma_pow10_pos(k as nat);
                assert(100 * pow10(k as nat) as int > 0);
                vstd::arithmetic::div_mod::lemma_div_pos_is_pos(code as int, 100 * pow10(
                    k as nat,
                ) as int);
                assert(d == mode_digit(code as int, k as int));
            }
            if d > 2 {
                proof {
                    assert(!modes_ok(code as int, op_arity(code as int % 100)));
                }
                return OpCode::Er(code);
            }
            let m: ParamMode = if d == 0 {
                ParamMode::Position
            } else if d == 1 {
                ParamMode::Immediate
            } else {
                ParamMode::Relative
            };
            modes.push(m);
            proof {
                assert(modes@ =~= spec_modes(code as int, (k + 1) as nat));
                vstd::arithmetic::div_mod::lemma_div_denominator(
                    code as int,
                    100 * pow10(k as nat) as int,
                    10,
                );
                assert(100 * pow10(k as nat) as int * 10 == 100 * pow10((k + 1) as nat) as int);
            }
            rest = rest / 10;
            k = k + 1;
        }
        if op == 1 {
            OpCode::Add(modes)
        } else if op == 2 {
            OpCode::Mul(modes)
        } else if op == 3 {
            OpCode::In(modes)
        } else if op == 4 {
            OpCode::Out(modes)
        } else if op == 5 {
            OpCode::Jt(modes)
        } else if op == 6 {
            OpCode::Jf(modes)
        } else if op == 7 {
            OpCode::Lt(modes)
        } else if op == 8 {
            OpCode::Eq(modes)
        } else if op == 9 {
            OpCode::Rbo(modes)
        } else {
            OpCode::Halt
        }
    }
}

} // verus!
