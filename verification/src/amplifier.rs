//! Amplifier chains: the same program runs on five machines, each fed a
//! phase setting and the previous machine's output signal; in feedback
//! arrangements the machines suspend on input starvation and are resumed
//! from snapshots as signals come round again.

use vstd::prelude::*;

use crate::machine::{
    core_view, run_from, CoreView, IntcodeMachine, MachineView, RunOutcome, RunSpec, State,
};
use crate::tape::Tape;
use crate::text::{dec_bytes, last_line_value, push_decimal, spec_last_line_value, NEWLINE};

verus! {

/// The text an amplifier is fed: its phase setting and the incoming
/// signal, one decimal line each.
pub open spec fn amp_input(phase: i64, signal: i64) -> Seq<u8> {
    dec_bytes(phase as int) + seq![NEWLINE] + dec_bytes(signal as int) + seq![NEWLINE]
}

/// A machine freshly bound to a tape and an input text, with no output
/// written yet.
pub open spec fn fresh_machine(tape: Seq<i64>, input: Seq<u8>) -> MachineView {
    MachineView { tape: tape, head: 0, rel_base: 0, input: input, in_pos: 0, output: Seq::empty() }
}

/// The snapshot of a machine that never ran: an empty tape, pointer and
/// base at zero.
pub open spec fn blank_core() -> CoreView {
    CoreView { tape: Seq::empty(), head: 0, rel_base: 0 }
}

/// One amplifier pass from `start`: after some number of steps the
/// machine halts or suspends awaiting more input, the last line it wrote
/// reads as `sig`, and `snap` is the suspended configuration — or
/// `fallback` where it halted and no snapshot is needed.
pub open spec fn amp_pass(start: MachineView, sig: i64, snap: CoreView, fallback: CoreView) -> bool {
    exists|n: nat|
        (match #[trigger] run_from(start, n) {
            RunSpec::Halted(v, fin) => snap == fallback && spec_last_line_value(fin.output)
                == Some(sig),
            RunSpec::Suspended(fin) => snap == core_view(fin) && spec_last_line_value(fin.output)
                == Some(sig),
            _ => false,
        })
}

/// A straight run of the whole chain over copies of one tape: signal 0
/// enters the first amplifier, and each amplifier, fed its phase and the
/// signal so far, produces the next signal and leaves the snapshot
/// recorded for it.
pub open spec fn chain_pass(
    tape: Seq<i64>,
    phases: Seq<i64>,
    sigs: Seq<i64>,
    snaps: Seq<CoreView>,
    fallback: CoreView,
) -> bool {
    &&& sigs.len() == phases.len() + 1
    &&& snaps.len() == phases.len()
    &&& sigs[0] == 0
    &&& forall|k: int|
        0 <= k < phases.len() ==> amp_pass(
            fresh_machine(tape, amp_input(phases[k], #[trigger] sigs[k])),
            sigs[k + 1],
            snaps[k],
            fallback,
        )
}

/// A machine resumed from a snapshot on one line of input: the snapshot's
/// tape, pointer and base, fresh input holding the signal, no output yet.
pub open spec fn resumed_machine(core: CoreView, sig: i64) -> MachineView {
    MachineView {
        tape: core.tape,
        head: core.head,
        rel_base: core.rel_base,
        input: dec_bytes(sig as int) + seq![NEWLINE],
        in_pos: 0,
        output: Seq::empty(),
    }
}

/// The amplifier the driver serves after `i`, going round the ring of
/// five.
pub open spec fn next_amp(i: int) -> int {
    if i == 4 {
        0
    } else {
        i + 1
    }
}

/// The feedback driver, resuming amplifier `i` on signal `sig` with the
/// snapshots `cores`, reaches the thruster signal `result` within `rounds`
/// resumptions: each round runs one machine to a halt or a suspension and
/// reads its last output line as the next signal; the run ends when the
/// last amplifier halts.
pub open spec fn feedback_reaches(
    sig: i64,
    cores: Seq<CoreView>,
    i: int,
    result: i64,
    rounds: nat,
) -> bool
    decreases rounds,
{
    rounds > 0 && 0 <= i < cores.len() && exists|n: nat|
        (match #[trigger] run_from(resumed_machine(cores[i], sig), n) {
            RunSpec::Halted(v, fin) => (match spec_last_line_value(fin.output) {
                Some(sig2) => (if i == 4 {
                    result == sig2
                } else {
                    feedback_reaches(sig2, cores, next_amp(i), result, (rounds - 1) as nat)
                }),
                None => false,
            }),
            RunSpec::Suspended(fin) => (match spec_last_line_value(fin.output) {
                Some(sig2) => feedback_reaches(
                    sig2,
                    cores.update(i, core_view(fin)),
                    next_amp(i),
                    result,
                    (rounds - 1) as nat,
                ),
                None => false,
            }),
            _ => false,
        })
}

/// Some straight run of the chain with these phases over this tape ends
/// with the signal `v`.
pub open spec fn straight_signal(tape: Seq<i64>, phases: Seq<i64>, v: i64) -> bool {
    exists|sigs: Seq<i64>, snaps: Seq<CoreView>|
        #![auto]
        chain_pass(tape, phases, sigs, snaps, blank_core()) && sigs.last() == v
}

/// Some feedback run of the chain with these phases over this tape ends
/// with the thruster signal `v`.
pub open spec fn feedback_signal(tape: Seq<i64>, phases: Seq<i64>, v: i64) -> bool {
    exists|sigs: Seq<i64>, snaps: Seq<CoreView>, rounds: nat|
        #![auto]
        chain_pass(tape, phases, sigs, snaps, blank_core()) && feedback_reaches(
            sigs.last(),
            snaps,
            0,
            v,
            rounds,
        )
}

/// One phase setting per amplifier in the chain.
pub struct AmplifierPhaseSequence {
    phases: Vec<i64>,
}

impl AmplifierPhaseSequence {
    pub closed spec fn spec_phases(&self) -> Seq<i64> {
        self.phases@
    }

    /// A chain of exactly five phase settings.
    pub fn new(v: Vec<i64>) -> (r: AmplifierPhaseSequence)
        requires
            v@.len() == 5,
        ensures
            r.spec_phases() == v@,
    {
        AmplifierPhaseSequence { phases: v }
    }

    /// Runs each amplifier once over a copy of the tape, feeding it its
    /// phase and the previous signal, and keeps the snapshot of any
    /// amplifier that suspended awaiting more input. `None` when a machine
    /// faults or produces no readable signal; otherwise the signal and the
    /// snapshots are exactly those of a straight chain run.
    pub fn test_sequence_with_state_dump(&self, tape: Tape) -> (r: Option<(i64, Vec<State>)>)
        requires
            self.spec_phases().len() == 5,
        ensures
            (match r {
                Some((sig, states)) => states@.len() == 5 && exists|sigs: Seq<i64>|
                    #![auto]
                    chain_pass(
                        tape@,
                        self.spec_phases(),
                        sigs,
                        states@.map_values(|s: State| s@),
                        blank_core(),
                    ) && sigs.last() == sig,
                None => true,
            }),
    {
        let ghost phases = self.spec_phases();
        let mut output_signal: i64 = 0;
        let mut amp_states: Vec<State> = Vec::new();
        let mut k: usize = 0;
        while k < 5
            invariant
                amp_states@.len() == k,
                k <= 5,
                forall|t: int| 0 <= t < k ==> (#[trigger] amp_states@[t])@ == blank_core(),
            decreases 5 - k,
        {
            let st = State::default();
            proof {
                assert(st@ =~= blank_core());
            }
            amp_states.push(st);
            k = k + 1;
        }
        let mut i: usize = 0;
        let ghost mut sigs: Seq<i64> = seq![0i64];
        while i < 5
            invariant
                i <= 5,
                phases == self.spec_phases(),
                phases.len() == 5,
                amp_states@.len() == 5,
                sigs.len() == i + 1,
                sigs[0] == 0,
                sigs.last() == output_signal,
                forall|t: int| i <= t < 5 ==> (#[trigger] amp_states@[t])@ == blank_core(),
                forall|k: int|
                    0 <= k < i ==> amp_pass(
                        fresh_machine(tape@, amp_input(phases[k], #[trigger] sigs[k])),
                        sigs[k + 1],
                        amp_states@.map_values(|s: State| s@)[k],
                        blank_core(),
                    ),
            decreases 5 - i,
        {
            let mut input: Vec<u8> = Vec::new();
            push_decimal(&mut input, self.phases[i]);
            input.push(NEWLINE);
            push_decimal(&mut input, output_signal);
            input.push(NEWLINE);
            proof {
                assert(input@ =~= amp_input(phases[i as int], output_signal));
            }
            let mut m = IntcodeMachine::new(tape.clone(), input, Vec::new());
            let ghost start = m@;
            proof {
                assert(start =~= fresh_machine(tape@, amp_input(phases[i as int], output_signal)));
            }
            let ghost pre_states = amp_states@;
            let outcome = m.run();
            let ghost halted = outcome is Halted;
            let ghost mut halted_val: i64 = 0;
            match outcome {
                RunOutcome::Halted(v) => {
                    proof {
                        halted_val = v;
                    }
                },
                RunOutcome::Suspended(state) => {
                    amp_states.set(i, state);
                },
                _ => {
                    return None;
                },
            }
            let new_signal = match last_line_value(m.output_bytes()) {
                Some(v) => v,
                None => {
                    return None;
                },
            };
            proof {
                let snaps = amp_states@.map_values(|s: State| s@);
                if halted {
                    let n = choose|n: nat|
                        #[trigger] run_from(start, n) == RunSpec::Halted(halted_val, m@);
                    assert(amp_states@ =~= pre_states);
                    assert(snaps[i as int] == blank_core());
                    assert(match run_from(start, n) {
                        RunSpec::Halted(v, fin) => snaps[i as int] == blank_core()
                            && spec_last_line_value(fin.output) == Some(new_signal),
                        _ => false,
                    });
                } else {
                    let n = choose|n: nat|
                        #![auto]
                        run_from(start, n) == RunSpec::Suspended(m@);
                    assert(snaps[i as int] == core_view(m@));
                    assert(match run_from(start, n) {
                        RunSpec::Suspended(fin) => snaps[i as int] == core_view(fin)
                            && spec_last_line_value(fin.output) == Some(new_signal),
                        _ => false,
                    });
                }
                assert(amp_pass(
                    fresh_machine(tape@, amp_input(phases[i as int], output_signal)),
                    new_signal,
                    snaps[i as int],
                    blank_core(),
                ));
                let old_sigs = sigs;
                sigs = sigs.push(new_signal);
                assert forall|k: int|
                    0 <= k < i + 1 implies amp_pass(
                    fresh_machine(tape@, amp_input(phases[k], #[trigger] sigs[k])),
                    sigs[k + 1],
                    snaps[k],
                    blank_core(),
                ) by {
                    if k < i {
                        assert(sigs[k] == old_sigs[k]);
                        assert(sigs[k + 1] == old_sigs[k + 1]);
                        assert(snaps[k] == pre_states.map_values(|s: State| s@)[k]);
                        assert(amp_pass(
                            fresh_machine(tape@, amp_input(phases[k], old_sigs[k])),
                            old_sigs[k + 1],
                            pre_states.map_values(|s: State| s@)[k],
                            blank_core(),
                        ));
                    } else {
                        assert(sigs[k] == output_signal);
                        assert(sigs[k + 1] == new_signal);
                    }
                }
            }
            output_signal = new_signal;
            i = i + 1;
        }
        proof {
            assert(chain_pass(
                tape@,
                phases,
                sigs,
                amp_states@.map_values(|s: State| s@),
                blank_core(),
            ));
        }
        Some((output_signal, amp_states))
    }

    /// The thruster signal of one straight-through run of the chain: the
    /// signal the last amplifier hands out after each was run once.
    pub fn test_sequence(&self, tape: Tape) -> (r: Option<i64>)
        requires
            self.spec_phases().len() == 5,
        ensures
            (match r {
                Some(sig) => straight_signal(tape@, self.spec_phases(), sig),
                None => true,
            }),
    {
        match self.test_sequence_with_state_dump(tape) {
            Some((output_signal, _)) => Some(output_signal),
            None => None,
        }
    }

    /// The thruster signal of a feedback run: after the straight first
    /// pass, the suspended amplifiers are resumed round-robin on the
    /// latest signal until the last amplifier halts; that last signal is
    /// the result. `None` when a machine faults, produces no readable
    /// signal, or the run outlives the driver's step budget.
    #[verifier::rlimit(60)]
    pub fn test_feedback_sequence(&self, tape: Tape) -> (r: Option<i64>)
        requires
            self.spec_phases().len() == 5,
        ensures
            (match r {
                Some(sig) => feedback_signal(tape@, self.spec_phases(), sig),
                None => true,
            }),
    {
        let (first_signal, states) = match self.test_sequence_with_state_dump(tape) {
            Some(x) => x,
            None => {
                return None;
            },
        };
        let ghost first_sigs: Seq<i64> = choose|sigs: Seq<i64>|
            #![auto]
            chain_pass(
                tape@,
                self.spec_phases(),
                sigs,
                states@.map_values(|s: State| s@),
                blank_core(),
            ) && sigs.last() == first_signal;
        let ghost init_cores = states@.map_values(|s: State| s@);
        proof {
            assert(chain_pass(tape@, self.spec_phases(), first_sigs, init_cores, blank_core()));
            assert(first_sigs.last() == first_signal);
        }
        let mut output_signal = first_signal;
        let mut amp_states = states;
        let ghost mut cores_now = init_cores;
        let mut i: usize = 0;
        let mut budget: u64 = u64::MAX;
        while budget > 0
            invariant
                i < 5,
                amp_states@.len() == 5,
                init_cores.len() == 5,
                chain_pass(tape@, self.spec_phases(), first_sigs, init_cores, blank_core()),
                first_sigs.last() == first_signal,
                cores_now == amp_states@.map_values(|s: State| s@),
                forall|result: i64, rounds: nat|
                    #[trigger] feedback_reaches(output_signal, cores_now, i as int, result, rounds)
                        ==> exists|r2: nat|
                        #[trigger] feedback_reaches(first_signal, init_cores, 0, result, r2),
            decreases budget,
        {
            budget = budget - 1;
            let ghost cur_sig = output_signal;
            let ghost cur_cores = cores_now;
            let mut input: Vec<u8> = Vec::new();
            push_decimal(&mut input, output_signal);
            input.push(NEWLINE);
            let st = amp_states[i].clone();
            let mut m = IntcodeMachine::load_state(st, input, Vec::new());
            proof {
                assert(m@ =~= resumed_machine(cur_cores[i as int], cur_sig));
            }
            let ghost start = m@;
            let outcome = m.run();
            let ghost halted = outcome is Halted;
            let ghost mut halted_val: i64 = 0;
            let ghost mut sus_fin = start;
            match &outcome {
                RunOutcome::Halted(v) => {
                    proof {
                        halted_val = *v;
                    }
                },
                RunOutcome::Suspended(_) => {
                    proof {
                        sus_fin = m@;
                    }
                },
                _ => {
                    return None;
                },
            }
            let new_signal = match last_line_value(m.output_bytes()) {
                Some(v) => v,
                None => {
                    return None;
                },
            };
            let ghost witness_n: nat = (if halted {
                choose|n: nat| #[trigger] run_from(start, n) == RunSpec::Halted(halted_val, m@)
            } else {
                choose|n: nat| #[trigger] run_from(start, n) == RunSpec::Suspended(m@)
            });
            match outcome {
                RunOutcome::Halted(_) => {
                    if i == 4 {
                        proof {
                            assert(run_from(start, witness_n) == RunSpec::Halted(
                                halted_val,
                                m@,
                            ));
                            assert(feedback_reaches(cur_sig, cur_cores, 4, new_signal, 1));
                            let r2 = choose|r2: nat|
                                #[trigger] feedback_reaches(
                                    first_signal,
                                    init_cores,
                                    0,
                                    new_signal,
                                    r2,
                                );
                            assert(chain_pass(
                                tape@,
                                self.spec_phases(),
                                first_sigs,
                                init_cores,
                                blank_core(),
                            ));
                            assert(first_sigs.last() == first_signal);
                            assert(feedback_reaches(first_sigs.last(), init_cores, 0, new_signal, r2));
                        }
                        return Some(new_signal);
                    }
                },
                RunOutcome::Suspended(state) => {
                    amp_states.set(i, state);
                    proof {
                        assert(amp_states@.map_values(|s: State| s@) =~= cur_cores.update(
                            i as int,
                            core_view(m@),
                        ));
                        cores_now = cur_cores.update(i as int, core_view(m@));
                    }
                },
                _ => {
                    proof {
                        assert(false);
                    }
                },
            }
            proof {
                let new_cores = cores_now;
                assert forall|result: i64, rounds: nat|
                    #[trigger] feedback_reaches(
                        new_signal,
                        new_cores,
                        next_amp(i as int),
                        result,
                        rounds,
                    ) implies exists|r2: nat|
                    #[trigger] feedback_reaches(first_signal, init_cores, 0, result, r2) by {
                    if halted {
                        assert(run_from(start, witness_n) == RunSpec::Halted(halted_val, m@));
                    } else {
                        assert(run_from(start, witness_n) == RunSpec::Suspended(m@));
                    }
                    assert(feedback_reaches(cur_sig, cur_cores, i as int, result, rounds + 1));
                    let r2 = choose|r2: nat|
                        #[trigger] feedback_reaches(first_signal, init_cores, 0, result, r2);
                    assert(feedback_reaches(first_signal, init_cores, 0, result, r2));
                }
            }
            output_signal = new_signal;
            i = (i + 1) % 5;
            proof {
                assert(i as int == next_amp((if i == 0 {
                    4int
                } else {
                    i - 1
                })));
            }
        }
        None
    }
}

/// Relies on permutohedron's `next_permutation` on slices: it rearranges
/// the elements in place into the lexicographically next permutation, and
/// returns false if the slice already was the last (weakly decreasing)
/// arrangement.
#[verifier::external_body]
fn next_permutation(v: &mut Vec<i64>) -> (r: bool)
    ensures
        final(v)@.len() == old(v)@.len(),
        final(v)@.to_multiset() == old(v)@.to_multiset(),
{
    permutohedron::LexicalPermutation::next_permutation(&mut v[..])
}

/// The seed and every arrangement that lexical stepping visits after it:
/// each one a rearrangement of the seed. Starting from a sorted seed this
/// visits every permutation.
pub fn permutations_from(seed: Vec<i64>) -> (r: Vec<Vec<i64>>)
    ensures
        r@.len() >= 1,
        forall|k: int|
            0 <= k < r@.len() ==> (#[trigger] r@[k])@.to_multiset() == seed@.to_multiset(),
        forall|k: int| 0 <= k < r@.len() ==> (#[trigger] r@[k])@.len() == seed@.len(),
{
    let ghost sm = seed@.to_multiset();
    let ghost sl = seed@.len();
    let mut perms: Vec<Vec<i64>> = Vec::new();
    let mut data = seed;
    let mut budget: u64 = u64::MAX;
    loop
        invariant_except_break
            data@.to_multiset() == sm,
            data@.len() == sl,
            forall|k: int| 0 <= k < perms@.len() ==> (#[trigger] perms@[k])@.to_multiset() == sm,
            forall|k: int| 0 <= k < perms@.len() ==> (#[trigger] perms@[k])@.len() == sl,
        ensures
            perms@.len() >= 1,
            forall|k: int| 0 <= k < perms@.len() ==> (#[trigger] perms@[k])@.to_multiset() == sm,
            forall|k: int| 0 <= k < perms@.len() ==> (#[trigger] perms@[k])@.len() == sl,
        decreases budget,
    {
        let c = data.clone();
        proof {
            assert(c@ =~= data@);
        }
        perms.push(c);
        // The lexical stepping of any real sequence ends long before the
        // budget does.
        if budget == 0 || !next_permutation(&mut data) {
            break ;
        }
        budget = budget - 1;
    }
    perms
}

/// The largest thruster signal any permutation of the five straight-run
/// phase settings (0 to 4) produces on the program; a returned signal is
/// one some rearrangement of those settings really produces.
pub fn max_thruster_signal(tape: &Tape) -> (r: Option<i64>)
    ensures
        (match r {
            Some(v) => exists|ph: Seq<i64>|
                #![auto]
                ph.to_multiset() == seq![0i64, 1i64, 2i64, 3i64, 4i64].to_multiset()
                    && straight_signal(tape@, ph, v),
            None => true,
        }),
{
    let mut seed: Vec<i64> = Vec::new();
    seed.push(0);
    seed.push(1);
    seed.push(2);
    seed.push(3);
    seed.push(4);
    proof {
        assert(seed@ =~= seq![0i64, 1i64, 2i64, 3i64, 4i64]);
    }
    let perms = permutations_from(seed);
    best_signal(tape, perms, false)
}

/// The largest thruster signal any permutation of the five feedback phase
/// settings (5 to 9) produces on the program; a returned signal is one
/// some rearrangement of those settings really produces.
pub fn max_feedback_signal(tape: &Tape) -> (r: Option<i64>)
    ensures
        (match r {
            Some(v) => exists|ph: Seq<i64>|
                #![auto]
                ph.to_multiset() == seq![5i64, 6i64, 7i64, 8i64, 9i64].to_multiset()
                    && feedback_signal(tape@, ph, v),
            None => true,
        }),
{
    let mut seed: Vec<i64> = Vec::new();
    seed.push(5);
    seed.push(6);
    seed.push(7);
    seed.push(8);
    seed.push(9);
    proof {
        assert(seed@ =~= seq![5i64, 6i64, 7i64, 8i64, 9i64]);
    }
    let perms = permutations_from(seed);
    best_signal(tape, perms, true)
}

/// The largest signal among the given phase arrangements; arrangements on
/// which the chain fails are skipped. A returned signal is one some listed
/// arrangement really produces.
fn best_signal(tape: &Tape, perms: Vec<Vec<i64>>, feedback: bool) -> (r: Option<i64>)
    requires
        forall|k: int| 0 <= k < perms@.len() ==> (#[trigger] perms@[k])@.len() == 5,
    ensures
        (match r {
            Some(v) => exists|k: int|
                0 <= k < perms@.len() && (if feedback {
                    feedback_signal(tape@, (#[trigger] perms@[k])@, v)
                } else {
                    straight_signal(tape@, perms@[k]@, v)
                }),
            None => true,
        }),
{
    let mut best: Option<i64> = None;
    let mut k: usize = 0;
    while k < perms.len()
        invariant
            k <= perms@.len(),
            forall|j: int| 0 <= j < perms@.len() ==> (#[trigger] perms@[j])@.len() == 5,
            (match best {
                Some(v) => exists|j: int|
                    0 <= j < perms@.len() && (if feedback {
                        feedback_signal(tape@, (#[trigger] perms@[j])@, v)
                    } else {
                        straight_signal(tape@, perms@[j]@, v)
                    }),
                None => true,
            }),
        decreases perms@.len() - k,
    {
        let phases = perms[k].clone();
        proof {
            assert(phases@ =~= perms@[k as int]@);
        }
        let amp_seq = AmplifierPhaseSequence::new(phases);
        let signal = if feedback {
            amp_seq.test_feedback_sequence(tape.clone())
        } else {
            amp_seq.test_sequence(tape.clone())
        };
        match signal {
            None => {},
            Some(v) => {
                let better = match best {
                    None => true,
                    Some(b) => v > b,
                };
                if better {
                    proof {
                        assert(amp_seq.spec_phases() == perms@[k as int]@);
                    }
                    best = Some(v);
                }
            },
        }
        k = k + 1;
    }
    best
}

} // verus!
