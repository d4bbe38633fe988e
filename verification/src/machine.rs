//! The executor: walks an instruction tree against a fixed-size byte tape
//! with a movable data pointer, consuming input bytes and producing output
//! bytes one at a time.
//!
//! Cell arithmetic wraps around; the pointer itself does not wrap, and a
//! cell access while the pointer is off the tape is a fatal condition.
//! Because a loop may legitimately repeat forever, the executor takes a
//! step budget bounding how often loops may be re-entered; `run` computes
//! exactly the outcome that the [`run_from`] specification assigns to that
//! budget, and a run that completes within the budget is unaffected by it
//! ([`lemma_raising_budget_preserves_outcome`]).

use vstd::arithmetic::div_mod::lemma_mod_add_multiples_vanish;
use vstd::arithmetic::div_mod::lemma_small_mod;
use vstd::prelude::*;

use crate::syntax::Instruction;

verus! {

/// The number of cells on the memory tape.
pub const TAPE_LEN: usize = 1024;

/// The initial position of the data pointer: the midpoint of the tape.
pub const INITIAL_POINTER: i64 = 512;

/// A fatal condition that stops execution.
#[derive(Clone, Copy, PartialEq, Eq, Structural, Debug)]
pub enum RunError {
    /// A cell access while the pointer is off the tape, or a pointer move
    /// past the limit of its representation.
    PointerOutOfRange,
    /// A `Read` instruction with no input byte left.
    InputExhausted,
    /// The step budget ran out before execution completed.
    StepsExhausted,
}

/// The mathematical state of the machine: the tape, the data pointer, the
/// input bytes not yet read, and the output bytes written so far.
#[verifier::ext_equal]
pub struct State {
    pub memory: Seq<u8>,
    pub pointer: int,
    pub input: Seq<u8>,
    pub output: Seq<u8>,
}

/// What one run of the executor amounts to: completion or a fatal stop,
/// each with the machine state at that moment.
#[verifier::ext_equal]
pub enum Outcome {
    Done(State),
    Stopped(RunError, State),
}

/// The data pointer rests on a cell of the tape.
pub open spec fn pointer_in_range(st: State) -> bool {
    0 <= st.pointer < st.memory.len()
}

/// A cell value incremented by one, wrapping from 255 to 0.
pub open spec fn wrap_inc(v: u8) -> u8 {
    if v == 255 {
        0
    } else {
        (v + 1) as u8
    }
}

/// A cell value decremented by one, wrapping from 0 to 255.
pub open spec fn wrap_dec(v: u8) -> u8 {
    if v == 0 {
        255
    } else {
        (v - 1) as u8
    }
}

/// The outcome of executing `prog` from instruction `i` on in state `st`:
/// each instruction acts in order; a `Loop` re-enters its body while the
/// cell under the pointer is non-zero, spending one unit of the step
/// budget per re-check so that the recursion is well-founded.
pub open spec fn run_from(prog: Seq<Instruction>, i: int, st: State, budget: nat) -> Outcome
    decreases budget, prog.len() - i,
{
    if i < 0 || i >= prog.len() {
        Outcome::Done(st)
    } else {
        match prog[i] {
            Instruction::Increment => if pointer_in_range(st) {
                run_from(
                    prog,
                    i + 1,
                    State {
                        memory: st.memory.update(st.pointer, wrap_inc(st.memory[st.pointer])),
                        ..st
                    },
                    budget,
                )
            } else {
                Outcome::Stopped(RunError::PointerOutOfRange, st)
            },
            Instruction::Decrement => if pointer_in_range(st) {
                run_from(
                    prog,
                    i + 1,
                    State {
                        memory: st.memory.update(st.pointer, wrap_dec(st.memory[st.pointer])),
                        ..st
                    },
                    budget,
                )
            } else {
                Outcome::Stopped(RunError::PointerOutOfRange, st)
            },
            Instruction::IncrementPointer => if st.pointer == i64::MAX {
                Outcome::Stopped(RunError::PointerOutOfRange, st)
            } else {
                run_from(prog, i + 1, State { pointer: st.pointer + 1, ..st }, budget)
            },
            Instruction::DecrementPointer => if st.pointer == i64::MIN {
                Outcome::Stopped(RunError::PointerOutOfRange, st)
            } else {
                run_from(prog, i + 1, State { pointer: st.pointer - 1, ..st }, budget)
            },
            Instruction::Read => if !pointer_in_range(st) {
                Outcome::Stopped(RunError::PointerOutOfRange, st)
            } else if st.input.len() == 0 {
                Outcome::Stopped(RunError::InputExhausted, st)
            } else {
                run_from(
                    prog,
                    i + 1,
                    State {
                        memory: st.memory.update(st.pointer, st.input[0]),
                        input: st.input.drop_first(),
                        ..st
                    },
                    budget,
                )
            },
            Instruction::Write => if pointer_in_range(st) {
                run_from(
                    prog,
                    i + 1,
                    State { output: st.output.push(st.memory[st.pointer]), ..st },
                    budget,
                )
            } else {
                Outcome::Stopped(RunError::PointerOutOfRange, st)
            },
            Instruction::Loop(body) => if !pointer_in_range(st) {
                Outcome::Stopped(RunError::PointerOutOfRange, st)
            } else if st.memory[st.pointer] == 0 {
                run_from(prog, i + 1, st, budget)
            } else if budget == 0 {
                Outcome::Stopped(RunError::StepsExhausted, st)
            } else {
                match run_from(body@, 0, st, (budget - 1) as nat) {
                    Outcome::Done(st2) => run_from(prog, i, st2, (budget - 1) as nat),
                    Outcome::Stopped(e, st2) => Outcome::Stopped(e, st2),
                }
            },
        }
    }
}

/// The outcome of executing a whole instruction sequence in state `st`.
pub open spec fn run_prog(prog: Seq<Instruction>, st: State, budget: nat) -> Outcome {
    run_from(prog, 0, st, budget)
}

/// The step budget is only a bound, not part of the semantics: raising it
/// changes nothing about an execution unless that execution ran out of
/// budget. In particular a completed run stays exactly as it was.
pub proof fn lemma_raising_budget_preserves_outcome(
    prog: Seq<Instruction>,
    i: int,
    st: State,
    budget: nat,
    higher: nat,
)
    requires
        budget <= higher,
        !(run_from(prog, i, st, budget) matches Outcome::Stopped(RunError::StepsExhausted, _)),
    ensures
        run_from(prog, i, st, higher) == run_from(prog, i, st, budget),
    decreases budget, prog.len() - i,
{
    if 0 <= i < prog.len() {
        match prog[i] {
            Instruction::Increment => {
                if pointer_in_range(st) {
                    let st1 = State {
                        memory: st.memory.update(st.pointer, wrap_inc(st.memory[st.pointer])),
                        ..st
                    };
                    lemma_raising_budget_preserves_outcome(prog, i + 1, st1, budget, higher);
                }
            },
            Instruction::Decrement => {
                if pointer_in_range(st) {
                    let st1 = State {
                        memory: st.memory.update(st.pointer, wrap_dec(st.memory[st.pointer])),
                        ..st
                    };
                    lemma_raising_budget_preserves_outcome(prog, i + 1, st1, budget, higher);
                }
            },
            Instruction::IncrementPointer => {
                if st.pointer != i64::MAX {
                    let st1 = State { pointer: st.pointer + 1, ..st };
                    lemma_raising_budget_preserves_outcome(prog, i + 1, st1, budget, higher);
                }
            },
            Instruction::DecrementPointer => {
                if st.pointer != i64::MIN {
                    let st1 = State { pointer: st.pointer - 1, ..st };
                    lemma_raising_budget_preserves_outcome(prog, i + 1, st1, budget, higher);
                }
            },
            Instruction::Read => {
                if pointer_in_range(st) && st.input.len() > 0 {
                    let st1 = State {
                        memory: st.memory.update(st.pointer, st.input[0]),
                        input: st.input.drop_first(),
                        ..st
                    };
                    lemma_raising_budget_preserves_outcome(prog, i + 1, st1, budget, higher);
                }
            },
            Instruction::Write => {
                if pointer_in_range(st) {
                    let st1 = State { output: st.output.push(st.memory[st.pointer]), ..st };
                    lemma_raising_budget_preserves_outcome(prog, i + 1, st1, budget, higher);
                }
            },
            Instruction::Loop(body) => {
                if pointer_in_range(st) {
                    if st.memory[st.pointer] == 0 {
                        lemma_raising_budget_preserves_outcome(prog, i + 1, st, budget, higher);
                    } else {
                        let lower = (budget - 1) as nat;
                        let upper = (higher - 1) as nat;
                        lemma_raising_budget_preserves_outcome(body@, 0, st, lower, upper);
                        match run_from(body@, 0, st, lower) {
                            Outcome::Done(st2) => {
                                lemma_raising_budget_preserves_outcome(
                                    prog,
                                    i,
                                    st2,
                                    lower,
                                    upper,
                                );
                            },
                            Outcome::Stopped(_, _) => {},
                        }
                    }
                }
            },
        }
    }
}

/// Running a block of `Increment` instructions from `i` on adds their
/// number to the cell under the pointer, modulo 256.
proof fn lemma_run_increments(prog: Seq<Instruction>, i: int, st: State, budget: nat)
    requires
        0 <= i <= prog.len(),
        forall|k: int| 0 <= k < prog.len() ==> prog[k] is Increment,
        pointer_in_range(st),
    ensures
        run_from(prog, i, st, budget) == Outcome::Done(
            State {
                memory: st.memory.update(
                    st.pointer,
                    (((st.memory[st.pointer] as int) + (prog.len() - i)) % 256) as u8,
                ),
                ..st
            },
        ),
    decreases prog.len() - i,
{
    let c = st.memory[st.pointer];
    if i == prog.len() {
        lemma_small_mod(c as nat, 256);
        assert(st.memory.update(st.pointer, c) =~= st.memory);
        assert(State { memory: st.memory.update(st.pointer, c), ..st } =~= st);
    } else {
        let st1 = State { memory: st.memory.update(st.pointer, wrap_inc(c)), ..st };
        lemma_run_increments(prog, i + 1, st1, budget);
        let n = prog.len() - i - 1;
        assert(((wrap_inc(c) as int) + n) % 256 == ((c as int) + (prog.len() - i)) % 256) by {
            if c == 255 {
                lemma_mod_add_multiples_vanish(n, 256);
            }
        }
        assert(st1.memory.update(st.pointer, (((c as int) + (prog.len() - i)) % 256) as u8)
            =~= st.memory.update(st.pointer, (((c as int) + (prog.len() - i)) % 256) as u8));
    }
}

/// `Increment` applied 256 times to a cell holding 0 leaves the cell at
/// 0 again: cell arithmetic wraps around.
pub proof fn lemma_increment_256_wraps_to_zero(st: State, budget: nat)
    requires
        pointer_in_range(st),
        st.memory[st.pointer] == 0,
    ensures
        run_prog(Seq::new(256, |k: int| Instruction::Increment), st, budget) == Outcome::Done(st),
{
    let prog = Seq::new(256, |k: int| Instruction::Increment);
    lemma_run_increments(prog, 0, st, budget);
    assert((0 + 256int) % 256 == 0) by {
        lemma_mod_add_multiples_vanish(0, 256);
    }
    assert(st.memory.update(st.pointer, 0u8) =~= st.memory);
    assert(State { memory: st.memory.update(st.pointer, 0u8), ..st } =~= st);
}

/// `Decrement` applied once to a cell holding 0 leaves the cell at 255:
/// cell arithmetic wraps around.
pub proof fn lemma_decrement_wraps_to_255(st: State, budget: nat)
    requires
        pointer_in_range(st),
        st.memory[st.pointer] == 0,
    ensures
        run_prog(seq![Instruction::Decrement], st, budget) == Outcome::Done(
            State { memory: st.memory.update(st.pointer, 255u8), ..st },
        ),
{
    let prog = seq![Instruction::Decrement];
    let st1 = State { memory: st.memory.update(st.pointer, 255u8), ..st };
    assert(prog[0] is Decrement);
    assert(run_from(prog, 1, st1, budget) == Outcome::Done(st1));
}

/// The machine that a program runs against: the tape, the data pointer,
/// the input bytes (of which `consumed` are already read), and the output
/// bytes written so far.
pub struct Machine {
    pub memory: Vec<u8>,
    pub pointer: i64,
    pub input: Vec<u8>,
    pub consumed: usize,
    pub output: Vec<u8>,
}

impl Machine {
    /// The consumed prefix lies within the input, and every tape position
    /// is representable by the pointer.
    pub open spec fn wf(self) -> bool {
        &&& self.consumed <= self.input@.len()
        &&& self.memory@.len() <= i64::MAX
    }

    /// A fresh machine: a zeroed tape of `TAPE_LEN` cells, the pointer at
    /// the midpoint, the given input untouched, and no output.
    pub fn new(input: Vec<u8>) -> (m: Machine)
        ensures
            m.wf(),
            m@.memory == Seq::new(TAPE_LEN as nat, |j: int| 0u8),
            m@.pointer == INITIAL_POINTER as int,
            m@.input == input@,
            m@.output == Seq::<u8>::empty(),
    {
        let mut memory: Vec<u8> = Vec::new();
        let mut i: usize = 0;
        while i < TAPE_LEN
            invariant
                i <= TAPE_LEN,
                memory@ == Seq::new(i as nat, |j: int| 0u8),
            decreases TAPE_LEN - i,
        {
            memory.push(0);
            proof {
                assert(Seq::new((i + 1) as nat, |j: int| 0u8) =~= Seq::new(
                    i as nat,
                    |j: int| 0u8,
                ).push(0u8));
            }
            i = i + 1;
        }
        let m = Machine {
            memory,
            pointer: INITIAL_POINTER,
            input,
            consumed: 0,
            output: Vec::new(),
        };
        proof {
            assert(m@.input =~= m.input@);
        }
        m
    }
}

impl View for Machine {
    type V = State;

    open spec fn view(&self) -> State {
        State {
            memory: self.memory@,
            pointer: self.pointer as int,
            input: self.input@.skip(self.consumed as int),
            output: self.output@,
        }
    }
}

/// The cell the pointer rests on, or `None` when it is off the tape.
fn cell_index(m: &Machine) -> (r: Option<usize>)
    requires
        m.wf(),
    ensures
        match r {
            Some(p) => pointer_in_range(m@) && p as int == m@.pointer && p < m.memory@.len(),
            None => !pointer_in_range(m@),
        },
{
    let len = m.memory.len();
    if m.pointer >= 0 && m.pointer < len as i64 {
        Some(m.pointer as usize)
    } else {
        None
    }
}

/// Executes every instruction in order against the machine, re-entering
/// loop bodies while the cell under the pointer is non-zero. Computes
/// exactly the outcome that [`run_from`] assigns: completion, or the first
/// fatal condition, each leaving the machine in the state at that moment.
pub fn run(instructions: &Vec<Instruction>, m: &mut Machine, budget: u64) -> (r: Result<
    (),
    RunError,
>)
    requires
        old(m).wf(),
    ensures
        final(m).wf(),
        match r {
            Ok(()) => run_prog(instructions@, old(m)@, budget as nat) == Outcome::Done(final(m)@),
            Err(e) => run_prog(instructions@, old(m)@, budget as nat) == Outcome::Stopped(
                e,
                final(m)@,
            ),
        },
    decreases budget,
{
    let mut remaining: u64 = budget;
    let mut i: usize = 0;
    while i < instructions.len()
        invariant
            m.wf(),
            i <= instructions@.len(),
            remaining <= budget,
            run_from(instructions@, 0, old(m)@, budget as nat) == run_from(
                instructions@,
                i as int,
                m@,
                remaining as nat,
            ),
        decreases remaining, instructions@.len() - i,
    {
        let ghost st0 = m@;
        match &instructions[i] {
            Instruction::Increment => {
                let p = match cell_index(m) {
                    Some(p) => p,
                    None => {
                        return Err(RunError::PointerOutOfRange);
                    },
                };
                let v = m.memory[p];
                m.memory[p] = if v == 255 {
                    0
                } else {
                    v + 1
                };
                proof {
                    assert(m@ =~= State {
                        memory: st0.memory.update(st0.pointer, wrap_inc(v)),
                        ..st0
                    });
                }
                i = i + 1;
            },
            Instruction::Decrement => {
                let p = match cell_index(m) {
                    Some(p) => p,
                    None => {
                        return Err(RunError::PointerOutOfRange);
                    },
                };
                let v = m.memory[p];
                m.memory[p] = if v == 0 {
                    255
                } else {
                    v - 1
                };
                proof {
                    assert(m@ =~= State {
                        memory: st0.memory.update(st0.pointer, wrap_dec(v)),
                        ..st0
                    });
                }
                i = i + 1;
            },
            Instruction::IncrementPointer => {
                if m.pointer == i64::MAX {
                    return Err(RunError::PointerOutOfRange);
                }
                m.pointer = m.pointer + 1;
                proof {
                    assert(m@ =~= State { pointer: st0.pointer + 1, ..st0 });
                }
                i = i + 1;
            },
            Instruction::DecrementPointer => {
                if m.pointer == i64::MIN {
                    return Err(RunError::PointerOutOfRange);
                }
                m.pointer = m.pointer - 1;
                proof {
                    assert(m@ =~= State { pointer: st0.pointer - 1, ..st0 });
                }
                i = i + 1;
            },
            Instruction::Read => {
                let p = match cell_index(m) {
                    Some(p) => p,
                    None => {
                        return Err(RunError::PointerOutOfRange);
                    },
                };
                if m.consumed >= m.input.len() {
                    return Err(RunError::InputExhausted);
                }
                let b = m.input[m.consumed];
                m.memory[p] = b;
                m.consumed = m.consumed + 1;
                proof {
                    assert(st0.input[0] == b);
                    assert(m@.input =~= st0.input.drop_first());
                    assert(m@ =~= State {
                        memory: st0.memory.update(st0.pointer, b),
                        input: st0.input.drop_first(),
                        ..st0
                    });
                }
                i = i + 1;
            },
            Instruction::Write => {
                let p = match cell_index(m) {
                    Some(p) => p,
                    None => {
                        return Err(RunError::PointerOutOfRange);
                    },
                };
                let v = m.memory[p];
                m.output.push(v);
                proof {
                    assert(m@ =~= State { output: st0.output.push(v), ..st0 });
                }
                i = i + 1;
            },
            Instruction::Loop(body) => {
                let p = match cell_index(m) {
                    Some(p) => p,
                    None => {
                        return Err(RunError::PointerOutOfRange);
                    },
                };
                if m.memory[p] == 0 {
                    i = i + 1;
                } else if remaining == 0 {
                    return Err(RunError::StepsExhausted);
                } else {
                    remaining = remaining - 1;
                    match run(body, m, remaining) {
                        Ok(()) => (),
                        Err(e) => {
                            return Err(e);
                        },
                    }
                }
            },
        }
    }
    Ok(())
}

} // verus!
