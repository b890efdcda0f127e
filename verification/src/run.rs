//! Running a machine: step after step until it halts, fails, or has used up
//! the steps it was granted.
//!
//! A program may loop for ever, so a run takes a limit on the number of steps.
//! The limit does not change what the machine does: a run that ends by itself
//! within a limit ends the same way within every larger one.

use vstd::prelude::*;
use vstd::arithmetic::div_mod::{lemma_add_mod_noop, lemma_sub_mod_noop};
use crate::error::MachineError;
use crate::instruction::Instruction;
use crate::jump::{balance, closes, lemma_closes_is_target};
use crate::machine::{Machine, MachineState, lemma_step_keeps_invariant};

verus! {

/// How a run ended.
#[derive(Clone, Copy, Debug, PartialEq, Eq, Structural)]
pub enum Status {
    /// The instruction pointer left the program: the normal end.
    Halted,
    /// The limit was reached with the machine still able to go on.
    OutOfSteps,
    /// A step failed. The machine stays as that step left it.
    Failed(MachineError),
}

/// What a run did.
#[derive(Debug)]
pub struct Report {
    /// How the run ended.
    pub status: Status,
    /// The number of steps executed, a failing one included.
    pub steps: u64,
    /// The number of `Input` opcodes executed.
    pub reads: u64,
    /// The characters emitted, in the order of emission.
    pub output: Vec<char>,
}

/// The value that the `k`-th read of a run receives: the `k`-th value of the
/// input, or 0 once the input is used up.
pub open spec fn supplied(input: Seq<u32>, k: nat) -> u32 {
    if k < input.len() {
        input[k as int]
    } else {
        0
    }
}

/// A run so far: the state reached and what happened on the way.
pub struct Trace {
    /// The state of the machine.
    pub state: MachineState,
    /// The number of steps executed.
    pub steps: nat,
    /// The number of input values read.
    pub reads: nat,
    /// The characters emitted.
    pub output: Seq<char>,
    /// The error of the last step, if it failed.
    pub fault: Option<MachineError>,
}

impl Trace {
    /// The trace of a run that has not begun.
    pub open spec fn start(state: MachineState) -> Trace {
        Trace { state, steps: 0, reads: 0, output: Seq::empty(), fault: None }
    }

    /// Whether the run is over: a step failed, or the machine halted.
    pub open spec fn finished(self) -> bool {
        self.fault is Some || self.state.halted()
    }

    /// The trace one step later. A finished trace stays as it is.
    pub open spec fn advance(self, input: Seq<u32>) -> Trace {
        if self.finished() {
            self
        } else {
            Trace {
                state: self.state.next(supplied(input, self.reads)),
                steps: self.steps + 1,
                reads: if self.state.reads() {
                    self.reads + 1
                } else {
                    self.reads
                },
                output: match self.state.emits() {
                    Some(c) => self.output.push(c),
                    None => self.output,
                },
                fault: self.state.fault(),
            }
        }
    }

    /// How a run with this trace ended.
    pub open spec fn status(self) -> Status {
        match self.fault {
            Some(e) => Status::Failed(e),
            None => if self.state.halted() {
                Status::Halted
            } else {
                Status::OutOfSteps
            },
        }
    }
}

/// The trace of running a machine from `state` on `input` for at most `limit`
/// steps.
pub open spec fn trace(state: MachineState, input: Seq<u32>, limit: nat) -> Trace
    decreases limit,
{
    if limit == 0 {
        Trace::start(state)
    } else {
        trace(state, input, (limit - 1) as nat).advance(input)
    }
}

/// A run that is over within `n` steps is the same run within any larger
/// limit.
pub proof fn lemma_trace_settles(state: MachineState, input: Seq<u32>, n: nat, limit: nat)
    requires
        n <= limit,
        trace(state, input, n).finished(),
    ensures
        trace(state, input, limit) == trace(state, input, n),
    decreases limit,
{
    if n < limit {
        lemma_trace_settles(state, input, n, (limit - 1) as nat);
    }
}

/// A run never exceeds its limit, reads at most once a step and emits at most
/// one character a step; and it stops short of the limit only when it is over.
pub proof fn lemma_trace_counts(state: MachineState, input: Seq<u32>, limit: nat)
    ensures
        trace(state, input, limit).steps <= limit,
        trace(state, input, limit).reads <= trace(state, input, limit).steps,
        trace(state, input, limit).output.len() <= trace(state, input, limit).steps,
        trace(state, input, limit).steps < limit ==> trace(state, input, limit).finished(),
    decreases limit,
{
    if limit > 0 {
        lemma_trace_counts(state, input, (limit - 1) as nat);
    }
}

/// The tape invariant holds of every state that a run reaches: the data
/// pointer is on an existing cell, however the run ends. The program stays
/// what it was, and the tape never shrinks.
pub proof fn lemma_trace_keeps_invariant(state: MachineState, input: Seq<u32>, limit: nat)
    requires
        state.wf(),
    ensures
        trace(state, input, limit).state.wf(),
        trace(state, input, limit).state.mem.len() >= 1,
        trace(state, input, limit).state.program == state.program,
        trace(state, input, limit).state.mem.len() >= state.mem.len(),
    decreases limit,
{
    if limit > 0 {
        let before = trace(state, input, (limit - 1) as nat);
        lemma_trace_keeps_invariant(state, input, (limit - 1) as nat);
        if !before.finished() {
            lemma_step_keeps_invariant(before.state, supplied(input, before.reads));
        }
    }
}

/// An empty loop on a zero cell is a no-op: the program `[]`, started on a
/// cell that holds 0, executes the `[`, which jumps straight to its `]`, and
/// halts. It reads nothing, emits nothing and leaves the tape as it was.
pub proof fn lemma_empty_loop(state: MachineState, input: Seq<u32>, limit: nat)
    requires
        state.wf(),
        state.program == seq![
            Instruction::JumpForwardIfZero,
            Instruction::JumpBackwardIfNonZero,
        ],
        state.p == 0,
        state.cell() == 0,
        limit >= 1,
    ensures
        trace(state, input, limit) == (Trace {
            state: state.at(2),
            steps: 1,
            reads: 0,
            output: Seq::empty(),
            fault: None,
        }),
        trace(state, input, limit).status() == Status::Halted,
{
    assert(closes(state.program, 0, 1)) by {
        reveal_with_fuel(balance, 2);
    }
    lemma_closes_is_target(state.program, 0, 1);
    assert(trace(state, input, 1) == Trace::start(state).advance(input)) by {
        reveal_with_fuel(trace, 2);
    }
    lemma_trace_settles(state, input, 1, limit);
}

/// Cell arithmetic is modular: `n` `Decrement` opcodes in a row take `n` off
/// the current cell modulo 2^32, without ever failing, and touch nothing else.
pub proof fn lemma_decrement_run(state: MachineState, input: Seq<u32>, n: nat)
    requires
        state.wf(),
        state.p + n <= state.program.len(),
        forall|i: int| state.p <= i < state.p + n ==> state.program[i] == Instruction::Decrement,
    ensures
        trace(state, input, n) == (Trace {
            state: state.store(((state.cell() - n) % 0x1_0000_0000) as u32).at(state.p + n),
            steps: n,
            reads: 0,
            output: Seq::empty(),
            fault: None,
        }),
    decreases n,
{
    if n == 0 {
        assert(state.mem.update(state.m as int, state.cell()) =~= state.mem);
    } else {
        lemma_decrement_run(state, input, (n - 1) as nat);
        let before = trace(state, input, (n - 1) as nat);
        assert(before.state.current() == Instruction::Decrement);
        lemma_sub_mod_noop(state.cell() - (n - 1), 1, 0x1_0000_0000);
        assert(before.advance(input).state.mem =~= state.mem.update(
            state.m as int,
            ((state.cell() - n) % 0x1_0000_0000) as u32,
        ));
    }
}

/// Cell arithmetic is modular: `n` `Increment` opcodes in a row add `n` to the
/// current cell modulo 2^32, without ever failing, and touch nothing else.
pub proof fn lemma_increment_run(state: MachineState, input: Seq<u32>, n: nat)
    requires
        state.wf(),
        state.p + n <= state.program.len(),
        forall|i: int| state.p <= i < state.p + n ==> state.program[i] == Instruction::Increment,
    ensures
        trace(state, input, n) == (Trace {
            state: state.store(((state.cell() + n) % 0x1_0000_0000) as u32).at(state.p + n),
            steps: n,
            reads: 0,
            output: Seq::empty(),
            fault: None,
        }),
    decreases n,
{
    if n == 0 {
        assert(state.mem.update(state.m as int, state.cell()) =~= state.mem);
    } else {
        lemma_increment_run(state, input, (n - 1) as nat);
        let before = trace(state, input, (n - 1) as nat);
        assert(before.state.current() == Instruction::Increment);
        lemma_add_mod_noop(state.cell() + (n - 1), 1, 0x1_0000_0000);
        assert(before.advance(input).state.mem =~= state.mem.update(
            state.m as int,
            ((state.cell() + n) % 0x1_0000_0000) as u32,
        ));
    }
}

/// Wrapping comes full circle: 2^32 `Decrement` opcodes in a row, or 2^32
/// `Increment` opcodes, bring the current cell back to the value it started
/// with. A cell that starts at 0 is 0 again.
pub proof fn lemma_full_cycle(state: MachineState, input: Seq<u32>, op: Instruction)
    requires
        state.wf(),
        op == Instruction::Decrement || op == Instruction::Increment,
        state.p + 0x1_0000_0000 <= state.program.len(),
        forall|i: int| state.p <= i < state.p + 0x1_0000_0000 ==> state.program[i] == op,
    ensures
        trace(state, input, 0x1_0000_0000).state == state.at(state.p + 0x1_0000_0000),
        trace(state, input, 0x1_0000_0000).fault is None,
{
    if op == Instruction::Decrement {
        lemma_decrement_run(state, input, 0x1_0000_0000);
    } else {
        lemma_increment_run(state, input, 0x1_0000_0000);
    }
    assert(state.mem.update(state.m as int, state.cell()) =~= state.mem);
}

impl Machine {
    /// Runs the machine for at most `limit` steps: until it halts, until a
    /// step fails, or until the limit is reached.
    ///
    /// Each `Input` opcode reads the next value of `input`, and 0 once `input`
    /// is used up. The report holds what was emitted, a failing run included.
    pub fn run(&mut self, input: &[u32], limit: u64) -> (report: Report)
        requires
            old(self)@.wf(),
        ensures
            final(self)@.wf(),
            final(self)@ == trace(old(self)@, input@, limit as nat).state,
            report.status == trace(old(self)@, input@, limit as nat).status(),
            report.steps == trace(old(self)@, input@, limit as nat).steps,
            report.reads == trace(old(self)@, input@, limit as nat).reads,
            report.output@ == trace(old(self)@, input@, limit as nat).output,
    {
        let mut steps: u64 = 0;
        let mut reads: u64 = 0;
        let mut output: Vec<char> = Vec::new();
        while steps < limit
            invariant
                self@.wf(),
                reads <= steps <= limit,
                trace(old(self)@, input@, steps as nat) == (Trace {
                    state: self@,
                    steps: steps as nat,
                    reads: reads as nat,
                    output: output@,
                    fault: None,
                }),
            decreases limit - steps,
        {
            if self.halted() {
                proof {
                    lemma_trace_settles(old(self)@, input@, steps as nat, limit as nat);
                }
                return Report { status: Status::Halted, steps, reads, output };
            }
            let value = if reads < input.len() as u64 {
                input[reads as usize]
            } else {
                0
            };
            let reading = self.awaits_input();
            let result = self.step(value);
            steps += 1;
            match result {
                Ok(emitted) => {
                    if reading {
                        reads += 1;
                    }
                    match emitted {
                        Some(c) => output.push(c),
                        None => {},
                    }
                },
                Err(e) => {
                    proof {
                        lemma_trace_settles(old(self)@, input@, steps as nat, limit as nat);
                    }
                    return Report { status: Status::Failed(e), steps, reads, output };
                },
            }
        }
        let status = if self.halted() {
            Status::Halted
        } else {
            Status::OutOfSteps
        };
        Report { status, steps, reads, output }
    }
}

} // verus!
