//! The machine: a program, a tape, and the two pointers into them.

use vstd::prelude::*;
use crate::error::MachineError;
use crate::instruction::{Instruction, opcodes_of, parse};
use crate::jump::{
    backward_depth, backward_target, forward_depth, forward_target, lemma_backward_target_exists,
    lemma_forward_target_exists, scan_backward, scan_forward,
};
use crate::scalar::is_scalar_value;

verus! {

/// The mathematical state of a machine.
pub struct MachineState {
    /// The opcodes, in order.
    pub program: Seq<Instruction>,
    /// The cells of the tape, from index 0.
    pub mem: Seq<u32>,
    /// The instruction pointer: the index of the opcode to execute next.
    pub p: nat,
    /// The data pointer: the index of the current cell.
    pub m: nat,
}

impl MachineState {
    /// The state of a new machine: no program, one zero cell, both pointers
    /// at 0.
    pub open spec fn initial() -> MachineState {
        MachineState { program: Seq::empty(), mem: seq![0u32], p: 0, m: 0 }
    }

    /// The tape invariant: the data pointer is on an existing cell (so the
    /// tape is not empty), and the instruction pointer is at most one past the
    /// last opcode.
    pub open spec fn wf(self) -> bool {
        &&& self.m < self.mem.len()
        &&& self.p <= self.program.len()
    }

    /// Whether the instruction pointer has left the program.
    pub open spec fn halted(self) -> bool {
        self.p >= self.program.len()
    }

    /// The opcode under the instruction pointer.
    pub open spec fn current(self) -> Instruction
        recommends
            !self.halted(),
    {
        self.program[self.p as int]
    }

    /// The cell under the data pointer.
    pub open spec fn cell(self) -> u32
        recommends
            self.wf(),
    {
        self.mem[self.m as int]
    }

    /// The state with the instruction pointer moved to `p`.
    pub open spec fn at(self, p: nat) -> MachineState {
        MachineState { p, ..self }
    }

    /// The state with the current cell set to `value`.
    pub open spec fn store(self, value: u32) -> MachineState {
        MachineState { mem: self.mem.update(self.m as int, value), ..self }
    }

    /// Whether the next step reads an input value.
    pub open spec fn reads(self) -> bool {
        self.current() == Instruction::Input
    }

    /// The character that the next step emits, if any: the current cell, where
    /// the opcode is `Output` and the cell holds a Unicode scalar value.
    pub open spec fn emits(self) -> Option<char> {
        if self.current() == Instruction::Output && is_scalar_value(self.cell()) {
            Some(self.cell() as char)
        } else {
            None
        }
    }

    /// The error with which the next step fails, if it fails.
    pub open spec fn fault(self) -> Option<MachineError> {
        match self.current() {
            Instruction::Backward if self.m == 0 => Some(MachineError::AddressBelowZero),
            Instruction::JumpForwardIfZero if self.cell() == 0 && forward_target(
                self.program,
                self.p as int,
            ) is None => Some(MachineError::SyntaxError),
            Instruction::JumpBackwardIfNonZero if self.cell() != 0 && backward_target(
                self.program,
                self.p as int,
            ) is None => Some(MachineError::SyntaxError),
            _ => None,
        }
    }

    /// The state after the next step, which is handed `input` in case it
    /// reads.
    ///
    /// A step that succeeds ends one past the opcode it executed or, for a
    /// jump that is taken, one past the bracket it landed on. A `Backward`
    /// that fails changes nothing. A jump that fails leaves the instruction
    /// pointer where its scan stopped: on the last opcode for a forward scan,
    /// on the first for a backward one.
    pub open spec fn next(self, input: u32) -> MachineState {
        match self.current() {
            Instruction::Forward => {
                let mem = if self.m + 1 == self.mem.len() {
                    self.mem.push(0)
                } else {
                    self.mem
                };
                MachineState { mem, m: self.m + 1, p: self.p + 1, ..self }
            },
            Instruction::Backward => {
                if self.m == 0 {
                    self
                } else {
                    MachineState { m: (self.m - 1) as nat, p: self.p + 1, ..self }
                }
            },
            Instruction::Increment => self.store(incremented(self.cell())).at(self.p + 1),
            Instruction::Decrement => self.store(decremented(self.cell())).at(self.p + 1),
            Instruction::Output => self.at(self.p + 1),
            Instruction::Input => self.store(input).at(self.p + 1),
            Instruction::JumpForwardIfZero => {
                if self.cell() == 0 {
                    match forward_target(self.program, self.p as int) {
                        Some(j) => self.at((j + 1) as nat),
                        None => self.at((self.program.len() - 1) as nat),
                    }
                } else {
                    self.at(self.p + 1)
                }
            },
            Instruction::JumpBackwardIfNonZero => {
                if self.cell() != 0 {
                    match backward_target(self.program, self.p as int) {
                        Some(j) => self.at((j + 1) as nat),
                        None => self.at(0),
                    }
                } else {
                    self.at(self.p + 1)
                }
            },
        }
    }
}

/// A cell value plus one, modulo 2^32.
pub open spec fn incremented(v: u32) -> u32 {
    ((v + 1) % 0x1_0000_0000) as u32
}

/// A cell value minus one, modulo 2^32.
pub open spec fn decremented(v: u32) -> u32 {
    ((v - 1) % 0x1_0000_0000) as u32
}

/// The tape invariant holds of a new machine.
pub proof fn lemma_initial_wf()
    ensures
        MachineState::initial().wf(),
        MachineState::initial().halted(),
{
}

/// The tape invariant survives every step, failing ones included: the data
/// pointer stays on an existing cell. The program is never changed, and the
/// tape never shrinks: a step adds one cell at most, at the far end.
pub proof fn lemma_step_keeps_invariant(s: MachineState, input: u32)
    requires
        s.wf(),
        !s.halted(),
    ensures
        s.next(input).wf(),
        s.next(input).mem.len() >= 1,
        s.next(input).program == s.program,
        s.mem.len() <= s.next(input).mem.len() <= s.mem.len() + 1,
        forall|i: int| 0 <= i < s.mem.len() && i != s.m ==> s.next(input).mem[i] == s.mem[i],
{
}

/// A step that succeeds leaves the instruction pointer one past an opcode of
/// the program: one past the opcode it executed, unless it is a jump that is
/// taken.
pub proof fn lemma_step_advances(s: MachineState, input: u32)
    requires
        s.wf(),
        !s.halted(),
        s.fault() is None,
    ensures
        1 <= s.next(input).p <= s.program.len(),
        !(s.current() is JumpForwardIfZero && s.cell() == 0) && !(s.current()
            is JumpBackwardIfNonZero && s.cell() != 0) ==> s.next(input).p == s.p + 1,
{
}

/// `Backward` with the data pointer on cell 0 fails with `AddressBelowZero`
/// and changes nothing: not the pointers, not a cell.
pub proof fn lemma_backward_at_origin(s: MachineState, input: u32)
    requires
        !s.halted(),
        s.current() == Instruction::Backward,
        s.m == 0,
    ensures
        s.fault() == Some(MachineError::AddressBelowZero),
        s.next(input) == s,
{
}

/// A `[` on a zero cell fails with `SyntaxError` exactly if it is unmatched:
/// if from there to the end of the program the nesting counter never comes
/// back to 0. The tape and the data pointer stay as they are.
pub proof fn lemma_unmatched_forward_jump(s: MachineState, input: u32)
    requires
        !s.halted(),
        s.current() == Instruction::JumpForwardIfZero,
        s.cell() == 0,
    ensures
        s.fault() == Some(MachineError::SyntaxError) <==> forall|k: int|
            s.p < k < s.program.len() ==> #[trigger] forward_depth(s.program, s.p as int, k) != 0,
        s.next(input).mem == s.mem,
        s.next(input).m == s.m,
{
    lemma_forward_target_exists(s.program, s.p as int);
}

/// A `]` on a nonzero cell fails with `SyntaxError` exactly if it is
/// unmatched: if from there back to the start of the program the nesting
/// counter never comes back to 0. The tape and the data pointer stay as they
/// are.
pub proof fn lemma_unmatched_backward_jump(s: MachineState, input: u32)
    requires
        !s.halted(),
        s.current() == Instruction::JumpBackwardIfNonZero,
        s.cell() != 0,
    ensures
        s.fault() == Some(MachineError::SyntaxError) <==> forall|k: int|
            0 <= k < s.p ==> #[trigger] backward_depth(s.program, s.p as int, k) != 0,
        s.next(input).mem == s.mem,
        s.next(input).m == s.m,
{
    lemma_backward_target_exists(s.program, s.p as int);
}

/// A jump whose condition does not hold is a no-op: a `[` on a nonzero cell
/// and a `]` on a zero cell only move on to the next opcode, matched or not.
pub proof fn lemma_jump_not_taken(s: MachineState, input: u32)
    requires
        !s.halted(),
        (s.current() == Instruction::JumpForwardIfZero && s.cell() != 0) || (s.current()
            == Instruction::JumpBackwardIfNonZero && s.cell() == 0),
    ensures
        s.fault() is None,
        s.next(input) == s.at(s.p + 1),
{
}

/// A machine. It owns its program and its tape; see [`MachineState`] for what
/// the fields mean.
pub struct Machine {
    mem: Vec<u32>,
    program: Vec<Instruction>,
    p: usize,
    m: usize,
}

impl View for Machine {
    type V = MachineState;

    closed spec fn view(&self) -> MachineState {
        MachineState {
            program: self.program@,
            mem: self.mem@,
            p: self.p as nat,
            m: self.m as nat,
        }
    }
}

impl Machine {
    /// A machine with an empty program and a tape of one zero cell.
    pub fn new() -> (machine: Machine)
        ensures
            machine@ == MachineState::initial(),
            machine@.wf(),
    {
        let mut mem: Vec<u32> = Vec::new();
        mem.push(0);
        Machine { mem, program: Vec::new(), p: 0, m: 0 }
    }

    /// Appends the opcodes that `input` denotes to the program. The tape and
    /// the pointers stay as they are.
    pub fn parse(&mut self, input: String)
        requires
            old(self)@.wf(),
        ensures
            final(self)@.wf(),
            final(self)@ == (MachineState {
                program: old(self)@.program + opcodes_of(input@),
                ..old(self)@
            }),
    {
        let mut opcodes = parse(input.as_str());
        self.program.append(&mut opcodes);
    }

    /// Whether the instruction pointer has left the program, so that there is
    /// nothing more to execute.
    pub fn halted(&self) -> (halted: bool)
        ensures
            halted == self@.halted(),
    {
        self.p >= self.program.len()
    }

    /// Whether the next step reads the input value that it is handed.
    pub fn awaits_input(&self) -> (awaits: bool)
        ensures
            awaits == (!self@.halted() && self@.reads()),
    {
        self.p < self.program.len() && self.program[self.p] == Instruction::Input
    }

    /// Executes the opcode under the instruction pointer.
    ///
    /// `input` is the value that an `Input` opcode stores; any other opcode
    /// ignores it. The result is the character that an `Output` opcode emits,
    /// or the error that stopped the step.
    pub fn step(&mut self, input: u32) -> (result: Result<Option<char>, MachineError>)
        requires
            old(self)@.wf(),
            !old(self)@.halted(),
        ensures
            final(self)@.wf(),
            final(self)@ == old(self)@.next(input),
            result == match old(self)@.fault() {
                Some(e) => Err::<Option<char>, MachineError>(e),
                None => Ok(old(self)@.emits()),
            },
    {
        let mut emitted: Option<char> = None;
        match self.program[self.p] {
            Instruction::Forward => {
                if self.mem.len() - self.m == 1 {
                    self.mem.push(0);
                }
                self.m += 1;
            },
            Instruction::Backward => {
                if self.m == 0 {
                    return Err(MachineError::AddressBelowZero);
                }
                self.m -= 1;
            },
            Instruction::Increment => {
                let v = self.mem[self.m].wrapping_add(1);
                self.mem.set(self.m, v);
            },
            Instruction::Decrement => {
                let v = self.mem[self.m].wrapping_sub(1);
                self.mem.set(self.m, v);
            },
            Instruction::Output => {
                emitted = char::from_u32(self.mem[self.m]);
            },
            Instruction::Input => {
                self.mem.set(self.m, input);
            },
            Instruction::JumpForwardIfZero => {
                if self.mem[self.m] == 0 {
                    match scan_forward(self.program.as_slice(), self.p) {
                        Some(j) => {
                            self.p = j;
                        },
                        None => {
                            self.p = self.program.len() - 1;
                            return Err(MachineError::SyntaxError);
                        },
                    }
                }
            },
            Instruction::JumpBackwardIfNonZero => {
                if self.mem[self.m] != 0 {
                    match scan_backward(self.program.as_slice(), self.p) {
                        Some(j) => {
                            self.p = j;
                        },
                        None => {
                            self.p = 0;
                            return Err(MachineError::SyntaxError);
                        },
                    }
                }
            },
        }
        assert(self.p < self.program.len());
        self.p += 1;
        Ok(emitted)
    }

    /// The instruction pointer.
    pub fn p(&self) -> (p: usize)
        ensures
            p == self@.p,
    {
        self.p
    }

    /// The data pointer.
    pub fn m(&self) -> (m: usize)
        ensures
            m == self@.m,
    {
        self.m
    }

    /// The cells of the tape.
    pub fn mem(&self) -> (mem: &[u32])
        ensures
            mem@ == self@.mem,
    {
        self.mem.as_slice()
    }

    /// The opcodes of the program.
    pub fn program(&self) -> (program: &[Instruction])
        ensures
            program@ == self@.program,
    {
        self.program.as_slice()
    }
}

} // verus!
