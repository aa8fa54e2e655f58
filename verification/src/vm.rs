//! The execution engine: machine state and the fetch-decode-execute loop.
//!
//! The engine owns all machine state and executes flat bytecode against it.
//! Every instruction is an opcode byte followed by exactly three operand
//! bytes: `LOAD` takes a destination register and a 16-bit big-endian
//! immediate; `ADD`, `SUB`, `MUL` and `DIV` take two source registers and a
//! destination register. Arithmetic wraps on overflow. Division stores the
//! truncating quotient in the destination register and the remainder,
//! reinterpreted as unsigned, in the remainder register.
//!
//! Every fault — running past the end of the program, a truncated
//! instruction, a register index outside the bank, a division by zero — is
//! absorbed into a halting [`StepOutcome`] rather than a panic, so a run
//! always terminates gracefully.

use crate::instruction::Opcode;
use crate::instruction::opcode_of;
use vstd::arithmetic::div_mod::lemma_div_is_ordered;
use vstd::arithmetic::div_mod::lemma_div_is_ordered_by_denominator;
use vstd::arithmetic::div_mod::lemma_div_nonincreasing;
use vstd::arithmetic::div_mod::lemma_div_pos_is_pos;
use vstd::arithmetic::div_mod::lemma_mod_division_less_than_divisor;
use vstd::prelude::*;

verus! {

/// The machine state: 32 signed 32-bit registers, a program counter indexing
/// into the program bytes, the program bytes themselves, and a remainder
/// register holding the remainder of the most recent division.
pub struct VM {
    pub registers: [i32; 32],
    pub pc: usize,
    pub program: Vec<u8>,
    pub remainder: u32,
}

/// Mathematical model of the machine state.
pub struct MachineState {
    pub regs: Seq<i32>,
    pub pc: nat,
    pub program: Seq<u8>,
    pub remainder: u32,
}

impl View for VM {
    type V = MachineState;

    open spec fn view(&self) -> MachineState {
        MachineState {
            regs: self.registers@,
            pc: self.pc as nat,
            program: self.program@,
            remainder: self.remainder,
        }
    }
}

/// What one execution step reported. `Continue` means the machine is still
/// running; every other outcome halts it. The faulting outcomes replace the
/// diagnostics the engine would otherwise print, so a caller may log them.
#[derive(Clone, Copy, Debug, PartialEq, Eq, Structural)]
pub enum StepOutcome {
    /// The instruction executed and the machine may keep running.
    Continue,
    /// The program counter was at or past the end of the program bytes.
    EndOfProgram,
    /// A `HLT` instruction was executed.
    Halt,
    /// The opcode byte does not name any instruction.
    IllegalOpcode(u8),
    /// The instruction's operand bytes run past the end of the program.
    TruncatedInstruction,
    /// An operand addressed a register outside the bank of 32.
    InvalidRegister(u8),
    /// A `DIV` instruction whose divisor register holds zero.
    DivideByZero,
}

impl StepOutcome {
    /// Whether this outcome stops the run loop.
    pub open spec fn spec_halts(self) -> bool {
        self != StepOutcome::Continue
    }

    /// Whether this outcome stops the run loop.
    pub fn halts(&self) -> (stop: bool)
        ensures
            stop == self.spec_halts(),
    {
        !(*self == StepOutcome::Continue)
    }
}

/// The signed 32-bit value a `LOAD` stores: its 16-bit big-endian immediate,
/// zero-extended.
pub open spec fn load_value(hi: u8, lo: u8) -> i32 {
    (hi as int * 256 + lo as int) as i32
}

/// Quotient of truncating (round-toward-zero) signed division, the semantics
/// of Rust's `/` operator.
pub open spec fn trunc_div(x: int, d: int) -> int
    recommends
        d != 0,
{
    if x == 0 {
        0
    } else if x > 0 && d > 0 {
        x / d
    } else if x < 0 && d < 0 {
        (x * -1) / (d * -1)
    } else if x < 0 {
        ((x * -1) / d) * -1
    } else {
        (x / (d * -1)) * -1
    }
}

/// Remainder of truncating signed division, the semantics of Rust's `%`
/// operator: its sign follows the dividend.
pub open spec fn trunc_rem(x: int, d: int) -> int
    recommends
        d != 0,
{
    if x == 0 {
        0
    } else if x > 0 && d > 0 {
        x % d
    } else if x < 0 && d < 0 {
        ((x * -1) % (d * -1)) * -1
    } else if x < 0 {
        ((x * -1) % d) * -1
    } else {
        x % (d * -1)
    }
}

/// The quotient a `DIV` stores. The one quotient outside the 32-bit range,
/// `i32::MIN / -1`, wraps back to `i32::MIN`; division by zero never reaches
/// this value (the step faults instead).
pub open spec fn div_quotient(a: i32, b: i32) -> i32
    recommends
        b != 0,
{
    if a == i32::MIN && b == -1 {
        i32::MIN
    } else {
        trunc_div(a as int, b as int) as i32
    }
}

/// The remainder a `DIV` computes, before reinterpretation as unsigned. In
/// the wrapping case `i32::MIN / -1` the remainder is zero.
pub open spec fn div_remainder(a: i32, b: i32) -> i32
    recommends
        b != 0,
{
    if a == i32::MIN && b == -1 {
        0
    } else {
        trunc_rem(a as int, b as int) as i32
    }
}

/// A signed 32-bit value reinterpreted as unsigned (two's complement bits).
pub open spec fn as_u32_bits(v: i32) -> u32 {
    if v < 0 {
        (v + 0x1_0000_0000) as u32
    } else {
        v as u32
    }
}

/// The wrapped result of `ADD`, `SUB` or `MUL`.
pub open spec fn wrap_binop(op: Opcode, a: i32, b: i32) -> i32
    recommends
        op == Opcode::ADD || op == Opcode::SUB || op == Opcode::MUL,
{
    if op == Opcode::ADD {
        a.wrapping_add(b)
    } else if op == Opcode::SUB {
        a.wrapping_sub(b)
    } else {
        a.wrapping_mul(b)
    }
}

/// One step of a `LOAD` instruction after its opcode byte: `s.pc` indexes the
/// first operand byte. Operands are a destination register and a 16-bit
/// big-endian immediate. If the operands run past the end of the program the
/// step faults with the counter left after the opcode byte; an out-of-range
/// destination faults with all operand bytes consumed.
pub open spec fn spec_step_load(s: MachineState) -> (MachineState, StepOutcome) {
    if s.pc + 3 > s.program.len() {
        (s, StepOutcome::TruncatedInstruction)
    } else {
        let dest = s.program[s.pc as int];
        let value = load_value(s.program[s.pc as int + 1], s.program[s.pc as int + 2]);
        let consumed = MachineState { pc: (s.pc + 3) as nat, ..s };
        if dest >= 32 {
            (consumed, StepOutcome::InvalidRegister(dest))
        } else {
            (
                MachineState { regs: s.regs.update(dest as int, value), ..consumed },
                StepOutcome::Continue,
            )
        }
    }
}

/// One step of an `ADD`, `SUB`, `MUL` or `DIV` instruction after its opcode
/// byte: `s.pc` indexes the first operand byte. Operands are two source
/// registers and a destination register. Truncated operands and out-of-range
/// registers fault as for `LOAD`; a zero divisor faults with all operand
/// bytes consumed and no register written.
pub open spec fn spec_step_arith(s: MachineState, op: Opcode) -> (MachineState, StepOutcome)
    recommends
        op == Opcode::ADD || op == Opcode::SUB || op == Opcode::MUL || op == Opcode::DIV,
{
    if s.pc + 3 > s.program.len() {
        (s, StepOutcome::TruncatedInstruction)
    } else {
        let r1 = s.program[s.pc as int];
        let r2 = s.program[s.pc as int + 1];
        let dest = s.program[s.pc as int + 2];
        let consumed = MachineState { pc: (s.pc + 3) as nat, ..s };
        if r1 >= 32 {
            (consumed, StepOutcome::InvalidRegister(r1))
        } else if r2 >= 32 {
            (consumed, StepOutcome::InvalidRegister(r2))
        } else if dest >= 32 {
            (consumed, StepOutcome::InvalidRegister(dest))
        } else {
            let a = s.regs[r1 as int];
            let b = s.regs[r2 as int];
            if op == Opcode::DIV {
                if b == 0 {
                    (consumed, StepOutcome::DivideByZero)
                } else {
                    (
                        MachineState {
                            regs: s.regs.update(dest as int, div_quotient(a, b)),
                            remainder: as_u32_bits(div_remainder(a, b)),
                            ..consumed
                        },
                        StepOutcome::Continue,
                    )
                }
            } else {
                (
                    MachineState { regs: s.regs.update(dest as int, wrap_binop(op, a, b)), ..consumed },
                    StepOutcome::Continue,
                )
            }
        }
    }
}

/// One fetch-decode-execute step: the machine state after it and what it
/// reported. With the counter at or past the end of the program the machine
/// halts without reading; otherwise the opcode byte is consumed and
/// dispatched.
pub open spec fn spec_step(s: MachineState) -> (MachineState, StepOutcome) {
    if s.pc >= s.program.len() {
        (s, StepOutcome::EndOfProgram)
    } else {
        let byte = s.program[s.pc as int];
        let decoded = MachineState { pc: (s.pc + 1) as nat, ..s };
        match opcode_of(byte) {
            Opcode::HLT => (decoded, StepOutcome::Halt),
            Opcode::IGL => (decoded, StepOutcome::IllegalOpcode(byte)),
            Opcode::LOAD => spec_step_load(decoded),
            _ => spec_step_arith(decoded, opcode_of(byte)),
        }
    }
}

/// Bytes from the program counter to the end of the program: the measure
/// that shrinks with every continuing step.
pub open spec fn remaining_bytes(s: MachineState) -> nat {
    if s.pc >= s.program.len() {
        0
    } else {
        (s.program.len() - s.pc) as nat
    }
}

/// The machine state after stepping from `s` until a step halts. Total:
/// every continuing step consumes four program bytes, so the run ends at the
/// latest when the counter passes the end of the program.
pub open spec fn spec_run(s: MachineState) -> MachineState
    decreases remaining_bytes(s),
{
    let step = spec_step(s);
    if step.1 == StepOutcome::Continue {
        spec_run(step.0)
    } else {
        step.0
    }
}

impl VM {
    /// A fresh machine: every register zero, program counter zero, remainder
    /// zero, and an empty program.
    pub fn new() -> (vm: VM)
        ensures
            vm@.regs.len() == 32,
            forall|i: int| 0 <= i < 32 ==> vm@.regs[i] == 0,
            vm@.pc == 0,
            vm@.program.len() == 0,
            vm@.remainder == 0,
    {
        VM {
            registers: [0; 32],
            program: Vec::new(),
            pc: 0,
            remainder: 0,
        }
    }

    /// Runs the machine to completion: steps until a step halts.
    pub fn run(&mut self)
        ensures
            final(self)@ == spec_run(old(self)@),
    {
        let ghost start = self@;
        let mut is_done = false;
        while !is_done
            invariant
                spec_run(start) == (if is_done {
                    self@
                } else {
                    spec_run(self@)
                }),
            decreases (if is_done {
                0nat
            } else {
                1nat
            }), remaining_bytes(self@),
        {
            let outcome = self.execute_instruction();
            is_done = outcome.halts();
        }
    }

    /// Executes exactly one instruction, discarding what it reported; for
    /// instruction-at-a-time stepping.
    pub fn run_once(&mut self)
        ensures
            final(self)@ == spec_step(old(self)@).0,
    {
        let _ = self.execute_instruction();
    }

    /// Executes one instruction and reports its outcome. Never panics: every
    /// fault becomes a halting [`StepOutcome`].
    pub fn execute_instruction(&mut self) -> (outcome: StepOutcome)
        ensures
            final(self)@ == spec_step(old(self)@).0,
            outcome == spec_step(old(self)@).1,
    {
        if self.pc >= self.program.len() {
            return StepOutcome::EndOfProgram;
        }
        let byte = self.program[self.pc];
        match self.decode_opcode() {
            Opcode::HLT => StepOutcome::Halt,
            Opcode::IGL => StepOutcome::IllegalOpcode(byte),
            Opcode::LOAD => {
                if self.program.len() - self.pc < 3 {
                    return StepOutcome::TruncatedInstruction;
                }
                let register = self.next_8_bits();
                let number = self.next_16_bits() as u32;
                if register >= 32 {
                    return StepOutcome::InvalidRegister(register);
                }
                self.registers[register as usize] = number as i32;
                StepOutcome::Continue
            },
            op => self.execute_binary(op),
        }
    }

    /// Executes the operand part of an `ADD`, `SUB`, `MUL` or `DIV`
    /// instruction whose opcode byte is already consumed.
    fn execute_binary(&mut self, op: Opcode) -> (outcome: StepOutcome)
        requires
            op == Opcode::ADD || op == Opcode::SUB || op == Opcode::MUL || op == Opcode::DIV,
            old(self).pc <= old(self).program.len(),
        ensures
            final(self)@ == spec_step_arith(old(self)@, op).0,
            outcome == spec_step_arith(old(self)@, op).1,
    {
        if self.program.len() - self.pc < 3 {
            return StepOutcome::TruncatedInstruction;
        }
        let r1 = self.next_8_bits();
        let r2 = self.next_8_bits();
        let dest = self.next_8_bits();
        if r1 >= 32 {
            return StepOutcome::InvalidRegister(r1);
        }
        if r2 >= 32 {
            return StepOutcome::InvalidRegister(r2);
        }
        if dest >= 32 {
            return StepOutcome::InvalidRegister(dest);
        }
        let a = self.registers[r1 as usize];
        let b = self.registers[r2 as usize];
        match op {
            Opcode::ADD => {
                self.registers[dest as usize] = a.wrapping_add(b);
                StepOutcome::Continue
            },
            Opcode::SUB => {
                self.registers[dest as usize] = a.wrapping_sub(b);
                StepOutcome::Continue
            },
            Opcode::MUL => {
                self.registers[dest as usize] = a.wrapping_mul(b);
                StepOutcome::Continue
            },
            _ => {
                if b == 0 {
                    return StepOutcome::DivideByZero;
                }
                let quotient: i32;
                let rem: i32;
                if a == i32::MIN && b == -1 {
                    quotient = i32::MIN;
                    rem = 0;
                } else {
                    proof {
                        lemma_trunc_div_rem_fit(a, b);
                    }
                    quotient = a.checked_div(b).unwrap();
                    rem = a.checked_rem(b).unwrap();
                }
                self.registers[dest as usize] = quotient;
                self.remainder = to_u32_bits(rem);
                StepOutcome::Continue
            },
        }
    }

    /// Consumes and decodes the opcode byte at the program counter.
    fn decode_opcode(&mut self) -> (op: Opcode)
        requires
            old(self).pc < old(self).program.len(),
        ensures
            op == opcode_of(old(self)@.program[old(self)@.pc as int]),
            final(self)@ == (MachineState { pc: (old(self)@.pc + 1) as nat, ..old(self)@ }),
    {
        let opcode = Opcode::from_byte(self.program[self.pc]);
        self.pc = self.pc + 1;
        opcode
    }

    /// Consumes one operand byte at the program counter.
    fn next_8_bits(&mut self) -> (result: u8)
        requires
            old(self).pc < old(self).program.len(),
        ensures
            result == old(self)@.program[old(self)@.pc as int],
            final(self)@ == (MachineState { pc: (old(self)@.pc + 1) as nat, ..old(self)@ }),
    {
        let result = self.program[self.pc];
        self.pc = self.pc + 1;
        result
    }

    /// Consumes two operand bytes at the program counter and reads them as a
    /// 16-bit big-endian value, high byte first.
    fn next_16_bits(&mut self) -> (result: u16)
        requires
            old(self).pc + 2 <= old(self).program.len(),
        ensures
            result == old(self)@.program[old(self)@.pc as int] as int * 256 + old(self)@.program[
                old(self)@.pc as int + 1
            ] as int,
            final(self)@ == (MachineState { pc: (old(self)@.pc + 2) as nat, ..old(self)@ }),
    {
        let hi = self.program[self.pc];
        let lo = self.program[self.pc + 1];
        let result = ((hi as u16) << 8) | (lo as u16);
        proof {
            let h = hi as u16;
            let l = lo as u16;
            assert(h < 256 && l < 256 ==> ((h << 8) | l) == h * 256 + l) by (bit_vector);
        }
        self.pc = self.pc + 2;
        result
    }
}

/// Reinterprets a signed 32-bit value as its unsigned two's complement bits.
fn to_u32_bits(v: i32) -> (result: u32)
    ensures
        result == as_u32_bits(v),
{
    if v < 0 {
        ((v as i64) + 0x1_0000_0000) as u32
    } else {
        v as u32
    }
}

/// For a nonzero divisor outside the one wrapping case, the truncating
/// quotient and remainder fit in 32 bits, so `checked_div` and `checked_rem`
/// return them.
proof fn lemma_trunc_div_rem_fit(a: i32, b: i32)
    requires
        b != 0,
        !(a == i32::MIN && b == -1),
    ensures
        i32::MIN <= trunc_div(a as int, b as int) <= i32::MAX,
        i32::MIN < trunc_rem(a as int, b as int) <= i32::MAX,
        a.checked_div(b) == Some(div_quotient(a, b)),
        a.checked_rem(b) == Some(div_remainder(a, b)),
{
    let x = a as int;
    let d = b as int;
    if x == 0 {
    } else if x > 0 && d > 0 {
        lemma_div_pos_is_pos(x, d);
        lemma_div_nonincreasing(x, d);
        lemma_mod_division_less_than_divisor(x, d);
    } else if x < 0 && d < 0 {
        let xm = x * -1;
        let dm = d * -1;
        lemma_div_pos_is_pos(xm, dm);
        lemma_div_nonincreasing(xm, dm);
        lemma_mod_division_less_than_divisor(xm, dm);
        if dm == 1 {
            assert(xm / 1 == xm);
        } else {
            lemma_div_is_ordered_by_denominator(xm, 2, dm);
            lemma_div_is_ordered(xm, 0x8000_0000, 2);
            assert(0x8000_0000int / 2 == 0x4000_0000) by (nonlinear_arith);
        }
    } else if x < 0 {
        let xm = x * -1;
        lemma_div_pos_is_pos(xm, d);
        lemma_div_nonincreasing(xm, d);
        lemma_mod_division_less_than_divisor(xm, d);
    } else {
        let dm = d * -1;
        lemma_div_pos_is_pos(x, dm);
        lemma_div_nonincreasing(x, dm);
        lemma_mod_division_less_than_divisor(x, dm);
    }
}

/// Law: execution is deterministic. Two machines in identical states reach
/// identical final states; there is no hidden randomness or external state.
pub proof fn lemma_run_deterministic(s1: MachineState, s2: MachineState)
    requires
        s1 == s2,
    ensures
        spec_run(s1) == spec_run(s2),
{
}

/// Law: with the program counter at or past the end of the program bytes,
/// stepping and running halt at once and change nothing — exhaustion is a
/// graceful halt, not a read out of bounds.
pub proof fn lemma_run_past_end_is_noop(s: MachineState)
    requires
        s.pc >= s.program.len(),
    ensures
        spec_step(s) == (s, StepOutcome::EndOfProgram),
        spec_run(s) == s,
{
}

/// Law: running never modifies the program bytes; the machine cannot rewrite
/// its own code.
pub proof fn lemma_run_preserves_program(s: MachineState)
    ensures
        spec_run(s).program == s.program,
    decreases remaining_bytes(s),
{
    let step = spec_step(s);
    if step.1 == StepOutcome::Continue {
        lemma_run_preserves_program(step.0);
    }
}

/// Law: a `HLT` or illegal opcode byte is terminal — the step consumes
/// exactly that one byte and halts, leaving registers and remainder alone.
pub proof fn lemma_terminal_opcode_halts(s: MachineState)
    requires
        s.pc < s.program.len(),
        opcode_of(s.program[s.pc as int]) == Opcode::HLT || opcode_of(s.program[s.pc as int])
            == Opcode::IGL,
    ensures
        spec_step(s).0 == (MachineState { pc: (s.pc + 1) as nat, ..s }),
        spec_step(s).1.spec_halts(),
{
}

/// All registers but `d` hold the same values in `post` as in `pre`.
pub open spec fn only_register_changed(pre: Seq<i32>, post: Seq<i32>, d: int) -> bool {
    forall|i: int| 0 <= i < pre.len() && i != d ==> post[i] == pre[i]
}

/// Law: a continuing step consumes exactly four program bytes and writes at
/// most its destination register; every other register keeps its value.
pub proof fn lemma_continue_writes_one_register(s: MachineState)
    requires
        s.regs.len() == 32,
        spec_step(s).1 == StepOutcome::Continue,
    ensures
        spec_step(s).0.pc == s.pc + 4,
        spec_step(s).0.program == s.program,
        exists|d: int|
            0 <= d < 32 && only_register_changed(s.regs, spec_step(s).0.regs, d),
{
    let byte = s.program[s.pc as int];
    if opcode_of(byte) == Opcode::LOAD {
        let dest = s.program[s.pc as int + 1];
        assert(only_register_changed(s.regs, spec_step(s).0.regs, dest as int));
    } else {
        let dest = s.program[s.pc as int + 3];
        assert(only_register_changed(s.regs, spec_step(s).0.regs, dest as int));
    }
}

/// Law: an instruction whose operand bytes would run past the end of the
/// program halts the machine gracefully — nothing is read out of bounds and
/// neither registers nor remainder change.
pub proof fn lemma_truncated_instruction_halts(s: MachineState)
    requires
        s.pc < s.program.len(),
        s.program.len() < s.pc + 4,
        opcode_of(s.program[s.pc as int]) != Opcode::HLT,
        opcode_of(s.program[s.pc as int]) != Opcode::IGL,
    ensures
        spec_step(s).1 == StepOutcome::TruncatedInstruction,
        spec_step(s).0.regs == s.regs,
        spec_step(s).0.remainder == s.remainder,
        spec_step(s).0.program == s.program,
{
}

} // verus!
