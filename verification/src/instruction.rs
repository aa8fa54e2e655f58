//! Opcodes of the bytecode format and their decoding from a raw byte.

use vstd::prelude::*;

verus! {

/// One-byte operation identifier. Every byte value decodes to exactly one
/// variant; bytes outside the defined range decode to `IGL` (illegal).
#[derive(Clone, Copy, Debug, PartialEq, Eq, Structural)]
pub enum Opcode {
    HLT,
    LOAD,
    ADD,
    SUB,
    MUL,
    DIV,
    IGL,
}

/// Meaning of a raw opcode byte: `0` is `HLT`, `1` is `LOAD`, `2` is `ADD`,
/// `3` is `SUB`, `4` is `MUL`, `5` is `DIV`, and every other value is `IGL`.
pub open spec fn opcode_of(byte: u8) -> Opcode {
    if byte == 0 {
        Opcode::HLT
    } else if byte == 1 {
        Opcode::LOAD
    } else if byte == 2 {
        Opcode::ADD
    } else if byte == 3 {
        Opcode::SUB
    } else if byte == 4 {
        Opcode::MUL
    } else if byte == 5 {
        Opcode::DIV
    } else {
        Opcode::IGL
    }
}

impl Opcode {
    /// Decodes a raw byte into its opcode.
    pub fn from_byte(byte: u8) -> (op: Opcode)
        ensures
            op == opcode_of(byte),
    {
        match byte {
            0 => Opcode::HLT,
            1 => Opcode::LOAD,
            2 => Opcode::ADD,
            3 => Opcode::SUB,
            4 => Opcode::MUL,
            5 => Opcode::DIV,
            _ => Opcode::IGL,
        }
    }
}

} // verus!
