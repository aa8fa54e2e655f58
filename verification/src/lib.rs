//! A minimal register-based bytecode virtual machine.
//!
//! The machine owns a bank of 32 signed 32-bit registers, a program counter,
//! a remainder register, and the program bytes. Execution repeatedly decodes
//! one opcode and its operands and applies the operation to the registers
//! until the program halts, faults, or runs past the end of its bytes.

pub mod instruction;
pub mod vm;
