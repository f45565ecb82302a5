//! The failures that the machine reports to its caller.
use vstd::prelude::*;
use crate::isa::Op;

verus! {

/// What went wrong while loading, decoding or executing an instruction.
#[derive(Clone, Copy, Debug, PartialEq, Eq, Structural)]
pub enum MachineError {
    /// A memory access at this address, which lies outside memory.
    OutOfBounds(usize),
    /// The first token names no known mnemonic.
    UnknownInstruction,
    /// The instruction has the wrong number of tokens for its mnemonic:
    /// the mnemonic, and how many tokens the line had, mnemonic included.
    ArityError { mnemonic: Op, tokens: usize },
    /// A register operand is malformed or names no register.
    InvalidRegister,
    /// An address operand is malformed or lies outside memory.
    InvalidAddress,
    /// An immediate operand is malformed or does not fit in 8 bits.
    InvalidImmediate,
    /// The verbose flag is neither 0 nor 1.
    InvalidFlag,
    /// The condition of an `IF` does not have the shape `IF Ra <op> operand`.
    InvalidCondition,
    /// `QMOV` needs one register and one address operand.
    InvalidOperandCombination,
    /// An immediate cannot be a destination.
    InvalidDestination,
    /// A required keyword or separator is missing.
    SyntaxError,
    /// The binary runner met this byte where an opcode was expected.
    InvalidOpcode(u8),
}

} // verus!
