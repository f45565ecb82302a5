//! Operand parsers on string slices, shared by the engine and the
//! assembler's callers.
use vstd::prelude::*;
use crate::cpu::{imm_result, reg_result};
use crate::error::MachineError;
use crate::text::{address_of, chars_of, parse_address_chars, parse_immediate_chars, parse_register_chars};

verus! {

/// The memory address that `[addr]` names: decimal, or hexadecimal after
/// `0x`, below the memory size. Nothing may follow the closing bracket.
pub fn parse_address(addr: &str) -> (r: Result<usize, MachineError>)
    ensures
        r == match address_of(addr@) {
            Some(a) => Ok(a),
            None => Err(MachineError::InvalidAddress),
        },
{
    let t = chars_of(addr);
    match parse_address_chars(&t) {
        Some(a) => Ok(a),
        None => Err(MachineError::InvalidAddress),
    }
}

/// The 8-bit value of an immediate: binary after `0b`, hexadecimal after
/// `0x`, else decimal.
pub fn parse_immediate(value: &str) -> (r: Result<u8, MachineError>)
    ensures
        r == imm_result(value@),
{
    let t = chars_of(value);
    match parse_immediate_chars(&t) {
        Some(v) => Ok(v),
        None => Err(MachineError::InvalidImmediate),
    }
}

/// The register index that `Rn` names (trailing commas allowed), below 8.
pub fn parse_register(reg: &str) -> (r: Result<usize, MachineError>)
    ensures
        r == reg_result(reg@),
{
    let t = chars_of(reg);
    match parse_register_chars(&t) {
        Some(i) => Ok(i),
        None => Err(MachineError::InvalidRegister),
    }
}

} // verus!
